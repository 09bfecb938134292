//! Writing `.aseprite` files.

use vstd::prelude::*;

use super::bytes::{
    le16, le32, low_u16, push_bytes, push_u16, push_u32, push_zeros, size_u32, trunc16, trunc32, zero_bytes,
};
use super::format::{
    ASE_MAGIC, AseFailure, CHUNK_CEL, CHUNK_LAYER, CHUNK_PALETTE, FRAME_MAGIC, WriteFailure, active_colors,
    ase_cels_resolvable, ase_file, cel_chunk, cel_data, chunk_bytes, color_at, frame_bytes, frame_chunks, layer_step, cel_encodable, found_resolvable, layers_encodable,
    frames_encodable, reached_cels_resolvable, cel_decodes_back, frames_decode_back, name_fits,
    frame_duration, frames_bytes, header_bytes, layer_chunk, layer_data, layer_flags, layer_tail, layer_type_code,
    palette_chunk, palette_data, palette_entries, palette_entry, string_bytes, with_file_size,
    written_frame_count,
};
use super::laws::{lemma_write_then_read, read_back};
use super::read::{ReadFailure, ase_read};
use super::zlib::{zlib_compress, zlib_decoded, zlib_stream};
use crate::document::cel::Cel;
use crate::document::layer::{Layer, LayerKind};
use crate::document::model::{find_cel, lemma_find_cel, resolvable};
use crate::document::pixels::{ColorMode, Palette, PixelGrid, PixelGridView, Rgba};
use crate::document::sprite::{DocView, SpriteDocument};
use crate::document::validate::validation_error;
use crate::error::CoreError;

verus! {

/// The outcome of an exec step agrees with the modelled outcome: the same
/// bytes, or the error that stands for the same failure.
pub open spec fn write_matches(r: Result<Vec<u8>, CoreError>, s: Result<Seq<u8>, WriteFailure>) -> bool {
    match s {
        Ok(b) => r matches Ok(v) && v@ == b,
        Err(WriteFailure::MissingPixels) => r matches Err(CoreError::InvalidAse(m)) && m@
            == "cel missing pixel data"@,
        Err(WriteFailure::SizeMismatch) => r matches Err(CoreError::InvalidAse(m)) && m@
            == "cel size mismatch with sprite"@,
        Err(WriteFailure::NotIndexed) => r matches Err(CoreError::InvalidAse(m)) && m@
            == "indexed write requires indexed cel pixels"@,
    }
}

/// `write_ase` gives the file, or the error that stands for the failure.
pub open spec fn ase_matches(r: Result<Vec<u8>, CoreError>, s: Result<Seq<u8>, AseFailure>) -> bool {
    match s {
        Ok(b) => r matches Ok(v) && v@ == b,
        Err(AseFailure::Invalid(msg)) => r matches Err(CoreError::Validation(m)) && m@ == msg,
        Err(AseFailure::Unwritable(msg)) => r matches Err(CoreError::InvalidAse(m)) && m@ == msg,
    }
}

/// `(a + b) as u32` for two `u32`s, wrapping.
fn add_mod32(a: u32, b: u32) -> (r: u32)
    ensures
        r == trunc32(a + b),
{
    ((a as u64 + b as u64) % 0x1_0000_0000) as u32
}

/// `n as u16` for a length.
pub(crate) fn len_u16(n: usize) -> (r: u16)
    ensures
        r == trunc16(n as int),
{
    ((n as u64) % 0x1_0000) as u16
}

/// The 128-byte file header with the file size left 0.
fn write_header_placeholder(frames: u16, width: u16, height: u16, pixel_w: u8, pixel_h: u8) -> (h: Vec<u8>)
    ensures
        h@ == header_bytes(frames, width, height, pixel_w, pixel_h),
{
    let mut header: Vec<u8> = Vec::new();
    push_zeros(&mut header, 4);
    push_u16(&mut header, ASE_MAGIC);
    push_u16(&mut header, frames);
    push_u16(&mut header, width);
    push_u16(&mut header, height);
    push_u16(&mut header, 8);
    push_u32(&mut header, 1);
    push_u16(&mut header, 100);
    push_zeros(&mut header, 14);
    header.push(pixel_w);
    header.push(pixel_h);
    push_zeros(&mut header, 92);
    proof {
        assert(header@ =~= header_bytes(frames, width, height, pixel_w, pixel_h));
    }
    header
}

/// Writes the buffer's length, as a `u32`, into its first four bytes.
fn patch_file_size(buf: &mut Vec<u8>)
    requires
        old(buf).len() >= 4,
    ensures
        final(buf)@ == with_file_size(old(buf)@),
{
    let size = size_u32(buf.len(), 0);
    buf.set(0, (size % 256) as u8);
    buf.set(1, ((size / 256) % 256) as u8);
    buf.set(2, ((size / 0x1_0000) % 256) as u8);
    buf.set(3, (size / 0x100_0000) as u8);
    proof {
        assert(final(buf)@ =~= with_file_size(old(buf)@));
    }
}

/// A chunk of the given type around `data`.
fn write_chunk(chunk_type: u16, data: &[u8]) -> (c: Vec<u8>)
    ensures
        c@ == chunk_bytes(chunk_type, data@),
{
    let size = size_u32(data.len(), 6);
    let mut chunk: Vec<u8> = Vec::new();
    push_u32(&mut chunk, size);
    push_u16(&mut chunk, chunk_type);
    push_bytes(&mut chunk, data);
    proof {
        assert(chunk@ =~= chunk_bytes(chunk_type, data@));
    }
    chunk
}

/// A string: its UTF-8 length as a `u16`, then its UTF-8 bytes.
fn write_string(s: &str) -> (out: Vec<u8>)
    ensures
        out@ == string_bytes(s@),
{
    let bytes = s.as_bytes();
    let mut out: Vec<u8> = Vec::new();
    push_u16(&mut out, len_u16(bytes.len()));
    push_bytes(&mut out, bytes);
    out
}

/// The palette chunk: at least 2 and at most 256 entries, transparent black past the palette's end.
fn write_palette_chunk(palette: &Palette) -> (r: Result<Vec<u8>, CoreError>)
    ensures
        r matches Ok(c) && c@ == palette_chunk(palette@),
{
    let n = palette.colors.len();
    let active: usize = if n < 2 {
        2
    } else if n > Palette::MAX_COLORS {
        Palette::MAX_COLORS
    } else {
        n
    };
    let last = (active - 1) as u32;
    let mut data: Vec<u8> = Vec::new();
    push_u32(&mut data, active as u32);
    push_u32(&mut data, 0);
    push_u32(&mut data, last);
    push_zeros(&mut data, 8);
    let ghost head = data@;
    let mut i: usize = 0;
    while i < active
        invariant
            i <= active,
            active == active_colors(palette@.len()),
            data@ == head + palette_entries(palette@, i as nat),
        decreases active - i,
    {
        let color = if i < palette.colors.len() {
            palette.colors[i]
        } else {
            Rgba { r: 0, g: 0, b: 0, a: 0 }
        };
        push_u16(&mut data, 0);
        data.push(color.r);
        data.push(color.g);
        data.push(color.b);
        data.push(color.a);
        proof {
            assert(color == color_at(palette@, i as int));
            assert(data@ =~= head + palette_entries(palette@, (i + 1) as nat));
        }
        i = i + 1;
    }
    proof {
        assert(data@ =~= palette_data(palette@));
    }
    Ok(write_chunk(CHUNK_PALETTE, data.as_slice()))
}

/// The layer chunk: flags, type, blend mode, opacity, name and, for a
/// tilemap layer, its tileset index.
fn write_layer_chunk(layer: &Layer) -> (r: Result<Vec<u8>, CoreError>)
    ensures
        r matches Ok(c) && c@ == layer_chunk(layer@),
{
    let mut flags: u16 = 0;
    if layer.visible {
        flags = flags + 1;
    }
    if layer.is_editable {
        flags = flags + 2;
    }
    if layer.is_background {
        flags = flags + 8;
    }
    if let LayerKind::Group { collapsed: true } = &layer.kind {
        flags = flags + 32;
    }
    let layer_type: u16 = match &layer.kind {
        LayerKind::Normal => 0,
        LayerKind::Group { .. } => 1,
        LayerKind::Tilemap { .. } => 2,
        LayerKind::Reference { .. } => 3,
    };
    let mut data: Vec<u8> = Vec::new();
    push_u16(&mut data, flags);
    push_u16(&mut data, layer_type);
    push_u16(&mut data, 0);
    push_u16(&mut data, 0);
    push_u16(&mut data, 0);
    push_u16(&mut data, layer.blend_mode.code());
    data.push(layer.opacity);
    push_zeros(&mut data, 3);
    let name = write_string(layer.name.as_str());
    push_bytes(&mut data, name.as_slice());
    let ghost before = data@;
    if let LayerKind::Tilemap { tileset_id, .. } = &layer.kind {
        push_u32(&mut data, *tileset_id as u32);
    }
    proof {
        assert(flags == layer_flags(layer@));
        assert(layer_type == layer_type_code(layer@.kind));
        assert(data@ =~= before + layer_tail(layer@.kind));
        assert(data@ =~= layer_data(layer@));
    }
    Ok(write_chunk(CHUNK_LAYER, data.as_slice()))
}

/// The cel chunk of a cel whose pixels were compressed to `compressed`:
/// layer index, position, opacity, type 2 (compressed image), z-index, size, then the pixels.
pub fn cel_chunk_from_compressed(layer_index: u16, cel: &Cel, width: u16, height: u16, compressed: &[u8]) -> (c:
    Vec<u8>)
    ensures
        c@ == chunk_bytes(CHUNK_CEL, cel_data(layer_index, *cel, width, height, compressed@)),
{
    let mut data: Vec<u8> = Vec::new();
    push_u16(&mut data, layer_index);
    push_u16(&mut data, (cel.x as i16) as u16);
    push_u16(&mut data, (cel.y as i16) as u16);
    data.push(cel.opacity);
    push_u16(&mut data, 2);
    push_u16(&mut data, cel.z_index as u16);
    push_zeros(&mut data, 5);
    push_u16(&mut data, width);
    push_u16(&mut data, height);
    push_bytes(&mut data, compressed);
    proof {
        assert(data@ =~= cel_data(layer_index, *cel, width, height, compressed@));
    }
    write_chunk(CHUNK_CEL, data.as_slice())
}

/// The cel chunk of a cel showing `pixels`, which must be indexed and of the canvas's size.
fn write_cel_chunk(layer_index: u16, cel: &Cel, doc_width: u16, doc_height: u16, pixels: &PixelGrid) -> (r:
    Result<Vec<u8>, CoreError>)
    ensures
        write_matches(r, cel_chunk(layer_index, *cel, doc_width, doc_height, pixels@)),
        r is Ok ==> (pixels@ matches PixelGridView::Indexed { indices, .. } ==> zlib_decoded(zlib_stream(indices))
            == Some(indices)),
{
    match pixels {
        PixelGrid::Indexed { width, height, indices } => {
            let w = *width as u16;
            let h = *height as u16;
            assert((w as u64) * (h as u64) <= 0x1_0000_0000) by (nonlinear_arith)
                requires
                    w < 0x1_0000,
                    h < 0x1_0000,
            ;
            if w != doc_width || h != doc_height || indices.len() as u64 != (w as u64) * (h as u64) {
                return Err(CoreError::InvalidAse("cel size mismatch with sprite".to_owned()));
            }
            match zlib_compress(indices.as_slice()) {
                Ok(compressed) => Ok(cel_chunk_from_compressed(layer_index, cel, w, h, compressed.as_slice())),
                Err(e) => Err(CoreError::Io(e)),
            }
        },
        _ => Err(CoreError::InvalidAse("indexed write requires indexed cel pixels".to_owned())),
    }
}

/// Once the chunks of a frame fail, they fail the same way whatever layers follow.
proof fn lemma_frame_chunks_err_stays(
    d: crate::document::sprite::DocView,
    frame: usize,
    w: u16,
    h: u16,
    k: nat,
    n: nat,
)
    requires
        k <= n,
        frame_chunks(d, frame, w, h, k) is Err,
    ensures
        frame_chunks(d, frame, w, h, n) == frame_chunks(d, frame, w, h, k),
    decreases n,
{
    if k < n {
        lemma_frame_chunks_err_stays(d, frame, w, h, k, (n - 1) as nat);
    }
}

/// Once the frames fail, they fail the same way whatever frames follow.
pub proof fn lemma_frames_err_stays(d: crate::document::sprite::DocView, w: u16, h: u16, k: nat, n: nat)
    requires
        k <= n,
        frames_bytes(d, w, h, k) is Err,
    ensures
        frames_bytes(d, w, h, n) == frames_bytes(d, w, h, k),
    decreases n,
{
    if k < n {
        lemma_frames_err_stays(d, w, h, k, (n - 1) as nat);
    }
}

/// Appends what layer `l` adds to the chunks of frame `frame_idx`, and counts them.
fn write_layer_step(
    doc: &SpriteDocument,
    l: usize,
    frame_idx: usize,
    width: u16,
    height: u16,
    body: &mut Vec<u8>,
    count: &mut u32,
    k: Ghost<nat>,
) -> (r: Result<(), CoreError>)
    requires
        l < doc.layers.len(),
        found_resolvable(doc@, frame_idx, l as int),
        *old(count) == trunc32(k@ as int),
    ensures
        match layer_step(doc@, frame_idx, width, height, l as int, (old(body)@, k@)) {
            Ok((b, k2)) => r is Ok && final(body)@ == b && *final(count) == trunc32(k2 as int) && cel_encodable(
                doc@,
                frame_idx,
                width,
                height,
                l as int,
            ) && cel_decodes_back(doc@, frame_idx, l as int),
            Err(f) => write_matches(Err(r->Err_0), Err(f)) && r is Err,
        },
{
    let ghost d = doc@;
    let chunk = match write_layer_chunk(&doc.layers[l]) {
        Ok(c) => c,
        Err(e) => {
            return Err(e);
        },
    };
    push_bytes(body, chunk.as_slice());
    match doc.cel_index(l, frame_idx) {
        Some(ci) => {
            proof {
                lemma_find_cel(doc.cels@, l, frame_idx);
                assert(resolvable(doc.cels@, doc.cels@[ci as int]));
            }
            let cel = &doc.cels[ci];
            match doc.resolved_pixels(cel) {
                None => Err(CoreError::InvalidAse("cel missing pixel data".to_owned())),
                Some(px) => {
                    match write_cel_chunk(l as u16, cel, width, height, px) {
                        Ok(c) => {
                            push_bytes(body, c.as_slice());
                            proof {
                                vstd::arithmetic::div_mod::lemma_add_mod_noop(k@ as int, 2, 0x1_0000_0000);
                                vstd::arithmetic::div_mod::lemma_small_mod(2, 0x1_0000_0000);
                            }
                            *count = add_mod32(*count, 2);
                            Ok(())
                        },
                        Err(e) => Err(e),
                    }
                },
            }
        },
        None => {
            proof {
                vstd::arithmetic::div_mod::lemma_add_mod_noop(k@ as int, 1, 0x1_0000_0000);
                vstd::arithmetic::div_mod::lemma_small_mod(1, 0x1_0000_0000);
            }
            *count = add_mod32(*count, 1);
            Ok(())
        },
    }
}

/// One frame: its header, then the palette chunk and, for each layer, its
/// layer chunk and its cel's chunk in this frame.
fn write_frame(doc: &SpriteDocument, frame_idx: usize, width: u16, height: u16) -> (r: Result<Vec<u8>, CoreError>)
    requires
        forall|l: int|
            0 <= l < doc.layers.len() && layers_encodable(doc@, frame_idx, width, height, l)
                ==> #[trigger] found_resolvable(doc@, frame_idx, l),
    ensures
        write_matches(r, frame_bytes(doc@, frame_idx, width, height)),
        r is Ok ==> layers_encodable(doc@, frame_idx, width, height, doc.layers.len() as int),
        r is Ok ==> forall|l: int| 0 <= l < doc.layers.len() ==> #[trigger] cel_decodes_back(doc@, frame_idx, l),
{
    let ghost d = doc@;
    let palette = match write_palette_chunk(&doc.palette) {
        Ok(c) => c,
        Err(e) => {
            return Err(e);
        },
    };
    let mut body: Vec<u8> = Vec::new();
    push_bytes(&mut body, palette.as_slice());
    let mut count: u32 = 1;
    let ghost mut k: nat = 1;
    proof {
        assert(body@ =~= palette_chunk(d.palette));
    }
    let mut l: usize = 0;
    while l < doc.layers.len()
        invariant
            l <= doc.layers.len(),
            d == doc@,
            frame_chunks(d, frame_idx, width, height, l as nat) == Ok::<(Seq<u8>, nat), WriteFailure>((body@, k)),
            count == trunc32(k as int),
            layers_encodable(d, frame_idx, width, height, l as int),
            forall|m: int| 0 <= m < l ==> #[trigger] cel_decodes_back(d, frame_idx, m),
            forall|m: int|
                0 <= m < doc.layers.len() && layers_encodable(d, frame_idx, width, height, m)
                    ==> #[trigger] found_resolvable(d, frame_idx, m),
        decreases doc.layers.len() - l,
    {
        let ghost before = body@;
        proof {
            assert(found_resolvable(d, frame_idx, l as int));
        }
        match write_layer_step(doc, l, frame_idx, width, height, &mut body, &mut count, Ghost(k)) {
            Ok(()) => {
                proof {
                    k = layer_step(d, frame_idx, width, height, l as int, (before, k)).unwrap().1;
                    assert forall|m: int| 0 <= m < l + 1 implies #[trigger] cel_encodable(
                        d,
                        frame_idx,
                        width,
                        height,
                        m,
                    ) by {
                        if m < l {
                            assert(layers_encodable(d, frame_idx, width, height, l as int));
                        }
                    }
                }
            },
            Err(e) => {
                proof {
                    lemma_frame_chunks_err_stays(d, frame_idx, width, height, (l + 1) as nat, d.layers.len());
                }
                return Err(e);
            },
        }
        l = l + 1;
    }
    let duration: u32 = if frame_idx < doc.frames.len() {
        doc.frames[frame_idx].duration_ms
    } else {
        100
    };
    let frame_size = size_u32(body.len(), 16);
    let mut frame: Vec<u8> = Vec::new();
    push_u32(&mut frame, frame_size);
    push_u16(&mut frame, FRAME_MAGIC);
    push_u16(&mut frame, 0xFFFF);
    push_u16(&mut frame, low_u16(duration));
    push_zeros(&mut frame, 2);
    push_u32(&mut frame, count);
    push_bytes(&mut frame, body.as_slice());
    proof {
        assert(duration == frame_duration(d, frame_idx as int));
        assert(frame_bytes(d, frame_idx, width, height) == Ok::<Seq<u8>, WriteFailure>(frame@));
    }
    Ok(frame)
}

/// Frames `0..frame_count`, one after the other.
fn write_frames(doc: &SpriteDocument, frame_count: u16, w: u16, h: u16) -> (r: Result<Vec<u8>, CoreError>)
    requires
        reached_cels_resolvable(doc@, w, h, frame_count as nat),
    ensures
        write_matches(r, frames_bytes(doc@, w, h, frame_count as nat)),
        r is Ok ==> frames_decode_back(doc@, frame_count as nat),
{
    let ghost d = doc@;
    let mut body: Vec<u8> = Vec::new();
    let mut frame_idx: usize = 0;
    while frame_idx < frame_count as usize
        invariant
            frame_idx <= frame_count,
            d == doc@,
            reached_cels_resolvable(d, w, h, frame_count as nat),
            frames_encodable(d, w, h, frame_idx),
            frames_decode_back(d, frame_idx as nat),
            frames_bytes(d, w, h, frame_idx as nat) == Ok::<Seq<u8>, WriteFailure>(body@),
        decreases frame_count - frame_idx,
    {
        proof {
            assert forall|l: int|
                0 <= l < doc.layers.len() && layers_encodable(d, frame_idx, w, h, l) implies #[trigger] found_resolvable(
                d,
                frame_idx,
                l,
            ) by {
                assert(frames_encodable(d, w, h, frame_idx));
            }
        }
        match write_frame(doc, frame_idx, w, h) {
            Ok(f) => {
                push_bytes(&mut body, f.as_slice());
                proof {
                    assert forall|k: usize| k < frame_idx + 1 implies #[trigger] layers_encodable(
                        d,
                        k,
                        w,
                        h,
                        d.layers.len() as int,
                    ) by {
                        if k < frame_idx {
                            assert(frames_encodable(d, w, h, frame_idx));
                        }
                    }
                    assert forall|f: usize, l: int|
                        f < frame_idx + 1 && 0 <= l < d.layers.len() implies #[trigger] cel_decodes_back(d, f, l) by {
                        if f < frame_idx {
                            assert(frames_decode_back(d, frame_idx as nat));
                        }
                    }
                }
            },
            Err(e) => {
                proof {
                    lemma_frames_err_stays(d, w, h, (frame_idx + 1) as nat, frame_count as nat);
                }
                return Err(e);
            },
        }
        frame_idx = frame_idx + 1;
    }
    Ok(body)
}

/// Writes an indexed document as an `.aseprite` file: the header, then every
/// frame with a palette chunk and a chunk for each layer and each of its cels,
/// cel pixels zlib-compressed.
pub fn write_ase(doc: &SpriteDocument) -> (r: Result<Vec<u8>, CoreError>)
    requires
        ase_cels_resolvable(doc@),
    ensures
        ase_matches(r, ase_file(doc@)),
        r is Ok ==> frames_decode_back(doc@, written_frame_count(doc@) as nat),
        r matches Ok(b) ==> ase_read(b@) == Ok::<DocView, ReadFailure>(read_back(doc@)),
        r is Ok ==> read_back(doc@).width == doc.width && read_back(doc@).height == doc.height && read_back(
            doc@,
        ).color_mode == ColorMode::Indexed && read_back(doc@).frames.len() == doc.frames.len() && read_back(
            doc@,
        ).layers.len() == doc.layers.len(),
{
    reveal(ase_file);
    let ghost d = doc@;
    match doc.validate() {
        Ok(()) => {},
        Err(e) => {
            return Err(e);
        },
    }
    if doc.color_mode != ColorMode::Indexed {
        return Err(CoreError::InvalidAse("only indexed write supported in Phase 0 bootstrap".to_owned()));
    }
    if doc.width == 0 || doc.height == 0 || doc.width > 0xffff || doc.height > 0xffff {
        return Err(CoreError::InvalidAse("invalid sprite dimensions".to_owned()));
    }
    if doc.frames.len() > 0xffff {
        return Err(CoreError::InvalidAse("too many frames".to_owned()));
    }
    if doc.layers.len() > 0x10000 {
        return Err(CoreError::InvalidAse("too many layers".to_owned()));
    }
    let mut li: usize = 0;
    while li < doc.layers.len()
        invariant
            li <= doc.layers.len(),
            d == doc@,
            validation_error(d) is None,
            d.color_mode == ColorMode::Indexed,
            1 <= d.width <= 0xffff,
            1 <= d.height <= 0xffff,
            d.frames.len() <= 0xffff,
            d.layers.len() <= 0x10000,
            forall|m: int| 0 <= m < li ==> #[trigger] name_fits(d.layers[m]),
        decreases doc.layers.len() - li,
    {
        if doc.layers[li].name.as_str().as_bytes().len() > 0xffff {
            proof {
                assert(!name_fits(d.layers[li as int]));
                assert(exists|l: int| 0 <= l < d.layers.len() && !#[trigger] name_fits(d.layers[l]));
                reveal(ase_file);
                assert(ase_file(d) == Err::<Seq<u8>, AseFailure>(AseFailure::Unwritable("layer name too long"@)));
            }
            return Err(CoreError::InvalidAse("layer name too long".to_owned()));
        }
        li = li + 1;
    }
    let w = doc.width as u16;
    let h = doc.height as u16;
    let n = doc.frames.len();
    let frame_count = len_u16(if n < 1 {
        1
    } else {
        n
    });
    proof {
        assert(frame_count == written_frame_count(d));
    }
    let body = match write_frames(doc, frame_count, w, h) {
        Ok(b) => b,
        Err(e) => {
            return Err(e);
        },
    };
    if body.len() > 0xffff_ff7f {
        return Err(CoreError::InvalidAse("file too large".to_owned()));
    }
    let mut out = write_header_placeholder(frame_count, w, h, doc.pixel_aspect.0, doc.pixel_aspect.1);
    push_bytes(&mut out, body.as_slice());
    patch_file_size(&mut out);
    proof {
        lemma_write_then_read(d);
    }
    Ok(out)
}

} // verus!
