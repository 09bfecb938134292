//! The bytes of an `.aseprite` file as this codec writes them, stated as
//! functions of the document.

use vstd::prelude::*;
use vstd::utf8::encode_utf8;

use super::bytes::{le16, le32, trunc16, trunc32, zero_bytes};
use super::zlib::{zlib_decoded, zlib_stream};
use crate::document::cel::Cel;
use crate::document::layer::{LayerKindView, LayerView, blend_mode_code};
use crate::document::model::{find_cel, resolvable, resolved_pixels_of};
use crate::document::pixels::{ColorMode, PixelGridView, Rgba};
use crate::document::sprite::DocView;
use crate::document::validate::validation_error;

verus! {

/// The magic number of an `.aseprite` header.
pub const ASE_MAGIC: u16 = 0xA5E0;

/// The magic number of a frame header.
pub const FRAME_MAGIC: u16 = 0xF1FA;

/// The chunk type of a layer.
pub const CHUNK_LAYER: u16 = 0x2004;

/// The chunk type of a cel.
pub const CHUNK_CEL: u16 = 0x2005;

/// The chunk type of a palette.
pub const CHUNK_PALETTE: u16 = 0x2019;

/// The 128-byte file header: frame count, canvas size, 8 bits a pixel,
/// flags 1, speed 100 and the pixel ratio; the file size is left 0.
pub open spec fn header_bytes(frames: u16, width: u16, height: u16, pixel_w: u8, pixel_h: u8) -> Seq<u8> {
    zero_bytes(4) + le16(ASE_MAGIC) + le16(frames) + le16(width) + le16(height) + le16(8) + le32(1) + le16(100)
        + zero_bytes(14) + seq![pixel_w, pixel_h] + zero_bytes(92)
}

/// The file with its first four bytes replaced by its length as a `u32`.
pub open spec fn with_file_size(b: Seq<u8>) -> Seq<u8> {
    le32(trunc32(b.len() as int)) + b.skip(4)
}

/// A chunk: its size (6 + data) as a `u32`, its type, its data.
pub open spec fn chunk_bytes(chunk_type: u16, data: Seq<u8>) -> Seq<u8> {
    le32(trunc32(data.len() + 6int)) + le16(chunk_type) + data
}

/// A string: its UTF-8 length as a `u16`, then its UTF-8 bytes.
pub open spec fn string_bytes(s: Seq<char>) -> Seq<u8> {
    le16(trunc16(encode_utf8(s).len() as int)) + encode_utf8(s)
}

/// Layer flags: 1 when visible, 2 when editable, 8 when background, 32 for
/// a collapsed group.
pub open spec fn layer_flags(l: LayerView) -> u16 {
    ((if l.visible { 1int } else { 0int }) + (if l.is_editable { 2int } else { 0int }) + (if l.is_background {
        8int
    } else {
        0int
    }) + (if l.kind matches LayerKindView::Group { collapsed: true } {
        32int
    } else {
        0int
    })) as u16
}

/// Layer type: normal 0, group 1, tilemap 2, reference 3.
pub open spec fn layer_type_code(k: LayerKindView) -> u16 {
    match k {
        LayerKindView::Normal => 0,
        LayerKindView::Group { .. } => 1,
        LayerKindView::Tilemap { .. } => 2,
        LayerKindView::Reference { .. } => 3,
    }
}

/// What follows the name in a layer chunk: a tilemap layer's tileset index
/// as a `u32`; nothing for other layers.
pub open spec fn layer_tail(k: LayerKindView) -> Seq<u8> {
    match k {
        LayerKindView::Tilemap { tileset_id, .. } => le32(tileset_id as u32),
        _ => Seq::empty(),
    }
}

/// The data of a layer chunk.
pub open spec fn layer_data(l: LayerView) -> Seq<u8> {
    le16(layer_flags(l)) + le16(layer_type_code(l.kind)) + le16(0) + le16(0) + le16(0) + le16(
        blend_mode_code(l.blend_mode),
    ) + seq![l.opacity] + zero_bytes(3) + string_bytes(l.name) + layer_tail(l.kind)
}

/// The layer chunk of a layer.
pub open spec fn layer_chunk(l: LayerView) -> Seq<u8> {
    chunk_bytes(CHUNK_LAYER, layer_data(l))
}

/// The number of palette entries written: the palette's length, at least 2 and at most 256.
pub open spec fn active_colors(len: nat) -> nat {
    if len < 2 {
        2
    } else if len > 256 {
        256
    } else {
        len
    }
}

/// The colour at `i`, transparent black past the end of the palette.
pub open spec fn color_at(colors: Seq<Rgba>, i: int) -> Rgba {
    if 0 <= i < colors.len() {
        colors[i]
    } else {
        Rgba { r: 0, g: 0, b: 0, a: 0 }
    }
}

/// One palette entry: flags 0, then red, green, blue, alpha.
pub open spec fn palette_entry(c: Rgba) -> Seq<u8> {
    le16(0) + seq![c.r, c.g, c.b, c.a]
}

/// The entries of the first `n` colours.
pub open spec fn palette_entries(colors: Seq<Rgba>, n: nat) -> Seq<u8>
    decreases n,
{
    if n == 0 {
        Seq::empty()
    } else {
        palette_entries(colors, (n - 1) as nat) + palette_entry(color_at(colors, n - 1))
    }
}

/// The data of the palette chunk.
pub open spec fn palette_data(colors: Seq<Rgba>) -> Seq<u8> {
    let active = active_colors(colors.len());
    le32(active as u32) + le32(0) + le32((active - 1) as u32) + zero_bytes(8) + palette_entries(colors, active)
}

/// The palette chunk.
pub open spec fn palette_chunk(colors: Seq<Rgba>) -> Seq<u8> {
    chunk_bytes(CHUNK_PALETTE, palette_data(colors))
}

/// The data of a compressed-image cel chunk around the compressed pixels.
pub open spec fn cel_data(layer_index: u16, cel: Cel, width: u16, height: u16, compressed: Seq<u8>) -> Seq<u8> {
    le16(layer_index) + le16((cel.x as i16) as u16) + le16((cel.y as i16) as u16) + seq![cel.opacity] + le16(2)
        + le16(cel.z_index as u16) + zero_bytes(5) + le16(width) + le16(height) + compressed
}

/// Why writing a frame stops.
#[derive(Debug)]
pub enum WriteFailure {
    /// A cel's pixels cannot be found.
    MissingPixels,
    /// A cel's image, its size taken as `u16`, differs from the canvas, or
    /// its pixels do not fill it.
    SizeMismatch,
    /// A cel's image is not indexed.
    NotIndexed,
}

/// The cel chunk of a cel showing `px`.
pub open spec fn cel_chunk(layer_index: u16, cel: Cel, width: u16, height: u16, px: PixelGridView) -> Result<
    Seq<u8>,
    WriteFailure,
> {
    match px {
        PixelGridView::Indexed { width: w, height: h, indices } => if (w as u16) != width || (h as u16) != height
            || indices.len() != width * height {
            Err(WriteFailure::SizeMismatch)
        } else {
            Ok(chunk_bytes(CHUNK_CEL, cel_data(layer_index, cel, w as u16, h as u16, zlib_stream(indices))))
        },
        _ => Err(WriteFailure::NotIndexed),
    }
}

/// The chunks that layer `l` adds to frame `frame` after `acc` (the chunks so
/// far and their number): its layer chunk and, when it has a cel in this
/// frame, that cel's chunk.
pub open spec fn layer_step(d: DocView, frame: usize, width: u16, height: u16, l: int, acc: (Seq<u8>, nat)) -> Result<
    (Seq<u8>, nat),
    WriteFailure,
> {
    let b2 = acc.0 + layer_chunk(d.layers[l]);
    match find_cel(d.cels, l as usize, frame) {
        None => Ok((b2, acc.1 + 1)),
        Some(i) => match resolved_pixels_of(d, d.cels[i]) {
            None => Err(WriteFailure::MissingPixels),
            Some(px) => match cel_chunk((l as usize) as u16, d.cels[i], width, height, px) {
                Err(e) => Err(e),
                Ok(c) => Ok((b2 + c, acc.1 + 2)),
            },
        },
    }
}

/// The chunks of frame `frame` for layers `0..n` and how many there are:
/// the palette, then what each layer adds.
pub open spec fn frame_chunks(d: DocView, frame: usize, width: u16, height: u16, n: nat) -> Result<
    (Seq<u8>, nat),
    WriteFailure,
>
    decreases n,
{
    if n == 0 {
        Ok((palette_chunk(d.palette), 1))
    } else {
        match frame_chunks(d, frame, width, height, (n - 1) as nat) {
            Err(e) => Err(e),
            Ok(acc) => layer_step(d, frame, width, height, n - 1, acc),
        }
    }
}

/// The duration of a frame, 100 ms past the last frame.
pub open spec fn frame_duration(d: DocView, frame: int) -> u32 {
    if 0 <= frame < d.frames.len() {
        d.frames[frame].duration_ms
    } else {
        100
    }
}

/// A frame: its size, magic, 0xFFFF, duration, two zero bytes and the number
/// of chunks as a `u32`, then the chunks.
pub open spec fn frame_bytes(d: DocView, frame: usize, width: u16, height: u16) -> Result<Seq<u8>, WriteFailure> {
    match frame_chunks(d, frame, width, height, d.layers.len()) {
        Err(e) => Err(e),
        Ok((body, k)) => Ok(
            le32(trunc32(body.len() + 16int)) + le16(FRAME_MAGIC) + le16(0xFFFF) + le16(
                trunc16(frame_duration(d, frame as int) as int),
            ) + zero_bytes(2) + le32(trunc32(k as int)) + body,
        ),
    }
}

/// Frames `0..n`, one after the other.
pub open spec fn frames_bytes(d: DocView, width: u16, height: u16, n: nat) -> Result<Seq<u8>, WriteFailure>
    decreases n,
{
    if n == 0 {
        Ok(Seq::empty())
    } else {
        match frames_bytes(d, width, height, (n - 1) as nat) {
            Err(e) => Err(e),
            Ok(b) => match frame_bytes(d, (n - 1) as usize, width, height) {
                Err(e) => Err(e),
                Ok(f) => Ok(b + f),
            },
        }
    }
}

/// The number of frames written: the document's, at least one, as a `u16`.
pub open spec fn written_frame_count(d: DocView) -> u16 {
    trunc16(if d.frames.len() == 0 { 1 } else { d.frames.len() as int })
}

/// Why writing a file fails.
pub enum AseFailure {
    /// The document breaks a rule; the message of `validate`.
    Invalid(Seq<char>),
    /// The document cannot be written in this format; the message.
    Unwritable(Seq<char>),
}

/// The layer's UTF-8 name fits the 16-bit length of the format.
pub open spec fn name_fits(l: LayerView) -> bool {
    encode_utf8(l.name).len() <= 0xffff
}

/// The document fits the counts of the format: at most 65535 frames, at most
/// 65536 layers (a cel's layer index is 16 bits), and layer names of at most
/// 65535 UTF-8 bytes.
pub open spec fn counts_fit(d: DocView) -> bool {
    &&& d.frames.len() <= 0xffff
    &&& d.layers.len() <= 0x10000
    &&& forall|l: int| 0 <= l < d.layers.len() ==> #[trigger] name_fits(d.layers[l])
}

/// The `.aseprite` file of a document, or why it cannot be written.
#[verifier::opaque]
pub open spec fn ase_file(d: DocView) -> Result<Seq<u8>, AseFailure> {
    match validation_error(d) {
        Some(m) => Err(AseFailure::Invalid(m)),
        None => if d.color_mode != ColorMode::Indexed {
            Err(AseFailure::Unwritable("only indexed write supported in Phase 0 bootstrap"@))
        } else if d.width == 0 || d.height == 0 || d.width > 0xffff || d.height > 0xffff {
            Err(AseFailure::Unwritable("invalid sprite dimensions"@))
        } else if d.frames.len() > 0xffff {
            Err(AseFailure::Unwritable("too many frames"@))
        } else if d.layers.len() > 0x10000 {
            Err(AseFailure::Unwritable("too many layers"@))
        } else if exists|l: int| 0 <= l < d.layers.len() && !#[trigger] name_fits(d.layers[l]) {
            Err(AseFailure::Unwritable("layer name too long"@))
        } else {
            let w = d.width as u16;
            let h = d.height as u16;
            let fc = written_frame_count(d);
            match frames_bytes(d, w, h, fc as nat) {
                Err(WriteFailure::MissingPixels) => Err(AseFailure::Unwritable("cel missing pixel data"@)),
                Err(WriteFailure::SizeMismatch) => Err(AseFailure::Unwritable("cel size mismatch with sprite"@)),
                Err(WriteFailure::NotIndexed) => Err(
                    AseFailure::Unwritable("indexed write requires indexed cel pixels"@),
                ),
                Ok(body) => if body.len() + 128 > u32::MAX {
                    Err(AseFailure::Unwritable("file too large"@))
                } else {
                    Ok(with_file_size(header_bytes(fc, w, h, d.pixel_aspect.0, d.pixel_aspect.1) + body))
                },
            }
        },
    }
}

/// The cel of layer `l` in frame `frame`, if there is one, has a finite link chain.
pub open spec fn found_resolvable(d: DocView, frame: usize, l: int) -> bool {
    match find_cel(d.cels, l as usize, frame) {
        Some(i) => resolvable(d.cels, d.cels[i]),
        None => true,
    }
}

/// The cel of layer `l` in frame `frame`, if there is one, encodes: its link chain is finite and its pixels are found,
/// indexed and, their size taken as `u16`, of the canvas size.
pub open spec fn cel_encodable(d: DocView, frame: usize, width: u16, height: u16, l: int) -> bool {
    match find_cel(d.cels, l as usize, frame) {
        None => true,
        Some(i) => resolvable(d.cels, d.cels[i]) && match resolved_pixels_of(d, d.cels[i]) {
            Some(PixelGridView::Indexed { width: w, height: h, indices }) => (w as u16) == width && (h as u16) == height
                && indices.len() == width * height,
            _ => false,
        },
    }
}

/// The cels of layers `0..l` in frame `frame` encode.
pub open spec fn layers_encodable(d: DocView, frame: usize, width: u16, height: u16, l: int) -> bool {
    forall|m: int| 0 <= m < l ==> #[trigger] cel_encodable(d, frame, width, height, m)
}

/// The cels of every layer in frames `0..frame` encode.
pub open spec fn frames_encodable(d: DocView, width: u16, height: u16, frame: usize) -> bool {
    forall|k: usize| k < frame ==> #[trigger] layers_encodable(d, k, width, height, d.layers.len() as int)
}

/// Every cel the writer reaches in frames `0..n` has a finite link chain: the
/// writer reaches the cel of layer `l` in frame `frame` when every cel before
/// it (earlier frames, then earlier layers) encodes.
pub open spec fn reached_cels_resolvable(d: DocView, width: u16, height: u16, n: nat) -> bool {
    forall|frame: usize, l: int|
        frame < n && 0 <= l < d.layers.len() && frames_encodable(d, width, height, frame) && layers_encodable(
            d,
            frame,
            width,
            height,
            l,
        ) ==> #[trigger] found_resolvable(d, frame, l)
}

/// Every cel that `write_ase` reaches has a finite link chain. The writer
/// reaches cels only in a valid indexed document.
pub open spec fn ase_cels_resolvable(d: DocView) -> bool {
    validation_error(d) is None && d.color_mode == ColorMode::Indexed ==> reached_cels_resolvable(
        d,
        d.width as u16,
        d.height as u16,
        written_frame_count(d) as nat,
    )
}

/// The indexed pixels of the cel of layer `l` in frame `frame`, if it has
/// them, come back out of the zlib stream they are compressed to.
pub open spec fn cel_decodes_back(d: DocView, frame: usize, l: int) -> bool {
    match find_cel(d.cels, l as usize, frame) {
        Some(i) => match resolved_pixels_of(d, d.cels[i]) {
            Some(PixelGridView::Indexed { indices, .. }) => zlib_decoded(zlib_stream(indices)) == Some(indices),
            _ => true,
        },
        None => true,
    }
}

/// The pixels of every cel of frames `0..n` come back out of their zlib streams.
pub open spec fn frames_decode_back(d: DocView, n: nat) -> bool {
    forall|f: usize, l: int| f < n && 0 <= l < d.layers.len() ==> #[trigger] cel_decodes_back(d, f, l)
}

} // verus!
