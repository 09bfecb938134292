//! What reading gives back of a written file.

use vstd::prelude::*;

use super::bytes::{le16, le32, lemma_read_le16, read_le16, trunc16, trunc32, zero_bytes};
use super::format::{
    ASE_MAGIC, CHUNK_CEL, CHUNK_LAYER, CHUNK_PALETTE, FRAME_MAGIC, active_colors, ase_cels_resolvable, ase_file,
    cel_chunk, cel_data, cel_decodes_back, counts_fit, name_fits, cel_encodable, chunk_bytes, color_at, found_resolvable, frame_bytes,
    frame_chunks, frame_duration, frames_bytes, frames_decode_back, frames_encodable, header_bytes, layer_chunk,
    layer_data, layer_flags, layer_tail, layer_type_code, layers_encodable, palette_data, palette_entries,
    palette_entry, reached_cels_resolvable, string_bytes, with_file_size, written_frame_count,
};
use super::read::{
    ReadFailure, apply_chunk, ase_read, blend_mode_of, cel_of, empty_tilemap, entry_color, frame_chunk_count,
    layer_name_bytes, layer_of, palette_entries_at, palette_of, pixel_ratio, read_chunks, read_frames, read_le32,
    start_doc, with_a_frame,
};
use super::zlib::{zlib_decoded, zlib_stream};
use crate::document::cel::{Cel, CelLink};
use crate::document::layer::{BlendMode, LayerKindView, LayerView, ReferenceSourceView, blend_mode_code};
use crate::document::model::{cel_is_at, find_cel, lemma_find_cel, lemma_resolved_image_id, resolved_pixels_of};
use crate::document::pixels::{ColorMode, PixelGridView, Rgba};
use crate::document::sprite::{DocView, Frame};
use crate::document::validate::validation_error;

verus! {

/// The `u32` written little-endian reads back.
pub proof fn lemma_read_le32(v: u32, prefix: Seq<u8>, rest: Seq<u8>)
    ensures
        read_le32(prefix + le32(v) + rest, prefix.len() as int) == v,
{
    let b = prefix + le32(v) + rest;
    let p = prefix.len() as int;
    assert(b[p] == (v % 256) as u8);
    assert(b[p + 1] == ((v / 256) % 256) as u8);
    assert(b[p + 2] == ((v / 0x1_0000) % 256) as u8);
    assert(b[p + 3] == (v / 0x100_0000) as u8);
    assert((v % 256) + 256 * ((v / 256) % 256) + 0x1_0000 * ((v / 0x1_0000) % 256) + 0x100_0000 * (v / 0x100_0000)
        == v) by (nonlinear_arith);
}

/// `b` is exactly `n` chunks, each at least 6 bytes long.
pub open spec fn chunk_run(b: Seq<u8>, n: nat) -> bool
    decreases n,
{
    if n == 0 {
        b.len() == 0
    } else {
        &&& b.len() >= 6
        &&& 6 <= read_le32(b, 0) <= b.len()
        &&& chunk_run(b.subrange(read_le32(b, 0) as int, b.len() as int), (n - 1) as nat)
    }
}

/// Reading chunks that run on past a whole run of `k` chunks: the run, then the rest.
pub proof fn lemma_read_chunks_append(d: DocView, frame: nat, a: Seq<u8>, b: Seq<u8>, k: nat, m: nat)
    requires
        chunk_run(a, k),
    ensures
        read_chunks(d, frame, a + b, k + m) == match read_chunks(d, frame, a, k) {
            Ok(d2) => read_chunks(d2, frame, b, m),
            Err(e) => Err(e),
        },
        chunk_run(b, m) ==> chunk_run(a + b, k + m),
    decreases k,
{
    if k == 0 {
        assert(a + b =~= b);
    } else {
        let ab = a + b;
        let size = read_le32(a, 0) as int;
        assert(read_le32(ab, 0) == read_le32(a, 0));
        assert(read_le16(ab, 4) == read_le16(a, 4));
        assert(ab.subrange(6, size) =~= a.subrange(6, size));
        assert(ab.subrange(size, ab.len() as int) =~= a.subrange(size, a.len() as int) + b);
        match apply_chunk(d, frame, read_le16(a, 4), a.subrange(6, size)) {
            Err(e) => {},
            Ok(d2) => {
                lemma_read_chunks_append(d2, frame, a.subrange(size, a.len() as int), b, (k - 1) as nat, m);
            },
        }
        if chunk_run(b, m) {
            lemma_read_chunks_append(d, frame, a.subrange(size, a.len() as int), b, (k - 1) as nat, m);
        }
    }
}

/// A written chunk is a run of one chunk, and reading it applies it.
pub proof fn lemma_read_one_chunk(d: DocView, frame: nat, kind: u16, data: Seq<u8>)
    requires
        data.len() + 6 <= u32::MAX,
    ensures
        chunk_run(chunk_bytes(kind, data), 1),
        read_chunks(d, frame, chunk_bytes(kind, data), 1) == apply_chunk(d, frame, kind, data),
{
    let c = chunk_bytes(kind, data);
    let size: int = data.len() + 6int;
    assert(trunc32(size) == size);
    lemma_read_le32(trunc32(size), Seq::empty(), le16(kind) + data);
    assert(c =~= Seq::<u8>::empty() + le32(trunc32(size)) + (le16(kind) + data));
    lemma_read_le16(kind, le32(trunc32(size)), data);
    assert(c =~= le32(trunc32(size)) + le16(kind) + data);
    assert(c.subrange(6, size) =~= data);
    assert(c.subrange(size, c.len() as int) =~= Seq::<u8>::empty());
    assert(chunk_run(c.subrange(size, c.len() as int), 0));
    reveal_with_fuel(read_chunks, 2);
}

/// `b` is exactly `n` frames, each at least 16 bytes long.
pub open spec fn frame_run(b: Seq<u8>, n: nat) -> bool
    decreases n,
{
    if n == 0 {
        b.len() == 0
    } else {
        &&& b.len() >= 16
        &&& 16 <= read_le32(b, 0) <= b.len()
        &&& frame_run(b.subrange(read_le32(b, 0) as int, b.len() as int), (n - 1) as nat)
    }
}

/// Reading frames that run on past a whole run of `k` frames: the run, then the rest.
pub proof fn lemma_read_frames_append(d: DocView, frame: nat, a: Seq<u8>, b: Seq<u8>, k: nat, m: nat)
    requires
        frame_run(a, k),
    ensures
        read_frames(d, a + b, frame, k + m) == match read_frames(d, a, frame, k) {
            Ok(d2) => read_frames(d2, b, frame + k, m),
            Err(e) => Err(e),
        },
        frame_run(b, m) ==> frame_run(a + b, k + m),
    decreases k,
{
    if k == 0 {
        assert(a + b =~= b);
    } else {
        let ab = a + b;
        let size = read_le32(a, 0) as int;
        assert(read_le32(ab, 0) == read_le32(a, 0));
        assert(read_le16(ab, 4) == read_le16(a, 4));
        assert(read_le16(ab, 6) == read_le16(a, 6));
        assert(read_le16(ab, 8) == read_le16(a, 8));
        assert(read_le32(ab, 12) == read_le32(a, 12));
        assert(frame_chunk_count(ab) == frame_chunk_count(a));
        assert(ab.subrange(16, size) =~= a.subrange(16, size));
        assert(ab.subrange(size, ab.len() as int) =~= a.subrange(size, a.len() as int) + b);
        let d1 = DocView { frames: d.frames.push(Frame { duration_ms: read_le16(a, 8) as u32 }), ..d };
        match read_chunks(d1, frame, a.subrange(16, size), frame_chunk_count(a) as nat) {
            Err(e) => {},
            Ok(d2) => {
                lemma_read_frames_append(d2, frame + 1, a.subrange(size, a.len() as int), b, (k - 1) as nat, m);
            },
        }
        if frame_run(b, m) {
            lemma_read_frames_append(d, frame + 1, a.subrange(size, a.len() as int), b, (k - 1) as nat, m);
        }
    }
}

/// The bytes of a frame around its chunks: size, magic, 0xFFFF, duration,
/// two zero bytes and the number of chunks.
pub open spec fn framed(duration: u16, count: u32, body: Seq<u8>) -> Seq<u8> {
    le32(trunc32(body.len() + 16int)) + le16(FRAME_MAGIC) + le16(0xFFFF) + le16(duration) + zero_bytes(2) + le32(
        count,
    ) + body
}

/// A written frame of at least one chunk is a run of one frame, and reading
/// it adds a frame of its duration, then reads its chunks.
pub proof fn lemma_read_one_frame(d: DocView, frame: nat, duration: u16, count: u32, body: Seq<u8>)
    requires
        body.len() + 16 <= u32::MAX,
        count >= 1,
    ensures
        frame_run(framed(duration, count, body), 1),
        read_frames(d, framed(duration, count, body), frame, 1) == match read_chunks(
            DocView { frames: d.frames.push(Frame { duration_ms: duration as u32 }), ..d },
            frame,
            body,
            count as nat,
        ) {
            Ok(d2) => Ok::<DocView, ReadFailure>(d2),
            Err(e) => Err(e),
        },
{
    let f = framed(duration, count, body);
    let size: int = body.len() + 16int;
    assert(trunc32(size) == size);
    let s0 = le32(trunc32(size));
    let s4 = s0 + le16(FRAME_MAGIC);
    let s6 = s4 + le16(0xFFFF);
    let s8 = s6 + le16(duration);
    let s12 = s8 + zero_bytes(2);
    assert(f =~= Seq::<u8>::empty() + s0 + (le16(FRAME_MAGIC) + le16(0xFFFF) + le16(duration) + zero_bytes(2)
        + le32(count) + body));
    lemma_read_le32(trunc32(size), Seq::empty(), le16(FRAME_MAGIC) + le16(0xFFFF) + le16(duration) + zero_bytes(2)
        + le32(count) + body);
    assert(f =~= s0 + le16(FRAME_MAGIC) + (le16(0xFFFF) + le16(duration) + zero_bytes(2) + le32(count) + body));
    lemma_read_le16(FRAME_MAGIC, s0, le16(0xFFFF) + le16(duration) + zero_bytes(2) + le32(count) + body);
    assert(f =~= s4 + le16(0xFFFF) + (le16(duration) + zero_bytes(2) + le32(count) + body));
    lemma_read_le16(0xFFFF, s4, le16(duration) + zero_bytes(2) + le32(count) + body);
    assert(f =~= s6 + le16(duration) + (zero_bytes(2) + le32(count) + body));
    lemma_read_le16(duration, s6, zero_bytes(2) + le32(count) + body);
    assert(f =~= s12 + le32(count) + body);
    lemma_read_le32(count, s12, body);
    assert(frame_chunk_count(f) == count);
    assert(f.subrange(16, size) =~= body);
    assert(f.subrange(size, f.len() as int) =~= Seq::<u8>::empty());
    assert(frame_run(f.subrange(size, f.len() as int), 0));
    reveal_with_fuel(read_frames, 2);
}

/// The entries of the first `n` colours: six bytes each, flags then colour.
proof fn lemma_palette_entries(colors: Seq<Rgba>, n: nat)
    ensures
        palette_entries(colors, n).len() == 6 * n,
        forall|i: int, j: int|
            0 <= i < n && 0 <= j < 6 ==> #[trigger] palette_entries(colors, n)[6 * i + j] == palette_entry(
                color_at(colors, i),
            )[j],
    decreases n,
{
    if n > 0 {
        lemma_palette_entries(colors, (n - 1) as nat);
        let prev = palette_entries(colors, (n - 1) as nat);
        let e = palette_entry(color_at(colors, n - 1));
        assert forall|i: int, j: int| 0 <= i < n && 0 <= j < 6 implies #[trigger] palette_entries(colors, n)[6 * i
            + j] == palette_entry(color_at(colors, i))[j] by {
            if i < n - 1 {
                assert(palette_entries(colors, n)[6 * i + j] == prev[6 * i + j]);
            } else {
                assert(palette_entries(colors, n)[6 * i + j] == e[j]);
            }
        }
    }
}

/// The colours a palette is written with: at least 2, at most 256, padded
/// with transparent black.
pub open spec fn written_palette(colors: Seq<Rgba>) -> Seq<Rgba> {
    Seq::new(active_colors(colors.len()), |i: int| color_at(colors, i))
}

/// Entries of six bytes without a name read as their colours.
proof fn lemma_plain_entries(data: Seq<u8>, pos: int, n: nat)
    requires
        0 <= pos,
        pos + 6 * n <= data.len(),
        forall|i: int| 0 <= i < n ==> #[trigger] read_le16(data, pos + 6 * i) == 0,
    ensures
        palette_entries_at(data, pos, n) == Some(Seq::new(n, |i: int| entry_color(data, pos + 6 * i))),
    decreases n,
{
    if n > 0 {
        assert(read_le16(data, pos + 6 * 0) == 0);
        assert forall|i: int| 0 <= i < n - 1 implies #[trigger] read_le16(data, (pos + 6) + 6 * i) == 0 by {
            assert(read_le16(data, pos + 6 * (i + 1)) == 0);
            assert(pos + 6 * (i + 1) == (pos + 6) + 6 * i);
        }
        lemma_plain_entries(data, pos + 6, (n - 1) as nat);
        let rest = Seq::new((n - 1) as nat, |i: int| entry_color(data, (pos + 6) + 6 * i));
        assert(seq![entry_color(data, pos)] + rest =~= Seq::new(n, |i: int| entry_color(data, pos + 6 * i)));
    }
}

/// A palette of at most 256 colours reads back from its chunk data as the
/// colours it was written with, whatever the palette before.
pub proof fn lemma_palette_read_back(old: Seq<Rgba>, colors: Seq<Rgba>)
    requires
        colors.len() <= 256,
    ensures
        palette_of(old, palette_data(colors)) == Some(written_palette(colors)),
{
    let n = active_colors(colors.len());
    let data = palette_data(colors);
    let entries = palette_entries(colors, n);
    lemma_palette_entries(colors, n);
    let head = le32(n as u32) + le32(0) + le32((n - 1) as u32) + zero_bytes(8);
    assert(data =~= head + entries);
    lemma_read_le32(n as u32, Seq::empty(), le32(0) + le32((n - 1) as u32) + zero_bytes(8) + entries);
    assert(data =~= Seq::<u8>::empty() + le32(n as u32) + (le32(0) + le32((n - 1) as u32) + zero_bytes(8) + entries));
    lemma_read_le32(0, le32(n as u32), le32((n - 1) as u32) + zero_bytes(8) + entries);
    assert(data =~= le32(n as u32) + le32(0) + (le32((n - 1) as u32) + zero_bytes(8) + entries));
    lemma_read_le32((n - 1) as u32, le32(n as u32) + le32(0), zero_bytes(8) + entries);
    assert(data =~= le32(n as u32) + le32(0) + le32((n - 1) as u32) + (zero_bytes(8) + entries));
    assert(head.len() == 20);
    assert forall|i: int| 0 <= i < n implies #[trigger] entry_color(data, 20 + 6 * i) == color_at(colors, i) by {
        assert(data[20 + 6 * i + 2] == entries[6 * i + 2]);
        assert(data[20 + 6 * i + 3] == entries[6 * i + 3]);
        assert(data[20 + 6 * i + 4] == entries[6 * i + 4]);
        assert(data[20 + 6 * i + 5] == entries[6 * i + 5]);
    }
    assert forall|i: int| 0 <= i < n implies #[trigger] read_le16(data, 20 + 6 * i) == 0 by {
        assert(data[20 + 6 * i] == entries[6 * i + 0]);
        assert(data[20 + 6 * i + 1] == entries[6 * i + 1]);
    }
    lemma_plain_entries(data, 20, n);
    assert(Seq::new(n, |i: int| entry_color(data, 20 + 6 * i)) =~= written_palette(colors));
    let p = palette_of(old, data)->Some_0;
    assert(p =~= written_palette(colors));
}

/// The blend mode of a blend mode's code is that blend mode.
pub proof fn lemma_blend_mode_round_trip(m: BlendMode)
    ensures
        blend_mode_of(blend_mode_code(m)) == Some(m),
{
}

/// What a layer kind reads back as: a tilemap layer keeps its tileset index
/// (as a `u32`) and loses its tiles, a reference layer loses its source.
pub open spec fn kind_read_back(k: LayerKindView) -> LayerKindView {
    match k {
        LayerKindView::Tilemap { tileset_id, .. } => LayerKindView::Tilemap {
            tileset_id: (tileset_id as u32) as usize,
            grid: empty_tilemap(),
        },
        LayerKindView::Reference { .. } => LayerKindView::Reference { source: ReferenceSourceView::Clipboard },
        _ => k,
    }
}

/// What a layer reads back as: its name, visibility, editability, opacity,
/// blend mode, background flag and kind as `kind_read_back` gives it;
/// top-level.
pub open spec fn layer_read_back(l: LayerView) -> LayerView {
    LayerView { parent: None, kind: kind_read_back(l.kind), ..l }
}

/// A layer whose UTF-8 name fits 65535 bytes reads back from its chunk data.
#[verifier::rlimit(60)]
#[verifier::spinoff_prover]
pub proof fn lemma_layer_read_back(l: LayerView)
    requires
        name_fits(l),
    ensures
        layer_of(layer_data(l)) == Ok::<LayerView, ReadFailure>(layer_read_back(l)),
{
    broadcast use vstd::utf8::encode_utf8_valid_utf8, vstd::utf8::encode_utf8_decode_utf8;

    let enc = vstd::utf8::encode_utf8(l.name);
    let flags = layer_flags(l);
    let code = layer_type_code(l.kind);
    let blend = blend_mode_code(l.blend_mode);
    let data = layer_data(l);
    let lt = layer_tail(l.kind);
    let tail = seq![l.opacity] + zero_bytes(3) + string_bytes(l.name) + lt;
    assert(data =~= le16(flags) + le16(code) + le16(0) + le16(0) + le16(0) + le16(blend) + tail);
    lemma_read_le16(flags, Seq::empty(), le16(code) + le16(0) + le16(0) + le16(0) + le16(blend) + tail);
    assert(data =~= Seq::<u8>::empty() + le16(flags) + (le16(code) + le16(0) + le16(0) + le16(0) + le16(blend) + tail));
    lemma_read_le16(code, le16(flags), le16(0) + le16(0) + le16(0) + le16(blend) + tail);
    assert(data =~= le16(flags) + le16(code) + (le16(0) + le16(0) + le16(0) + le16(blend) + tail));
    let p10 = le16(flags) + le16(code) + le16(0) + le16(0) + le16(0);
    lemma_read_le16(blend, p10, tail);
    assert(data =~= p10 + le16(blend) + tail);
    let p16 = p10 + le16(blend) + seq![l.opacity] + zero_bytes(3);
    assert(trunc16(enc.len() as int) == enc.len());
    lemma_read_le16(trunc16(enc.len() as int), p16, enc + lt);
    assert(data =~= p16 + le16(trunc16(enc.len() as int)) + (enc + lt));
    assert(data[12] == l.opacity);
    assert(layer_name_bytes(data) =~= enc);
    let end: int = 18int + enc.len();
    if l.kind is Tilemap {
        lemma_read_le32(l.kind->Tilemap_tileset_id as u32, p16 + le16(trunc16(enc.len() as int)) + enc, Seq::empty());
        assert(data =~= p16 + le16(trunc16(enc.len() as int)) + enc + lt + Seq::<u8>::empty());
        assert(read_le32(data, end) == l.kind->Tilemap_tileset_id as u32);
    }
    lemma_blend_mode_round_trip(l.blend_mode);
    assert(flags % 2 == 1 <==> l.visible);
    assert((flags / 2) % 2 == 1 <==> l.is_editable);
    assert((flags / 8) % 2 == 1 <==> l.is_background);
    assert((flags / 32) % 2 == 1 <==> l.kind matches LayerKindView::Group { collapsed: true });
    assert(layer_of(data)->Ok_0 =~= layer_read_back(l));
}

/// A position written as the low 16 bits of a signed number reads back as those 16 bits.
pub proof fn lemma_i16_round_trip(x: i32)
    ensures
        (((x as i16) as u16) as i16) as i32 == (x as i16) as i32,
{
    assert((((x as i16) as u16) as i16) as i32 == (x as i16) as i32) by (bit_vector);
}

/// A z-index written as 16 bits reads back.
pub proof fn lemma_z_round_trip(z: i16)
    ensures
        (z as u16) as i16 == z,
{
    assert((z as u16) as i16 == z) by (bit_vector);
}

/// The cel chunk data of an indexed cel of `w` x `h` pixels whose pixels
/// fill it and decompress back reads back, in an indexed document `r`, as a
/// cel of the same layer, opacity and z-index, its position as 16-bit
/// numbers, with a new image of its own.
#[verifier::rlimit(60)]
#[verifier::spinoff_prover]
pub proof fn lemma_cel_read_back(layer: u16, c: Cel, w: u16, h: u16, px: Seq<u8>, frame: nat, r: DocView)
    requires
        r.color_mode == ColorMode::Indexed,
        px.len() == w * h,
        zlib_decoded(zlib_stream(px)) == Some(px),
    ensures
        cel_of(cel_data(layer, c, w, h, zlib_stream(px)), r, frame) == Ok::<
            (Cel, Option<PixelGridView>),
            ReadFailure,
        >(
            (
                Cel {
                    layer: layer as usize,
                    frame: frame as usize,
                    x: (c.x as i16) as i32,
                    y: (c.y as i16) as i32,
                    opacity: c.opacity,
                    z_index: c.z_index,
                    image_id: r.images.len() as usize,
                    link: CelLink::Unlinked,
                },
                Some(PixelGridView::Indexed { width: w as u32, height: h as u32, indices: px }),
            ),
        ),
{
    let z = zlib_stream(px);
    let x16 = (c.x as i16) as u16;
    let y16 = (c.y as i16) as u16;
    let z16 = c.z_index as u16;
    let data = cel_data(layer, c, w, h, z);
    let t20 = z;
    let t18 = le16(h) + t20;
    let t16 = le16(w) + t18;
    let t9 = le16(z16) + zero_bytes(5) + t16;
    let t7 = le16(2) + t9;
    let t6 = seq![c.opacity] + t7;
    let t4 = le16(y16) + t6;
    let t2 = le16(x16) + t4;
    assert(data =~= Seq::<u8>::empty() + le16(layer) + t2);
    lemma_read_le16(layer, Seq::empty(), t2);
    let p2 = le16(layer);
    assert(data =~= p2 + le16(x16) + t4);
    lemma_read_le16(x16, p2, t4);
    let p4 = p2 + le16(x16);
    assert(data =~= p4 + le16(y16) + t6);
    lemma_read_le16(y16, p4, t6);
    let p7 = p4 + le16(y16) + seq![c.opacity];
    assert(data =~= p7 + le16(2) + t9);
    lemma_read_le16(2, p7, t9);
    let p9 = p7 + le16(2);
    assert(data =~= p9 + le16(z16) + (zero_bytes(5) + t16));
    lemma_read_le16(z16, p9, zero_bytes(5) + t16);
    let p16 = p9 + le16(z16) + zero_bytes(5);
    assert(data =~= p16 + le16(w) + t18);
    lemma_read_le16(w, p16, t18);
    let p18 = p16 + le16(w);
    assert(data =~= p18 + le16(h) + t20);
    lemma_read_le16(h, p18, t20);
    assert(data[6] == c.opacity);
    assert(data.skip(20) =~= z);
    lemma_i16_round_trip(c.x);
    lemma_i16_round_trip(c.y);
    lemma_z_round_trip(c.z_index);
}

/// A run of `n` chunks holds at least six bytes a chunk.
pub proof fn lemma_chunk_run_len(b: Seq<u8>, n: nat)
    requires
        chunk_run(b, n),
    ensures
        6 * n <= b.len(),
    decreases n,
{
    if n > 0 {
        lemma_chunk_run_len(b.subrange(read_le32(b, 0) as int, b.len() as int), (n - 1) as nat);
    }
}

/// What reading back the chunks of layer `l` in frame `f` does to `r`: in
/// the first frame the layer is added; the layer's cel in that frame, if it
/// has one, adds an unlinked cel with its position taken as 16-bit numbers
/// and its own copy of the pixels it shows.
pub open spec fn layer_back_step(r: DocView, d: DocView, f: nat, l: int) -> DocView {
    let r1 = if f == 0 {
        DocView { layers: r.layers.push(layer_read_back(d.layers[l])), ..r }
    } else {
        r
    };
    match find_cel(d.cels, l as usize, f as usize) {
        None => r1,
        Some(i) => {
            let c = d.cels[i];
            let indices = resolved_pixels_of(d, c)->0->Indexed_indices;
            DocView {
                images: r1.images.push(PixelGridView::Indexed { width: d.width, height: d.height, indices }),
                cels: r1.cels.push(
                    Cel {
                        layer: l as usize,
                        frame: f as usize,
                        x: (c.x as i16) as i32,
                        y: (c.y as i16) as i32,
                        opacity: c.opacity,
                        z_index: c.z_index,
                        image_id: r1.images.len() as usize,
                        link: CelLink::Unlinked,
                    },
                ),
                ..r1
            }
        },
    }
}

/// What reading back the chunks of frame `f` for layers `0..n` does to `r`:
/// the palette, then each layer's chunks.
pub open spec fn layers_back(r: DocView, d: DocView, f: nat, n: nat) -> DocView
    decreases n,
{
    if n == 0 {
        DocView { palette: written_palette(d.palette), ..r }
    } else {
        layer_back_step(layers_back(r, d, f, (n - 1) as nat), d, f, n - 1)
    }
}

/// Reading back the chunks of frame `f` gives `layers_back`.
#[verifier::rlimit(60)]
#[verifier::spinoff_prover]
pub proof fn lemma_frame_read_back(r: DocView, d: DocView, f: nat, n: nat)
    requires
        r.color_mode == ColorMode::Indexed,
        f <= usize::MAX,
        1 <= d.width <= 0xffff,
        1 <= d.height <= 0xffff,
        n <= d.layers.len() <= 0x10000,
        d.palette.len() <= 256,
        frame_chunks(d, f as usize, d.width as u16, d.height as u16, n) is Ok,
        frame_chunks(d, f as usize, d.width as u16, d.height as u16, n)->Ok_0.0.len() + 16 <= u32::MAX,
        forall|l: int| 0 <= l < n ==> #[trigger] name_fits(d.layers[l]),
        forall|l: int| 0 <= l < n ==> #[trigger] cel_decodes_back(d, f as usize, l),
    ensures
        ({
            let (body, k) = frame_chunks(d, f as usize, d.width as u16, d.height as u16, n)->Ok_0;
            &&& chunk_run(body, k)
            &&& read_chunks(r, f, body, k) == Ok::<DocView, ReadFailure>(layers_back(r, d, f, n))
        }),
        layers_back(r, d, f, n).color_mode == r.color_mode,
    decreases n,
{
    let w = d.width as u16;
    let h = d.height as u16;
    if n == 0 {
        lemma_palette_read_back(r.palette, d.palette);
        lemma_read_one_chunk(r, f, CHUNK_PALETTE, palette_data(d.palette));
    } else {
        lemma_frame_read_back(r, d, f, (n - 1) as nat);
        let (acc, k0) = frame_chunks(d, f as usize, w, h, (n - 1) as nat)->Ok_0;
        let rr = layers_back(r, d, f, (n - 1) as nat);
        let l = n - 1;
        let lv = d.layers[l];
        assert(name_fits(lv));
        lemma_layer_read_back(lv);
        let lc = layer_chunk(lv);
        lemma_read_one_chunk(rr, f, CHUNK_LAYER, layer_data(lv));
        lemma_read_chunks_append(r, f, acc, lc, k0, 1);
        let r1 = if f == 0 {
            DocView { layers: rr.layers.push(layer_read_back(lv)), ..rr }
        } else {
            rr
        };
        assert(read_chunks(r, f, acc + lc, k0 + 1) == Ok::<DocView, ReadFailure>(r1));
        match find_cel(d.cels, l as usize, f as usize) {
            None => {},
            Some(i) => {
                let c = d.cels[i];
                assert(cel_decodes_back(d, f as usize, l));
                let px = resolved_pixels_of(d, c)->0;
                let indices = px->Indexed_indices;
                let cc = cel_chunk((l as usize) as u16, c, w, h, px)->Ok_0;
                assert((px->Indexed_width as u16) == w && (px->Indexed_height as u16) == h);
                assert(indices.len() == w * h);
                lemma_cel_read_back((l as usize) as u16, c, w, h, indices, f, r1);
                lemma_read_one_chunk(r1, f, CHUNK_CEL, cel_data((l as usize) as u16, c, w, h, zlib_stream(indices)));
                lemma_read_chunks_append(r, f, acc + lc, cc, k0 + 1, 1);
            },
        }
    }
}

/// A frame's chunks number at least one: the palette.
proof fn lemma_frame_chunks_count(d: DocView, f: usize, w: u16, h: u16, n: nat)
    requires
        frame_chunks(d, f, w, h, n) is Ok,
    ensures
        frame_chunks(d, f, w, h, n)->Ok_0.1 >= 1,
    decreases n,
{
    if n > 0 {
        lemma_frame_chunks_count(d, f, w, h, (n - 1) as nat);
    }
}

/// The duration a frame is written with, as read back.
pub open spec fn duration_read_back(d: DocView, f: int) -> Frame {
    Frame { duration_ms: trunc16(frame_duration(d, f) as int) as u32 }
}

/// What reading back frames `0..n` does to `r`: each frame adds its
/// duration, then its chunks are read back.
pub open spec fn frames_back(r: DocView, d: DocView, n: nat) -> DocView
    decreases n,
{
    if n == 0 {
        r
    } else {
        let r1 = frames_back(r, d, (n - 1) as nat);
        layers_back(
            DocView { frames: r1.frames.push(duration_read_back(d, n - 1)), ..r1 },
            d,
            (n - 1) as nat,
            d.layers.len(),
        )
    }
}

/// A written frame is its chunks framed by its header.
proof fn lemma_frame_bytes_framed(d: DocView, f: usize, w: u16, h: u16)
    requires
        frame_bytes(d, f, w, h) is Ok,
    ensures
        frame_chunks(d, f, w, h, d.layers.len()) is Ok,
        frame_bytes(d, f, w, h)->Ok_0 == framed(
            trunc16(frame_duration(d, f as int) as int),
            trunc32(frame_chunks(d, f, w, h, d.layers.len())->Ok_0.1 as int),
            frame_chunks(d, f, w, h, d.layers.len())->Ok_0.0,
        ),
{
}

/// Written frames `0..n` are frames `0..n - 1`, then frame `n - 1`.
proof fn lemma_frames_bytes_step(d: DocView, w: u16, h: u16, n: nat)
    requires
        n > 0,
        frames_bytes(d, w, h, n) is Ok,
    ensures
        frames_bytes(d, w, h, (n - 1) as nat) is Ok,
        frame_bytes(d, (n - 1) as usize, w, h) is Ok,
        frames_bytes(d, w, h, n)->Ok_0 == frames_bytes(d, w, h, (n - 1) as nat)->Ok_0 + frame_bytes(
            d,
            (n - 1) as usize,
            w,
            h,
        )->Ok_0,
{
}

/// What a successful write tells about the document and the file.
proof fn lemma_ase_file_ok(d: DocView)
    requires
        ase_file(d) is Ok,
    ensures
        d.color_mode == ColorMode::Indexed,
        d.frames.len() >= 1,
        d.palette.len() <= 256,
        counts_fit(d),
        ase_file(d)->Ok_0.len() <= u32::MAX,
        1 <= d.width <= 0xffff,
        1 <= d.height <= 0xffff,
        frames_bytes(d, d.width as u16, d.height as u16, written_frame_count(d) as nat) is Ok,
        ase_file(d)->Ok_0 == with_file_size(
            header_bytes(written_frame_count(d), d.width as u16, d.height as u16, d.pixel_aspect.0, d.pixel_aspect.1)
                + frames_bytes(d, d.width as u16, d.height as u16, written_frame_count(d) as nat)->Ok_0,
        ),
{
    reveal(ase_file);
    let fc = written_frame_count(d);
    let body = frames_bytes(d, d.width as u16, d.height as u16, fc as nat)->Ok_0;
    lemma_header_fields(fc, d.width as u16, d.height as u16, d.pixel_aspect.0, d.pixel_aspect.1, body);
}

/// Reading back frame `f` after the frames before it: the frame adds its
/// duration, then its chunks are read back.
#[verifier::rlimit(100)]
#[verifier::spinoff_prover]
proof fn lemma_frame_step_read_back(rr: DocView, d: DocView, f: nat)
    requires
        rr.color_mode == ColorMode::Indexed,
        f < 0x1_0000,
        1 <= d.width <= 0xffff,
        1 <= d.height <= 0xffff,
        d.layers.len() <= 0x10000,
        d.palette.len() <= 256,
        frame_bytes(d, f as usize, d.width as u16, d.height as u16) is Ok,
        frame_bytes(d, f as usize, d.width as u16, d.height as u16)->Ok_0.len() <= u32::MAX,
        forall|l: int| 0 <= l < d.layers.len() ==> #[trigger] name_fits(d.layers[l]),
        forall|l: int| 0 <= l < d.layers.len() ==> #[trigger] cel_decodes_back(d, f as usize, l),
    ensures
        frame_run(frame_bytes(d, f as usize, d.width as u16, d.height as u16)->Ok_0, 1),
        read_frames(rr, frame_bytes(d, f as usize, d.width as u16, d.height as u16)->Ok_0, f, 1) == Ok::<
            DocView,
            ReadFailure,
        >(layers_back(DocView { frames: rr.frames.push(duration_read_back(d, f as int)), ..rr }, d, f, d.layers.len())),
        layers_back(DocView { frames: rr.frames.push(duration_read_back(d, f as int)), ..rr }, d, f, d.layers.len()).color_mode
            == ColorMode::Indexed,
{
    let w = d.width as u16;
    let h = d.height as u16;
    let fb = frame_bytes(d, f as usize, w, h)->Ok_0;
    lemma_frame_bytes_framed(d, f as usize, w, h);
    let (body, k) = frame_chunks(d, f as usize, w, h, d.layers.len())->Ok_0;
    let dur = trunc16(frame_duration(d, f as int) as int);
    let r1 = DocView { frames: rr.frames.push(duration_read_back(d, f as int)), ..rr };
    lemma_frame_read_back(r1, d, f, d.layers.len());
    lemma_chunk_run_len(body, k);
    lemma_frame_chunks_count(d, f as usize, w, h, d.layers.len());
    assert(trunc32(k as int) == k);
    lemma_read_one_frame(rr, f, dur, trunc32(k as int), body);
}

/// Reading back the frames `0..n` gives `frames_back`.
#[verifier::rlimit(100)]
#[verifier::spinoff_prover]
pub proof fn lemma_frames_read_back(r: DocView, d: DocView, n: nat)
    requires
        r.color_mode == ColorMode::Indexed,
        n <= 0x1_0000,
        1 <= d.width <= 0xffff,
        1 <= d.height <= 0xffff,
        d.layers.len() <= 0x10000,
        d.palette.len() <= 256,
        frames_bytes(d, d.width as u16, d.height as u16, n) is Ok,
        frames_bytes(d, d.width as u16, d.height as u16, n)->Ok_0.len() <= u32::MAX,
        forall|l: int| 0 <= l < d.layers.len() ==> #[trigger] name_fits(d.layers[l]),
        frames_decode_back(d, n),
    ensures
        frame_run(frames_bytes(d, d.width as u16, d.height as u16, n)->Ok_0, n),
        read_frames(r, frames_bytes(d, d.width as u16, d.height as u16, n)->Ok_0, 0, n) == Ok::<
            DocView,
            ReadFailure,
        >(frames_back(r, d, n)),
        frames_back(r, d, n).color_mode == r.color_mode,
    decreases n,
{
    let w = d.width as u16;
    let h = d.height as u16;
    if n == 0 {
        assert(frames_bytes(d, w, h, 0)->Ok_0 =~= Seq::<u8>::empty());
    } else {
        let f = n - 1;
        lemma_frames_read_back(r, d, (n - 1) as nat);
        lemma_frames_bytes_step(d, w, h, n);
        let prev = frames_bytes(d, w, h, (n - 1) as nat)->Ok_0;
        let fb = frame_bytes(d, f as usize, w, h)->Ok_0;
        let rr = frames_back(r, d, (n - 1) as nat);
        assert forall|l: int| 0 <= l < d.layers.len() implies #[trigger] cel_decodes_back(d, f as usize, l) by {
            assert(cel_decodes_back(d, f as usize, l));
        }
        lemma_frame_step_read_back(rr, d, f as nat);
        lemma_read_frames_append(r, 0, prev, fb, (n - 1) as nat, 1);
    }
}

/// Reading back the chunks of a frame keeps the canvas, the pixel ratio and
/// the frames, sets the palette, and in the first frame adds the layers.
pub proof fn lemma_layers_back_shape(r: DocView, d: DocView, f: nat, n: nat)
    requires
        n <= d.layers.len(),
    ensures
        ({
            let b = layers_back(r, d, f, n);
            &&& b.width == r.width
            &&& b.height == r.height
            &&& b.color_mode == r.color_mode
            &&& b.pixel_aspect == r.pixel_aspect
            &&& b.frames == r.frames
            &&& b.palette == written_palette(d.palette)
            &&& f == 0 ==> b.layers == r.layers + Seq::new(n, |l: int| layer_read_back(d.layers[l]))
            &&& f != 0 ==> b.layers == r.layers
        }),
    decreases n,
{
    if n == 0 {
        assert(r.layers + Seq::new(0, |l: int| layer_read_back(d.layers[l])) =~= r.layers);
    } else {
        lemma_layers_back_shape(r, d, f, (n - 1) as nat);
        if f == 0 {
            assert(r.layers + Seq::new(n, |l: int| layer_read_back(d.layers[l])) =~= (r.layers + Seq::new(
                (n - 1) as nat,
                |l: int| layer_read_back(d.layers[l]),
            )).push(layer_read_back(d.layers[n - 1])));
        }
    }
}

/// Reading back frames `0..n` keeps the canvas and the pixel ratio, adds
/// each frame's duration, sets the palette and adds the layers once.
pub proof fn lemma_frames_back_shape(r: DocView, d: DocView, n: nat)
    ensures
        ({
            let b = frames_back(r, d, n);
            &&& b.width == r.width
            &&& b.height == r.height
            &&& b.color_mode == r.color_mode
            &&& b.pixel_aspect == r.pixel_aspect
            &&& b.frames == r.frames + Seq::new(n, |f: int| duration_read_back(d, f))
            &&& n > 0 ==> b.palette == written_palette(d.palette)
            &&& n > 0 ==> b.layers == r.layers + Seq::new(d.layers.len(), |l: int| layer_read_back(d.layers[l]))
        }),
    decreases n,
{
    if n == 0 {
        assert(r.frames + Seq::new(0, |f: int| duration_read_back(d, f)) =~= r.frames);
    } else {
        lemma_frames_back_shape(r, d, (n - 1) as nat);
        let rr = frames_back(r, d, (n - 1) as nat);
        let r1 = DocView { frames: rr.frames.push(duration_read_back(d, n - 1)), ..rr };
        lemma_layers_back_shape(r1, d, (n - 1) as nat, d.layers.len());
        assert(r.frames + Seq::new(n, |f: int| duration_read_back(d, f)) =~= (r.frames + Seq::new(
            (n - 1) as nat,
            |f: int| duration_read_back(d, f),
        )).push(duration_read_back(d, n - 1)));
        if n > 1 {
            assert(rr.layers == r.layers + Seq::new(d.layers.len(), |l: int| layer_read_back(d.layers[l])));
        }
    }
}

/// The bytes of a written file from offset 4 on are those of the header and frames.
proof fn lemma_header_fields(frames: u16, width: u16, height: u16, pw: u8, ph: u8, body: Seq<u8>)
    ensures
        ({
            let b = with_file_size(header_bytes(frames, width, height, pw, ph) + body);
            &&& b.len() >= 128
            &&& read_le16(b, 4) == ASE_MAGIC
            &&& read_le16(b, 6) == frames
            &&& read_le16(b, 8) == width
            &&& read_le16(b, 10) == height
            &&& read_le16(b, 12) == 8
            &&& b[34] == pw
            &&& b[35] == ph
            &&& b.subrange(128, b.len() as int) == body
        }),
{
    let h = header_bytes(frames, width, height, pw, ph);
    let f = h + body;
    let b = with_file_size(f);
    let rest = le32(1) + le16(100) + zero_bytes(14) + seq![pw, ph] + zero_bytes(92) + body;
    assert(f =~= zero_bytes(4) + le16(ASE_MAGIC) + le16(frames) + le16(width) + le16(height) + le16(8) + rest);
    assert(b =~= le32(trunc32(f.len() as int)) + le16(ASE_MAGIC) + le16(frames) + le16(width) + le16(height)
        + le16(8) + rest);
    let p4 = le32(trunc32(f.len() as int));
    lemma_read_le16(ASE_MAGIC, p4, le16(frames) + le16(width) + le16(height) + le16(8) + rest);
    assert(b =~= p4 + le16(ASE_MAGIC) + (le16(frames) + le16(width) + le16(height) + le16(8) + rest));
    let p6 = p4 + le16(ASE_MAGIC);
    lemma_read_le16(frames, p6, le16(width) + le16(height) + le16(8) + rest);
    assert(b =~= p6 + le16(frames) + (le16(width) + le16(height) + le16(8) + rest));
    let p8 = p6 + le16(frames);
    lemma_read_le16(width, p8, le16(height) + le16(8) + rest);
    assert(b =~= p8 + le16(width) + (le16(height) + le16(8) + rest));
    let p10 = p8 + le16(width);
    lemma_read_le16(height, p10, le16(8) + rest);
    assert(b =~= p10 + le16(height) + (le16(8) + rest));
    let p12 = p10 + le16(height);
    lemma_read_le16(8, p12, rest);
    assert(b =~= p12 + le16(8) + rest);
    assert(b[34] == pw);
    assert(b[35] == ph);
    assert(b.subrange(128, b.len() as int) =~= body);
}

/// The document that reading a written file gives back: the canvas, the
/// pixel ratio (1:1 when either part is 0), and each written frame with its
/// duration and the chunks of its palette, layers and cels read back.
pub open spec fn read_back(d: DocView) -> DocView {
    with_a_frame(
        frames_back(
            start_doc(d.width, d.height, ColorMode::Indexed, pixel_ratio(d.pixel_aspect.0, d.pixel_aspect.1)),
            d,
            written_frame_count(d) as nat,
        ),
    )
}

/// What `read_back` keeps of a document written with 1 to 65535 frames.
pub proof fn lemma_read_back_fields(d: DocView)
    requires
        1 <= d.frames.len() <= 0xffff,
    ensures
        read_back(d).width == d.width,
        read_back(d).height == d.height,
        read_back(d).color_mode == ColorMode::Indexed,
        read_back(d).pixel_aspect == pixel_ratio(d.pixel_aspect.0, d.pixel_aspect.1),
        read_back(d).palette == written_palette(d.palette),
        2 <= d.palette.len() <= 256 ==> read_back(d).palette == d.palette,
        read_back(d).layers.len() == d.layers.len(),
        forall|i: int| 0 <= i < d.layers.len() ==> #[trigger] read_back(d).layers[i] == layer_read_back(d.layers[i]),
        read_back(d).frames.len() == d.frames.len(),
        (forall|f: int| 0 <= f < d.frames.len() ==> #[trigger] d.frames[f].duration_ms <= 0xffff)
            ==> read_back(d).frames == d.frames,
{
    let fc = written_frame_count(d);
    assert(fc == d.frames.len());
    let d0 = start_doc(d.width, d.height, ColorMode::Indexed, pixel_ratio(d.pixel_aspect.0, d.pixel_aspect.1));
    lemma_frames_back_shape(d0, d, fc as nat);
    assert(d0.layers + Seq::new(d.layers.len(), |l: int| layer_read_back(d.layers[l])) =~= Seq::new(
        d.layers.len(),
        |l: int| layer_read_back(d.layers[l]),
    ));
    if 2 <= d.palette.len() <= 256 {
        assert(written_palette(d.palette) =~= d.palette);
    }
    if forall|f: int| 0 <= f < d.frames.len() ==> #[trigger] d.frames[f].duration_ms <= 0xffff {
        assert(d0.frames + Seq::new(fc as nat, |f: int| duration_read_back(d, f)) =~= d.frames);
    }
}

/// The frames of a written file read as `frames_back` of its document.
#[verifier::rlimit(100)]
#[verifier::spinoff_prover]
proof fn lemma_body_read_back(d: DocView)
    requires
        ase_file(d) is Ok,
        frames_decode_back(d, written_frame_count(d) as nat),
    ensures
        read_frames(
            start_doc(d.width, d.height, ColorMode::Indexed, pixel_ratio(d.pixel_aspect.0, d.pixel_aspect.1)),
            frames_bytes(d, d.width as u16, d.height as u16, written_frame_count(d) as nat)->Ok_0,
            0,
            written_frame_count(d) as nat,
        ) == Ok::<DocView, ReadFailure>(
            frames_back(
                start_doc(d.width, d.height, ColorMode::Indexed, pixel_ratio(d.pixel_aspect.0, d.pixel_aspect.1)),
                d,
                written_frame_count(d) as nat,
            ),
        ),
{
    lemma_ase_file_ok(d);
    let w = d.width as u16;
    let h = d.height as u16;
    let fc = written_frame_count(d);
    let body = frames_bytes(d, w, h, fc as nat)->Ok_0;
    assert(body.len() <= ase_file(d)->Ok_0.len()) by {
        lemma_header_fields(fc, w, h, d.pixel_aspect.0, d.pixel_aspect.1, body);
    }
    let d0 = start_doc(d.width, d.height, ColorMode::Indexed, pixel_ratio(d.pixel_aspect.0, d.pixel_aspect.1));
    lemma_frames_read_back(d0, d, fc as nat);
}

/// A written file reads as `read_back` of its document.
#[verifier::rlimit(100)]
#[verifier::spinoff_prover]
proof fn lemma_file_read_back(d: DocView)
    requires
        ase_file(d) is Ok,
        frames_decode_back(d, written_frame_count(d) as nat),
    ensures
        ase_read(ase_file(d)->Ok_0) == Ok::<DocView, ReadFailure>(read_back(d)),
{
    lemma_body_read_back(d);
    lemma_file_from_body(d);
}

/// A written file whose frames read as `frames_back` reads as `read_back`.
#[verifier::rlimit(100)]
#[verifier::spinoff_prover]
proof fn lemma_file_from_body(d: DocView)
    requires
        ase_file(d) is Ok,
        read_frames(
            start_doc(d.width, d.height, ColorMode::Indexed, pixel_ratio(d.pixel_aspect.0, d.pixel_aspect.1)),
            frames_bytes(d, d.width as u16, d.height as u16, written_frame_count(d) as nat)->Ok_0,
            0,
            written_frame_count(d) as nat,
        ) == Ok::<DocView, ReadFailure>(
            frames_back(
                start_doc(d.width, d.height, ColorMode::Indexed, pixel_ratio(d.pixel_aspect.0, d.pixel_aspect.1)),
                d,
                written_frame_count(d) as nat,
            ),
        ),
    ensures
        ase_read(ase_file(d)->Ok_0) == Ok::<DocView, ReadFailure>(read_back(d)),
{
    lemma_ase_file_ok(d);
    let w = d.width as u16;
    let h = d.height as u16;
    let fc = written_frame_count(d);
    let body = frames_bytes(d, w, h, fc as nat)->Ok_0;
    lemma_header_fields(fc, w, h, d.pixel_aspect.0, d.pixel_aspect.1, body);
    assert(w as u32 == d.width && h as u32 == d.height);
}

/// Reading a file that `write_ase` wrote gives it back: `read_back` of the
/// document, which keeps its canvas, its pixel ratio (1:1 where either part
/// is 0), its palette (padded to 2 colours), its frames and their durations
/// (taken as 16 bits), each layer's name, visibility, editability, opacity,
/// blend mode, background flag and kind as `layer_read_back` gives it, and
/// each cel at its layer and frame with its position (as 16-bit numbers),
/// opacity, z-index and pixels. It holds wherever its cels' pixels come back
/// out of the compressed streams written for them, which `write_ase`
/// promises whenever it succeeds.
pub proof fn lemma_write_then_read(d: DocView)
    requires
        ase_file(d) is Ok,
        frames_decode_back(d, written_frame_count(d) as nat),
    ensures
        ase_read(ase_file(d)->Ok_0) == Ok::<DocView, ReadFailure>(read_back(d)),
        read_back(d).width == d.width,
        read_back(d).height == d.height,
        read_back(d).color_mode == ColorMode::Indexed,
        read_back(d).pixel_aspect == pixel_ratio(d.pixel_aspect.0, d.pixel_aspect.1),
        read_back(d).palette == written_palette(d.palette),
        2 <= d.palette.len() ==> read_back(d).palette == d.palette,
        read_back(d).frames.len() == d.frames.len(),
        (forall|f: int| 0 <= f < d.frames.len() ==> #[trigger] d.frames[f].duration_ms <= 0xffff)
            ==> read_back(d).frames == d.frames,
        read_back(d).layers.len() == d.layers.len(),
        forall|i: int| 0 <= i < d.layers.len() ==> #[trigger] read_back(d).layers[i] == layer_read_back(d.layers[i]),
        forall|l: usize, f: usize|
            l < d.layers.len() && f < d.frames.len() ==> match #[trigger] find_cel(d.cels, l, f) {
                None => find_cel(read_back(d).cels, l, f) is None,
                Some(i) => find_cel(read_back(d).cels, l, f) matches Some(j) && {
                    let c = read_back(d).cels[j];
                    &&& c.x == (d.cels[i].x as i16) as i32
                    &&& c.y == (d.cels[i].y as i16) as i32
                    &&& c.opacity == d.cels[i].opacity
                    &&& c.z_index == d.cels[i].z_index
                    &&& c.link is Unlinked
                    &&& (resolved_pixels_of(d, d.cels[i]) matches Some(PixelGridView::Indexed { indices, .. })
                        ==> resolved_pixels_of(read_back(d), c) == Some(
                        PixelGridView::Indexed { width: d.width, height: d.height, indices },
                    ))
                },
            },
{
    lemma_ase_file_ok(d);
    lemma_read_back_fields(d);
    lemma_read_back_cels(d);
    lemma_file_read_back(d);
}

/// The chunks of frame `frame` for layers `0..n` are written exactly when
/// the cels of those layers there encode, provided each cel that the writer
/// reaches has a finite link chain.
proof fn lemma_frame_chunks_ok(d: DocView, frame: usize, w: u16, h: u16, n: nat)
    requires
        forall|l: int| 0 <= l < n && layers_encodable(d, frame, w, h, l) ==> #[trigger] found_resolvable(d, frame, l),
    ensures
        frame_chunks(d, frame, w, h, n) is Ok <==> layers_encodable(d, frame, w, h, n as int),
    decreases n,
{
    if n > 0 {
        let l = n - 1;
        lemma_frame_chunks_ok(d, frame, w, h, (n - 1) as nat);
        if frame_chunks(d, frame, w, h, (n - 1) as nat) is Ok {
            assert(found_resolvable(d, frame, l));
            match find_cel(d.cels, l as usize, frame) {
                None => {},
                Some(i) => {
                    assert(crate::document::model::resolvable(d.cels, d.cels[i]));
                },
            }
            if layers_encodable(d, frame, w, h, n as int) {
                assert(cel_encodable(d, frame, w, h, l));
            } else {
                assert(!cel_encodable(d, frame, w, h, l));
            }
        } else if layers_encodable(d, frame, w, h, n as int) {
            assert forall|m: int| 0 <= m < n - 1 implies #[trigger] cel_encodable(d, frame, w, h, m) by {
                assert(cel_encodable(d, frame, w, h, m));
            }
        }
    }
}

/// Frames `0..n` are written exactly when the cels of every layer in them
/// encode, provided each cel that the writer reaches has a finite link chain.
proof fn lemma_frames_bytes_ok(d: DocView, w: u16, h: u16, n: nat, total: nat)
    requires
        n <= total,
        total <= usize::MAX,
        reached_cels_resolvable(d, w, h, total),
    ensures
        frames_bytes(d, w, h, n) is Ok <==> frames_encodable(d, w, h, n as usize),
    decreases n,
{
    if n > 0 {
        let f = (n - 1) as usize;
        lemma_frames_bytes_ok(d, w, h, (n - 1) as nat, total);
        if frames_bytes(d, w, h, (n - 1) as nat) is Ok {
            assert forall|l: int| 0 <= l < d.layers.len() && layers_encodable(d, f, w, h, l) implies #[trigger] found_resolvable(
                d,
                f,
                l,
            ) by {
                assert(frames_encodable(d, w, h, f));
            }
            lemma_frame_chunks_ok(d, f, w, h, d.layers.len());
            if frames_encodable(d, w, h, n as usize) {
                assert(layers_encodable(d, f, w, h, d.layers.len() as int));
            }
            if layers_encodable(d, f, w, h, d.layers.len() as int) {
                assert forall|k: usize| k < n as usize implies #[trigger] layers_encodable(d, k, w, h, d.layers.len() as int) by {
                    if k < f {
                        assert(frames_encodable(d, w, h, f));
                    }
                }
            }
        } else {
            if frames_encodable(d, w, h, n as usize) {
                assert forall|k: usize| k < f implies #[trigger] layers_encodable(d, k, w, h, d.layers.len() as int) by {
                    assert(k < n as usize);
                }
            }
        }
    }
}

/// `write_ase` succeeds exactly on a valid indexed document that fits the
/// format's counts, whose cels, in every written frame, are found, indexed,
/// of the canvas size and filled, and whose file fits 4 GiB; its cels' link
/// chains that the writer reaches being finite, as `write_ase` asks.
pub proof fn lemma_write_succeeds(d: DocView)
    requires
        ase_cels_resolvable(d),
    ensures
        ase_file(d) is Ok <==> validation_error(d) is None && d.color_mode == ColorMode::Indexed && counts_fit(d)
            && frames_encodable(d, d.width as u16, d.height as u16, written_frame_count(d) as usize)
            && frames_bytes(d, d.width as u16, d.height as u16, written_frame_count(d) as nat)->Ok_0.len() + 128
            <= u32::MAX,
{
    reveal(ase_file);
    if validation_error(d) is None && d.color_mode == ColorMode::Indexed {
        assert(1 <= d.width <= 0xffff && 1 <= d.height <= 0xffff);
        let fc = written_frame_count(d) as nat;
        lemma_frames_bytes_ok(d, d.width as u16, d.height as u16, fc, fc);
    }
}

/// Cel `j` of `r` read back a cel of `d`: it stands where a cel of `d`
/// stands, has that cel's position, opacity and z-index, no link, image `j`,
/// and that image holds the pixels the cel of `d` showed, at the canvas size.
pub open spec fn back_cel_ok(r: DocView, d: DocView, j: int) -> bool {
    let c = r.cels[j];
    &&& c.image_id == j
    &&& c.link is Unlinked
    &&& find_cel(d.cels, c.layer, c.frame) matches Some(i) && c.x == (d.cels[i].x as i16) as i32 && c.y == (
        d.cels[i].y as i16) as i32 && c.opacity
        == d.cels[i].opacity && c.z_index == d.cels[i].z_index && r.images[j] == PixelGridView::Indexed {
        width: d.width,
        height: d.height,
        indices: resolved_pixels_of(d, d.cels[i])->0->Indexed_indices,
    }
}

/// The cel stands before layer `n0` of frame `f0`, frames first.
pub open spec fn read_before(c: Cel, f0: nat, n0: nat) -> bool {
    c.frame < f0 || (c.frame == f0 && c.layer < n0)
}

/// The cels of `r` are the cels of `d` read back before layer `n0` of frame
/// `f0`: one for each, none twice, each with its own image.
pub open spec fn cels_back_inv(r: DocView, d: DocView, f0: nat, n0: nat) -> bool {
    &&& r.cels.len() == r.images.len()
    &&& r.cels.len() <= f0 * 0x10000 + n0
    &&& forall|j: int| 0 <= j < r.cels.len() ==> #[trigger] back_cel_ok(r, d, j) && read_before(r.cels[j], f0, n0)
    &&& forall|j: int, k: int|
        #![trigger r.cels[j], r.cels[k]]
        0 <= j < k < r.cels.len() ==> !cel_is_at(r.cels[j], r.cels[k].layer, r.cels[k].frame)
    &&& forall|l: usize, f: usize|
        (f < f0 || (f == f0 && l < n0)) && l < d.layers.len() && #[trigger] find_cel(d.cels, l, f) is Some ==> exists|
            j: int,
        |
            0 <= j < r.cels.len() && cel_is_at(#[trigger] r.cels[j], l, f)
}

/// Reading back layer `l`'s chunks of frame `f` reads back its cel there.
proof fn lemma_layer_back_step_cels(r: DocView, d: DocView, f: nat, l: int)
    requires
        cels_back_inv(r, d, f, l as nat),
        0 <= l < d.layers.len() <= 0x10000,
        f < 0x1_0000,
    ensures
        cels_back_inv(layer_back_step(r, d, f, l), d, f, (l + 1) as nat),
{
    let e = layer_back_step(r, d, f, l);
    let n1 = (l + 1) as nat;
    assert forall|j: int| 0 <= j < r.cels.len() implies e.cels[j] == r.cels[j] && e.images[j] == r.images[j] by {}
    assert forall|j: int| 0 <= j < r.cels.len() implies #[trigger] back_cel_ok(e, d, j) && read_before(
        e.cels[j],
        f,
        n1,
    ) by {
        assert(back_cel_ok(r, d, j));
    }
    match find_cel(d.cels, l as usize, f as usize) {
        None => {
            assert(e.cels == r.cels && e.images == r.images);
            assert forall|m: usize, g: usize|
                (g < f || (g == f && m < n1)) && m < d.layers.len() && #[trigger] find_cel(d.cels, m, g) is Some implies exists|
                j: int,
            |
                0 <= j < e.cels.len() && cel_is_at(#[trigger] e.cels[j], m, g) by {
                assert(g < f || (g == f && m < l));
            }
            assert(cels_back_inv(e, d, f, n1));
        },
        Some(i) => {
            let j = r.cels.len() as int;
            assert(e.cels.len() == j + 1);
            assert(cel_is_at(e.cels[j], l as usize, f as usize));
            assert(back_cel_ok(e, d, j));
            assert forall|k: int| 0 <= k < e.cels.len() implies #[trigger] back_cel_ok(e, d, k) && read_before(
                e.cels[k],
                f,
                n1,
            ) by {
                if k < j {
                    assert(back_cel_ok(r, d, k));
                }
            }
            assert forall|a: int, b: int|
                #![trigger e.cels[a], e.cels[b]]
                0 <= a < b < e.cels.len() implies !cel_is_at(e.cels[a], e.cels[b].layer, e.cels[b].frame) by {
                if b < j {
                    assert(!cel_is_at(r.cels[a], r.cels[b].layer, r.cels[b].frame));
                } else {
                    assert(back_cel_ok(r, d, a));
                    assert(read_before(r.cels[a], f, l as nat));
                    assert(e.cels[a] == r.cels[a]);
                }
            }
            assert forall|m: usize, g: usize|
                (g < f || (g == f && m < n1)) && m < d.layers.len() && #[trigger] find_cel(d.cels, m, g) is Some implies exists|
                k: int,
            |
                0 <= k < e.cels.len() && cel_is_at(#[trigger] e.cels[k], m, g) by {
                if g < f || (g == f && m < l) {
                    let k = choose|k: int| 0 <= k < r.cels.len() && cel_is_at(#[trigger] r.cels[k], m, g);
                    assert(cel_is_at(e.cels[k], m, g));
                } else {
                    assert(m == l as usize && g == f as usize);
                    assert(cel_is_at(e.cels[j], m, g));
                }
            }
            assert(cels_back_inv(e, d, f, n1));
        },
    }
}

/// Reading back the chunks of frame `f` for layers `0..n` reads back their cels there.
proof fn lemma_layers_back_cels(r: DocView, d: DocView, f: nat, n: nat)
    requires
        cels_back_inv(r, d, f, 0),
        n <= d.layers.len() <= 0x10000,
        f < 0x1_0000,
    ensures
        cels_back_inv(layers_back(r, d, f, n), d, f, n),
    decreases n,
{
    if n == 0 {
        let e = layers_back(r, d, f, 0);
        assert(e.cels == r.cels && e.images == r.images);
        assert forall|j: int| 0 <= j < e.cels.len() implies #[trigger] back_cel_ok(e, d, j) && read_before(
            e.cels[j],
            f,
            0,
        ) by {
            assert(back_cel_ok(r, d, j));
        }
    } else {
        lemma_layers_back_cels(r, d, f, (n - 1) as nat);
        lemma_layer_back_step_cels(layers_back(r, d, f, (n - 1) as nat), d, f, n - 1);
    }
}

/// Reading back frames `0..n` reads back every cel of theirs.
proof fn lemma_frames_back_cels(r: DocView, d: DocView, n: nat)
    requires
        r.cels.len() == 0,
        r.images.len() == 0,
        n <= 0xffff,
        d.layers.len() <= 0x10000,
    ensures
        cels_back_inv(frames_back(r, d, n), d, n, 0),
    decreases n,
{
    if n > 0 {
        lemma_frames_back_cels(r, d, (n - 1) as nat);
        let rr = frames_back(r, d, (n - 1) as nat);
        let r1 = DocView { frames: rr.frames.push(duration_read_back(d, n - 1)), ..rr };
        let e = frames_back(r, d, n);
        assert(e == layers_back(r1, d, (n - 1) as nat, d.layers.len()));
        assert forall|j: int| 0 <= j < r1.cels.len() implies #[trigger] back_cel_ok(r1, d, j) && read_before(
            r1.cels[j],
            (n - 1) as nat,
            0,
        ) by {
            assert(back_cel_ok(rr, d, j));
        }
        lemma_layers_back_cels(r1, d, (n - 1) as nat, d.layers.len());
        assert forall|j: int| 0 <= j < e.cels.len() implies #[trigger] back_cel_ok(e, d, j) && read_before(
            e.cels[j],
            n,
            0,
        ) by {
            assert(back_cel_ok(e, d, j));
            assert(read_before(e.cels[j], (n - 1) as nat, d.layers.len()));
            assert(find_cel(d.cels, e.cels[j].layer, e.cels[j].frame) is Some);
        }
        assert forall|l: usize, f: usize|
            (f < n || (f == n && l < 0)) && l < d.layers.len() && #[trigger] find_cel(d.cels, l, f) is Some implies exists|
            j: int,
        |
            0 <= j < e.cels.len() && cel_is_at(#[trigger] e.cels[j], l, f) by {
            assert(f < (n - 1) as nat || (f == (n - 1) as nat && l < d.layers.len()));
        }
    }
}

/// The cel of layer `l` in frame `f` of `read_back(d)` is the one read back
/// from `d`'s cel there: there is one exactly when `d` has one, at the same
/// position, opacity and z-index, with no link, showing the indexed pixels
/// that `d`'s cel showed at the canvas size.
pub proof fn lemma_read_back_cels(d: DocView)
    requires
        1 <= d.frames.len() <= 0xffff,
        d.layers.len() <= 0x10000,
    ensures
        forall|l: usize, f: usize|
            l < d.layers.len() && f < d.frames.len() ==> match #[trigger] find_cel(d.cels, l, f) {
                None => find_cel(read_back(d).cels, l, f) is None,
                Some(i) => find_cel(read_back(d).cels, l, f) matches Some(j) && {
                    let c = read_back(d).cels[j];
                    &&& c.x == (d.cels[i].x as i16) as i32
                    &&& c.y == (d.cels[i].y as i16) as i32
                    &&& c.opacity == d.cels[i].opacity
                    &&& c.z_index == d.cels[i].z_index
                    &&& c.link is Unlinked
                    &&& (resolved_pixels_of(d, d.cels[i]) matches Some(PixelGridView::Indexed { indices, .. })
                        ==> resolved_pixels_of(read_back(d), c) == Some(
                        PixelGridView::Indexed { width: d.width, height: d.height, indices },
                    ))
                },
            },
{
    let fc = written_frame_count(d);
    assert(fc == d.frames.len());
    let d0 = start_doc(d.width, d.height, ColorMode::Indexed, pixel_ratio(d.pixel_aspect.0, d.pixel_aspect.1));
    lemma_frames_back_cels(d0, d, fc as nat);
    lemma_frames_back_shape(d0, d, fc as nat);
    let e = frames_back(d0, d, fc as nat);
    let rb = read_back(d);
    assert(rb.cels == e.cels && rb.images == e.images);
    assert forall|l: usize, f: usize| l < d.layers.len() && f < d.frames.len() implies match #[trigger] find_cel(
        d.cels,
        l,
        f,
    ) {
        None => find_cel(rb.cels, l, f) is None,
        Some(i) => find_cel(rb.cels, l, f) matches Some(j) && {
            let c = rb.cels[j];
            &&& c.x == (d.cels[i].x as i16) as i32
            &&& c.y == (d.cels[i].y as i16) as i32
            &&& c.opacity == d.cels[i].opacity
            &&& c.z_index == d.cels[i].z_index
            &&& c.link is Unlinked
            &&& (resolved_pixels_of(d, d.cels[i]) matches Some(PixelGridView::Indexed { indices, .. })
                ==> resolved_pixels_of(rb, c) == Some(PixelGridView::Indexed { width: d.width, height: d.height, indices }))
        },
    } by {
        lemma_find_cel(rb.cels, l, f);
        lemma_find_cel(d.cels, l, f);
        match find_cel(d.cels, l, f) {
            None => {
                match find_cel(rb.cels, l, f) {
                    None => {},
                    Some(j) => {
                        assert(back_cel_ok(e, d, j));
                    },
                }
            },
            Some(i) => {
                let j = choose|j: int| 0 <= j < e.cels.len() && cel_is_at(#[trigger] e.cels[j], l, f);
                match find_cel(rb.cels, l, f) {
                    None => {
                        assert(!cel_is_at(rb.cels[j], l, f));
                    },
                    Some(j0) => {
                        if j0 < j {
                            assert(!cel_is_at(e.cels[j0], e.cels[j].layer, e.cels[j].frame));
                        } else if j < j0 {
                            assert(!cel_is_at(rb.cels[j], l, f));
                        }
                        assert(j0 == j);
                        assert(back_cel_ok(e, d, j));
                        let c = rb.cels[j];
                        assert(crate::document::model::resolve_within(rb.cels, c, 0) == Some(Some(j as usize)));
                        lemma_resolved_image_id(rb.cels, c, 0);
                    },
                }
            },
        }
    }
}

/// The blend modes are numbered as Aseprite numbers them, both when written
/// and when read: Normal 0, Multiply 1, Screen 2, Overlay 3, Darken 4,
/// Lighten 5, Color Dodge 6, Color Burn 7, Hard Light 8, Soft Light 9,
/// Difference 10, Exclusion 11, Hue 12, Saturation 13, Color 14,
/// Luminosity 15, Addition 16, Subtract 17, Divide 18; no other number is a
/// blend mode.
pub proof fn lemma_blend_mode_codes()
    ensures
        blend_mode_code(BlendMode::Normal) == 0,
        blend_mode_code(BlendMode::Multiply) == 1,
        blend_mode_code(BlendMode::Screen) == 2,
        blend_mode_code(BlendMode::Overlay) == 3,
        blend_mode_code(BlendMode::Darken) == 4,
        blend_mode_code(BlendMode::Lighten) == 5,
        blend_mode_code(BlendMode::ColorDodge) == 6,
        blend_mode_code(BlendMode::ColorBurn) == 7,
        blend_mode_code(BlendMode::HardLight) == 8,
        blend_mode_code(BlendMode::SoftLight) == 9,
        blend_mode_code(BlendMode::Difference) == 10,
        blend_mode_code(BlendMode::Exclusion) == 11,
        blend_mode_code(BlendMode::Hue) == 12,
        blend_mode_code(BlendMode::Saturation) == 13,
        blend_mode_code(BlendMode::Color) == 14,
        blend_mode_code(BlendMode::Luminosity) == 15,
        blend_mode_code(BlendMode::Addition) == 16,
        blend_mode_code(BlendMode::Subtract) == 17,
        blend_mode_code(BlendMode::Divide) == 18,
        blend_mode_of(0) == Some(BlendMode::Normal),
        blend_mode_of(1) == Some(BlendMode::Multiply),
        blend_mode_of(2) == Some(BlendMode::Screen),
        blend_mode_of(3) == Some(BlendMode::Overlay),
        blend_mode_of(4) == Some(BlendMode::Darken),
        blend_mode_of(5) == Some(BlendMode::Lighten),
        blend_mode_of(6) == Some(BlendMode::ColorDodge),
        blend_mode_of(7) == Some(BlendMode::ColorBurn),
        blend_mode_of(8) == Some(BlendMode::HardLight),
        blend_mode_of(9) == Some(BlendMode::SoftLight),
        blend_mode_of(10) == Some(BlendMode::Difference),
        blend_mode_of(11) == Some(BlendMode::Exclusion),
        blend_mode_of(12) == Some(BlendMode::Hue),
        blend_mode_of(13) == Some(BlendMode::Saturation),
        blend_mode_of(14) == Some(BlendMode::Color),
        blend_mode_of(15) == Some(BlendMode::Luminosity),
        blend_mode_of(16) == Some(BlendMode::Addition),
        blend_mode_of(17) == Some(BlendMode::Subtract),
        blend_mode_of(18) == Some(BlendMode::Divide),
        forall|c: u16| c > 18 ==> #[trigger] blend_mode_of(c) is None,
{
}

/// The blend-mode field of a written layer chunk, the `u16` at byte 10 of
/// its data, holds the Aseprite number of the layer's blend mode.
pub proof fn lemma_layer_blend_field(l: LayerView)
    ensures
        read_le16(layer_data(l), 10) == blend_mode_code(l.blend_mode),
        l.blend_mode == BlendMode::Normal ==> read_le16(layer_data(l), 10) == 0,
        l.blend_mode == BlendMode::Multiply ==> read_le16(layer_data(l), 10) == 1,
        l.blend_mode == BlendMode::Screen ==> read_le16(layer_data(l), 10) == 2,
        l.blend_mode == BlendMode::Divide ==> read_le16(layer_data(l), 10) == 18,
{
    let flags = layer_flags(l);
    let code = layer_type_code(l.kind);
    let blend = blend_mode_code(l.blend_mode);
    let data = layer_data(l);
    let tail = seq![l.opacity] + zero_bytes(3) + string_bytes(l.name) + layer_tail(l.kind);
    let p10 = le16(flags) + le16(code) + le16(0) + le16(0) + le16(0);
    assert(data =~= p10 + le16(blend) + tail);
    lemma_read_le16(blend, p10, tail);
}

/// Reading keeps the size and colour mode that the header sets.
proof fn lemma_read_chunks_keep(d: DocView, frame: nat, b: Seq<u8>, n: nat)
    ensures
        read_chunks(d, frame, b, n) matches Ok(e) ==> e.width == d.width && e.height == d.height && e.color_mode
            == d.color_mode,
    decreases n,
{
    if n > 0 && !(b.len() < 6 || read_le32(b, 0) < 6 || read_le32(b, 0) > b.len()) {
        let size = read_le32(b, 0) as int;
        match apply_chunk(d, frame, read_le16(b, 4), b.subrange(6, size)) {
            Ok(d2) => lemma_read_chunks_keep(d2, frame, b.subrange(size, b.len() as int), (n - 1) as nat),
            Err(_) => {},
        }
    }
}

/// Reading frames keeps the size and colour mode that the header sets.
proof fn lemma_read_frames_keep(d: DocView, b: Seq<u8>, frame: nat, n: nat)
    ensures
        read_frames(d, b, frame, n) matches Ok(e) ==> e.width == d.width && e.height == d.height && e.color_mode
            == d.color_mode,
    decreases n,
{
    if n > 0 && !(b.len() < 16 || read_le32(b, 0) < 16 || read_le32(b, 0) > b.len() || read_le16(b, 4)
        != FRAME_MAGIC) {
        let size = read_le32(b, 0) as int;
        let d1 = DocView { frames: d.frames.push(Frame { duration_ms: read_le16(b, 8) as u32 }), ..d };
        lemma_read_chunks_keep(d1, frame, b.subrange(16, size), frame_chunk_count(b) as nat);
        match read_chunks(d1, frame, b.subrange(16, size), frame_chunk_count(b) as nat) {
            Ok(d2) => lemma_read_frames_keep(d2, b.subrange(size, b.len() as int), frame + 1, (n - 1) as nat),
            Err(_) => {},
        }
    }
}

/// A document read from a file has the header's width and height (bytes 8
/// and 10) and the colour mode of its colour depth (bytes 12): 8 bits
/// indexed, 16 bits grayscale, 32 bits RGB.
pub proof fn lemma_read_header_fields(b: Seq<u8>)
    ensures
        ase_read(b) matches Ok(d) ==> {
            &&& d.width == read_le16(b, 8) as u32
            &&& d.height == read_le16(b, 10) as u32
            &&& read_le16(b, 12) == 8 ==> d.color_mode == ColorMode::Indexed
            &&& read_le16(b, 12) == 16 ==> d.color_mode == ColorMode::Grayscale
            &&& read_le16(b, 12) == 32 ==> d.color_mode == ColorMode::Rgb
        },
{
    if b.len() >= 128 && read_le16(b, 4) == ASE_MAGIC {
        match super::read::depth_mode(read_le16(b, 12)) {
            Some(mode) => {
                let d0 = start_doc(read_le16(b, 8) as u32, read_le16(b, 10) as u32, mode, pixel_ratio(b[34], b[35]));
                lemma_read_frames_keep(d0, b.subrange(128, b.len() as int), 0, read_le16(b, 6) as nat);
            },
            None => {},
        }
    }
}

/// A header of at least 128 bytes with the magic number, no frames and a
/// colour depth of 8, 16 or 32 bits reads as a document of the header's
/// size, in the depth's colour mode (8 indexed, 16 grayscale, 32 RGB), with
/// one 100 ms frame and nothing else drawn.
pub proof fn lemma_read_header_only(b: Seq<u8>)
    requires
        b.len() >= 128,
        read_le16(b, 4) == 0xA5E0,
        read_le16(b, 6) == 0,
        read_le16(b, 12) == 8 || read_le16(b, 12) == 16 || read_le16(b, 12) == 32,
    ensures
        ase_read(b) matches Ok(d) && {
            &&& d.width == read_le16(b, 8) as u32
            &&& d.height == read_le16(b, 10) as u32
            &&& read_le16(b, 12) == 8 ==> d.color_mode == ColorMode::Indexed
            &&& read_le16(b, 12) == 16 ==> d.color_mode == ColorMode::Grayscale
            &&& read_le16(b, 12) == 32 ==> d.color_mode == ColorMode::Rgb
            &&& d.frames == seq![Frame { duration_ms: 100 }]
            &&& d.layers.len() == 0
            &&& d.cels.len() == 0
        },
{
    lemma_read_header_fields(b);
}

} // verus!
