//! Reading `.aseprite` files: the header, then each frame and its chunks.

use vstd::prelude::*;
use vstd::slice::{slice_subrange, slice_to_vec};
use vstd::utf8::{decode_utf8, valid_utf8};

use super::bytes::read_le16;
use super::format::{ASE_MAGIC, CHUNK_CEL, CHUNK_LAYER, CHUNK_PALETTE, FRAME_MAGIC};
use super::zlib::{zlib_decoded, zlib_inflate};
use crate::document::cel::{Cel, CelId, CelLink};
use crate::document::layer::{BlendMode, Layer, LayerKind, LayerKindView, LayerView, ReferenceSource, ReferenceSourceView};
use crate::document::model::find_cel;
use crate::document::tileset::{TilemapGrid, TilemapGridView};
use crate::document::pixels::{ColorMode, ColorProfile, Palette, PixelGrid, PixelGridView, Rgba, default_indexed_colors, transparent_color};
use crate::document::sprite::{DocView, Frame, SpriteDocument};
use crate::error::CoreError;

verus! {

/// Why reading a file fails.
pub enum ReadFailure {
    /// Fewer than the 128 bytes of a header.
    TooShort,
    /// The header's magic number is not 0xA5E0.
    BadMagic,
    /// The colour depth is not 8, 16 or 32 bits.
    UnsupportedDepth(u16),
    /// A frame header is cut short, has a bad size or a bad magic number.
    BadFrame,
    /// A chunk is cut short or its size runs past its frame.
    BadChunk,
    /// A palette chunk is cut short, sets a palette of more than 256 colours,
    /// or changes a range of entries that is empty or runs past that size.
    BadPalette,
    /// A layer chunk is cut short, its name is not UTF-8, or its blend mode is unknown.
    BadLayer,
    /// A layer chunk has a type other than normal, group, tilemap or reference.
    UnsupportedLayer,
    /// A cel chunk is cut short, or its pixels do not fill its size.
    BadCel,
    /// A cel chunk is neither raw pixels, a link, compressed pixels nor a tilemap.
    UnsupportedCel,
    /// The compressed pixels of a cel do not decompress.
    BadCompression,
}

/// The `u32` stored little-endian at `at`.
pub open spec fn read_le32(b: Seq<u8>, at: int) -> u32 {
    (b[at] + 256 * b[at + 1] + 0x1_0000 * b[at + 2] + 0x100_0000 * b[at + 3]) as u32
}

/// The colour mode of a colour depth: 8 bits indexed, 16 grayscale, 32 RGB.
pub open spec fn depth_mode(depth: u16) -> Option<ColorMode> {
    if depth == 8 {
        Some(ColorMode::Indexed)
    } else if depth == 16 {
        Some(ColorMode::Grayscale)
    } else if depth == 32 {
        Some(ColorMode::Rgb)
    } else {
        None
    }
}

/// The pixel ratio of the header's two bytes; 1:1 when either is 0.
pub open spec fn pixel_ratio(pw: u8, ph: u8) -> (u8, u8) {
    if pw == 0 || ph == 0 {
        (1, 1)
    } else {
        (pw, ph)
    }
}

/// The document before any frame is read: the header's size, colour mode
/// and pixel ratio, the default palette when indexed, nothing else.
pub open spec fn start_doc(width: u32, height: u32, mode: ColorMode, aspect: (u8, u8)) -> DocView {
    DocView {
        width,
        height,
        color_mode: mode,
        pixel_aspect: aspect,
        color_profile: ColorProfile::Srgb,
        user_data: Seq::empty(),
        palette: if mode == ColorMode::Indexed {
            default_indexed_colors()
        } else {
            Seq::empty()
        },
        frames: Seq::empty(),
        layers: Seq::empty(),
        images: Seq::empty(),
        cels: Seq::empty(),
        tags: Seq::empty(),
        slices: Seq::empty(),
        tilesets: Seq::empty(),
    }
}

/// The colour of the palette entry at byte `pos`: after its flags, red,
/// green, blue, alpha.
pub open spec fn entry_color(data: Seq<u8>, pos: int) -> Rgba {
    Rgba { r: data[pos + 2], g: data[pos + 3], b: data[pos + 4], a: data[pos + 5] }
}

/// The length of the palette entry at byte `pos`: six bytes, and a name (its
/// length as a `u16`, then its bytes) when flag 1 is set; `None` when the
/// entry runs past the data.
pub open spec fn entry_len(data: Seq<u8>, pos: int) -> Option<int> {
    if pos + 6 > data.len() {
        None
    } else if read_le16(data, pos) % 2 == 0 {
        Some(6)
    } else if pos + 8 > data.len() {
        None
    } else if pos + 8 + read_le16(data, pos + 6) > data.len() {
        None
    } else {
        Some(8 + read_le16(data, pos + 6))
    }
}

/// The colours of `n` palette entries from byte `pos` on.
pub open spec fn palette_entries_at(data: Seq<u8>, pos: int, n: nat) -> Option<Seq<Rgba>>
    decreases n,
{
    if n == 0 {
        Some(Seq::empty())
    } else {
        match entry_len(data, pos) {
            None => None,
            Some(k) => match palette_entries_at(data, pos + k, (n - 1) as nat) {
                None => None,
                Some(rest) => Some(seq![entry_color(data, pos)] + rest),
            },
        }
    }
}

/// The palette after a palette chunk: the chunk's palette size (at most
/// 256), the entries from its first to its last index taken from the chunk,
/// the others kept from `old`, transparent past its end.
pub open spec fn palette_of(old: Seq<Rgba>, data: Seq<u8>) -> Option<Seq<Rgba>> {
    if data.len() < 20 {
        None
    } else {
        let size = read_le32(data, 0) as int;
        let first = read_le32(data, 4) as int;
        let last = read_le32(data, 8) as int;
        if size > 256 || first > last || last >= size {
            None
        } else {
            match palette_entries_at(data, 20, (last - first + 1) as nat) {
                None => None,
                Some(entries) => Some(
                    Seq::new(
                        size as nat,
                        |i: int|
                            if first <= i <= last {
                                entries[i - first]
                            } else if i < old.len() {
                                old[i]
                            } else {
                                transparent_color()
                            },
                    ),
                ),
            }
        }
    }
}

/// The blend mode of a code, as `blend_mode_code` numbers them.
pub open spec fn blend_mode_of(code: u16) -> Option<BlendMode> {
    if code == 0 {
        Some(BlendMode::Normal)
    } else if code == 1 {
        Some(BlendMode::Multiply)
    } else if code == 2 {
        Some(BlendMode::Screen)
    } else if code == 3 {
        Some(BlendMode::Overlay)
    } else if code == 4 {
        Some(BlendMode::Darken)
    } else if code == 5 {
        Some(BlendMode::Lighten)
    } else if code == 6 {
        Some(BlendMode::ColorDodge)
    } else if code == 7 {
        Some(BlendMode::ColorBurn)
    } else if code == 8 {
        Some(BlendMode::HardLight)
    } else if code == 9 {
        Some(BlendMode::SoftLight)
    } else if code == 10 {
        Some(BlendMode::Difference)
    } else if code == 11 {
        Some(BlendMode::Exclusion)
    } else if code == 12 {
        Some(BlendMode::Hue)
    } else if code == 13 {
        Some(BlendMode::Saturation)
    } else if code == 14 {
        Some(BlendMode::Color)
    } else if code == 15 {
        Some(BlendMode::Luminosity)
    } else if code == 16 {
        Some(BlendMode::Addition)
    } else if code == 17 {
        Some(BlendMode::Subtract)
    } else if code == 18 {
        Some(BlendMode::Divide)
    } else {
        None
    }
}

/// The name bytes of a layer chunk: the length at byte 16, the bytes from 18.
pub open spec fn layer_name_bytes(data: Seq<u8>) -> Seq<u8> {
    data.subrange(18, 18 + read_le16(data, 16) as int)
}

/// The empty tile grid.
pub open spec fn empty_tilemap() -> TilemapGridView {
    TilemapGridView { width: 0, height: 0, tiles: Seq::empty() }
}

/// The layer of a layer chunk: flag 1 visible, 2 editable, 8 background,
/// the blend mode at byte 10, the opacity at byte 12 and the UTF-8 name.
/// Type 0 is a normal layer, type 1 a group (flag 32 collapsed), type 2 a
/// tilemap layer whose tileset index follows the name (its tiles are not in
/// the chunk: the grid is empty), type 3 a reference layer (its source is not
/// in the chunk: the clipboard). The layer is top-level: the child level is
/// not read.
pub open spec fn layer_of(data: Seq<u8>) -> Result<LayerView, ReadFailure> {
    let end = 18 + read_le16(data, 16) as int;
    if data.len() < 18 || data.len() < end || !valid_utf8(layer_name_bytes(data)) || blend_mode_of(
        read_le16(data, 10),
    ) is None {
        Err(ReadFailure::BadLayer)
    } else {
        let flags = read_le16(data, 0);
        let kind = read_le16(data, 2);
        if kind > 3 {
            Err(ReadFailure::UnsupportedLayer)
        } else if kind == 2 && data.len() < end + 4 {
            Err(ReadFailure::BadLayer)
        } else {
            Ok(
                LayerView {
                    name: decode_utf8(layer_name_bytes(data)),
                    visible: flags % 2 == 1,
                    opacity: data[12],
                    blend_mode: blend_mode_of(read_le16(data, 10))->0,
                    parent: None,
                    kind: if kind == 0 {
                        LayerKindView::Normal
                    } else if kind == 1 {
                        LayerKindView::Group { collapsed: (flags / 32) % 2 == 1 }
                    } else if kind == 2 {
                        LayerKindView::Tilemap { tileset_id: read_le32(data, end) as usize, grid: empty_tilemap() }
                    } else {
                        LayerKindView::Reference { source: ReferenceSourceView::Clipboard }
                    },
                    is_background: (flags / 8) % 2 == 1,
                    is_editable: (flags / 2) % 2 == 1,
                },
            )
        }
    }
}

/// The bytes a pixel takes in a cel: one indexed, two grayscale, four RGB.
pub open spec fn bytes_per_pixel(mode: ColorMode) -> int {
    match mode {
        ColorMode::Indexed => 1,
        ColorMode::Grayscale => 2,
        ColorMode::Rgb => 4,
    }
}

/// A grid of the colour mode holding `bytes`.
pub open spec fn grid_of(mode: ColorMode, width: u32, height: u32, bytes: Seq<u8>) -> PixelGridView {
    match mode {
        ColorMode::Indexed => PixelGridView::Indexed { width, height, indices: bytes },
        ColorMode::Grayscale => PixelGridView::Grayscale { width, height, values: bytes },
        ColorMode::Rgb => PixelGridView::Rgb { width, height, rgba: bytes },
    }
}

/// The pixel bytes of a cel chunk: raw (type 0) or decompressed (type 2).
pub open spec fn cel_pixels(data: Seq<u8>) -> Result<Seq<u8>, ReadFailure> {
    let kind = read_le16(data, 7);
    if kind == 0 {
        Ok(data.skip(20))
    } else if kind == 2 {
        match zlib_decoded(data.skip(20)) {
            Some(x) => Ok(x),
            None => Err(ReadFailure::BadCompression),
        }
    } else {
        Err(ReadFailure::UnsupportedCel)
    }
}

/// The cel of a cel chunk in frame `frame` of `d`, with the image it adds:
/// layer index, position and z-index as signed 16-bit numbers, opacity,
/// then, for a link (type 1), the frame of the cel it links to in the same
/// layer (it shares that cel's image, 0 when there is none yet, and adds no
/// image); for pixels, their own new image, which the pixels must fill.
pub open spec fn cel_of(data: Seq<u8>, d: DocView, frame: nat) -> Result<(Cel, Option<PixelGridView>), ReadFailure> {
    if data.len() < 16 {
        Err(ReadFailure::BadCel)
    } else {
        let layer = read_le16(data, 0) as usize;
        let base = Cel {
            layer,
            frame: frame as usize,
            x: (read_le16(data, 2) as i16) as i32,
            y: (read_le16(data, 4) as i16) as i32,
            opacity: data[6],
            z_index: read_le16(data, 9) as i16,
            image_id: d.images.len() as usize,
            link: CelLink::Unlinked,
        };
        if read_le16(data, 7) == 1 {
            if data.len() < 18 {
                Err(ReadFailure::BadCel)
            } else {
                let pos = read_le16(data, 16) as usize;
                Ok(
                    (
                        Cel {
                            image_id: match find_cel(d.cels, layer, pos) {
                                Some(i) => d.cels[i].image_id,
                                None => 0,
                            },
                            link: CelLink::Linked { source: CelId { layer, frame: pos }, share_position: false },
                            ..base
                        },
                        None,
                    ),
                )
            }
        } else if data.len() < 20 {
            Err(ReadFailure::BadCel)
        } else {
            let w = read_le16(data, 16);
            let h = read_le16(data, 18);
            match cel_pixels(data) {
                Err(e) => Err(e),
                Ok(px) => if px.len() != w * h * bytes_per_pixel(d.color_mode) {
                    Err(ReadFailure::BadCel)
                } else {
                    Ok((base, Some(grid_of(d.color_mode, w as u32, h as u32, px))))
                },
            }
        }
    }
}

/// The document after one chunk of frame `frame`: a palette chunk changes
/// the palette, a layer chunk of the first frame adds a layer, a cel chunk
/// adds its cel and the image it brings; a tilemap cel (type 3) and other
/// chunks change nothing.
pub open spec fn apply_chunk(d: DocView, frame: nat, kind: u16, data: Seq<u8>) -> Result<DocView, ReadFailure> {
    if kind == CHUNK_PALETTE {
        match palette_of(d.palette, data) {
            None => Err(ReadFailure::BadPalette),
            Some(p) => Ok(DocView { palette: p, ..d }),
        }
    } else if kind == CHUNK_LAYER && frame == 0 {
        match layer_of(data) {
            Err(e) => Err(e),
            Ok(l) => Ok(DocView { layers: d.layers.push(l), ..d }),
        }
    } else if kind == CHUNK_CEL && !(data.len() >= 9 && read_le16(data, 7) == 3) {
        match cel_of(data, d, frame) {
            Err(e) => Err(e),
            Ok((c, None)) => Ok(DocView { cels: d.cels.push(c), ..d }),
            Ok((c, Some(g))) => Ok(DocView { images: d.images.push(g), cels: d.cels.push(c), ..d }),
        }
    } else {
        Ok(d)
    }
}

/// The document after `n` chunks from the front of `b`; each chunk is its
/// size (at least 6, within `b`) as a `u32`, its type, its data.
pub open spec fn read_chunks(d: DocView, frame: nat, b: Seq<u8>, n: nat) -> Result<DocView, ReadFailure>
    decreases n,
{
    if n == 0 {
        Ok(d)
    } else if b.len() < 6 || read_le32(b, 0) < 6 || read_le32(b, 0) > b.len() {
        Err(ReadFailure::BadChunk)
    } else {
        let size = read_le32(b, 0) as int;
        match apply_chunk(d, frame, read_le16(b, 4), b.subrange(6, size)) {
            Err(e) => Err(e),
            Ok(d2) => read_chunks(d2, frame, b.subrange(size, b.len() as int), (n - 1) as nat),
        }
    }
}

/// The number of chunks a frame header gives: the `u32` at byte 12, or the
/// `u16` at byte 6 when that is 0.
pub open spec fn frame_chunk_count(b: Seq<u8>) -> u32 {
    if read_le32(b, 12) == 0 {
        read_le16(b, 6) as u32
    } else {
        read_le32(b, 12)
    }
}

/// The document after `n` frames from the front of `b`, the first of them
/// numbered `frame`; each frame is its size (at least 16, within `b`) as a
/// `u32`, its magic number, its chunk count, its duration, then its chunks.
pub open spec fn read_frames(d: DocView, b: Seq<u8>, frame: nat, n: nat) -> Result<DocView, ReadFailure>
    decreases n,
{
    if n == 0 {
        Ok(d)
    } else if b.len() < 16 || read_le32(b, 0) < 16 || read_le32(b, 0) > b.len() || read_le16(b, 4) != FRAME_MAGIC {
        Err(ReadFailure::BadFrame)
    } else {
        let size = read_le32(b, 0) as int;
        let d1 = DocView { frames: d.frames.push(Frame { duration_ms: read_le16(b, 8) as u32 }), ..d };
        match read_chunks(d1, frame, b.subrange(16, size), frame_chunk_count(b) as nat) {
            Err(e) => Err(e),
            Ok(d2) => read_frames(d2, b.subrange(size, b.len() as int), frame + 1, (n - 1) as nat),
        }
    }
}

/// A document with no frame gets one of 100 ms.
pub open spec fn with_a_frame(d: DocView) -> DocView {
    if d.frames.len() == 0 {
        DocView { frames: seq![Frame { duration_ms: 100 }], ..d }
    } else {
        d
    }
}

/// The document a file holds: the header's size, colour mode and pixel
/// ratio, then the header's number of frames, each with its duration, the
/// layers of the first frame's layer chunks, the palette as its palette
/// chunks leave it, and a cel for each image or link cel chunk: an image
/// cel with its own image, a link sharing its source's.
pub open spec fn ase_read(b: Seq<u8>) -> Result<DocView, ReadFailure> {
    if b.len() < 128 {
        Err(ReadFailure::TooShort)
    } else if read_le16(b, 4) != ASE_MAGIC {
        Err(ReadFailure::BadMagic)
    } else {
        match depth_mode(read_le16(b, 12)) {
            None => Err(ReadFailure::UnsupportedDepth(read_le16(b, 12))),
            Some(mode) => {
                let d0 = start_doc(read_le16(b, 8) as u32, read_le16(b, 10) as u32, mode, pixel_ratio(b[34], b[35]));
                match read_frames(d0, b.subrange(128, b.len() as int), 0, read_le16(b, 6) as nat) {
                    Err(e) => Err(e),
                    Ok(d) => Ok(with_a_frame(d)),
                }
            },
        }
    }
}

/// The message of each way reading fails.
pub open spec fn read_failure_message(f: ReadFailure) -> Seq<char> {
    match f {
        ReadFailure::TooShort => "file too short for header"@,
        ReadFailure::BadMagic => "bad magic"@,
        ReadFailure::UnsupportedDepth(_) => "unsupported color depth"@,
        ReadFailure::BadFrame => "bad frame header"@,
        ReadFailure::BadChunk => "bad chunk size"@,
        ReadFailure::BadPalette => "unsupported palette chunk"@,
        ReadFailure::BadLayer => "bad layer chunk"@,
        ReadFailure::UnsupportedLayer => "unsupported layer type"@,
        ReadFailure::BadCel => "bad cel chunk"@,
        ReadFailure::UnsupportedCel => "unsupported cel type"@,
        ReadFailure::BadCompression => "cel pixels do not decompress"@,
    }
}

/// `read_ase` gives the document, or the error that stands for the failure:
/// `UnsupportedVersion` with the depth for an unknown colour depth,
/// `InvalidAse` with the failure's message for the others.
pub open spec fn read_matches(r: Result<SpriteDocument, CoreError>, s: Result<DocView, ReadFailure>) -> bool {
    match s {
        Ok(d) => r matches Ok(doc) && doc@ == d,
        Err(ReadFailure::UnsupportedDepth(depth)) => r matches Err(CoreError::UnsupportedVersion(v)) && v == depth,
        Err(f) => r matches Err(CoreError::InvalidAse(m)) && m@ == read_failure_message(f),
    }
}

/// The `u16` stored little-endian at `at`.
fn u16_at(bytes: &[u8], at: usize) -> (v: u16)
    requires
        at + 1 < bytes.len(),
    ensures
        v == read_le16(bytes@, at as int),
{
    bytes[at] as u16 + 256 * (bytes[at + 1] as u16)
}

/// The `u32` stored little-endian at `at`.
fn u32_at(bytes: &[u8], at: usize) -> (v: u32)
    requires
        at + 3 < bytes.len(),
    ensures
        v == read_le32(bytes@, at as int),
{
    bytes[at] as u32 + 256 * (bytes[at + 1] as u32) + 0x1_0000 * (bytes[at + 2] as u32) + 0x100_0000 * (
    bytes[at + 3] as u32)
}

/// The blend mode of a code.
fn blend_mode_from(code: u16) -> (m: Option<BlendMode>)
    ensures
        m == blend_mode_of(code),
{
    match code {
        0 => Some(BlendMode::Normal),
        1 => Some(BlendMode::Multiply),
        2 => Some(BlendMode::Screen),
        3 => Some(BlendMode::Overlay),
        4 => Some(BlendMode::Darken),
        5 => Some(BlendMode::Lighten),
        6 => Some(BlendMode::ColorDodge),
        7 => Some(BlendMode::ColorBurn),
        8 => Some(BlendMode::HardLight),
        9 => Some(BlendMode::SoftLight),
        10 => Some(BlendMode::Difference),
        11 => Some(BlendMode::Exclusion),
        12 => Some(BlendMode::Hue),
        13 => Some(BlendMode::Saturation),
        14 => Some(BlendMode::Color),
        15 => Some(BlendMode::Luminosity),
        16 => Some(BlendMode::Addition),
        17 => Some(BlendMode::Subtract),
        18 => Some(BlendMode::Divide),
        _ => None,
    }
}

/// The string whose UTF-8 bytes are `bytes`, by `String::from_utf8`.
/// Trusted: `Some` exactly when the bytes are valid UTF-8, and then the
/// characters they encode.
#[verifier::external_body]
fn utf8_string(bytes: &[u8]) -> (r: Option<String>)
    ensures
        r is Some <==> valid_utf8(bytes@),
        r matches Some(s) ==> s@ == decode_utf8(bytes@),
{
    match String::from_utf8(bytes.to_vec()) {
        Ok(s) => Some(s),
        Err(_) => None,
    }
}

/// Reading `n` entries gives `n` colours.
proof fn lemma_palette_entries_len(data: Seq<u8>, pos: int, n: nat)
    ensures
        palette_entries_at(data, pos, n) matches Some(c) ==> c.len() == n,
    decreases n,
{
    if n > 0 {
        match entry_len(data, pos) {
            Some(k) => lemma_palette_entries_len(data, pos + k, (n - 1) as nat),
            None => {},
        }
    }
}

/// `p` followed by the colours of `o`, when there are any.
pub open spec fn prefixed(p: Seq<Rgba>, o: Option<Seq<Rgba>>) -> Option<Seq<Rgba>> {
    match o {
        Some(r) => Some(p + r),
        None => None,
    }
}

/// The colours of `n` palette entries from byte `pos` on.
fn read_entries(data: &[u8], pos: usize, n: u32) -> (r: Option<Vec<Rgba>>)
    requires
        pos <= data.len(),
    ensures
        match palette_entries_at(data@, pos as int, n as nat) {
            None => r is None,
            Some(c) => r matches Some(v) && v@ == c,
        },
{
    let mut colors: Vec<Rgba> = Vec::new();
    let mut at = pos;
    let mut i: u32 = 0;
    proof {
        assert(colors@ + Seq::<Rgba>::empty() =~= Seq::<Rgba>::empty());
        assert(Seq::<Rgba>::empty() + Seq::<Rgba>::empty() =~= Seq::<Rgba>::empty());
        match palette_entries_at(data@, pos as int, n as nat) {
            Some(c) => {
                assert(colors@ + c =~= c);
            },
            None => {},
        }
    }
    while i < n
        invariant
            at <= data.len(),
            i <= n,
            palette_entries_at(data@, pos as int, n as nat) == prefixed(
                colors@,
                palette_entries_at(data@, at as int, (n - i) as nat),
            ),
        decreases n - i,
    {
        if data.len() - at < 6 {
            return None;
        }
        let flags = u16_at(data, at);
        let len: usize = if flags % 2 == 0 {
            6
        } else {
            if data.len() - at < 8 {
                return None;
            }
            let name_len = u16_at(data, at + 6) as usize;
            if data.len() - at - 8 < name_len {
                return None;
            }
            8 + name_len
        };
        let c = Rgba { r: data[at + 2], g: data[at + 3], b: data[at + 4], a: data[at + 5] };
        proof {
            assert(entry_len(data@, at as int) == Some(len as int));
            assert(c == entry_color(data@, at as int));
            match palette_entries_at(data@, (at + len) as int, (n - i - 1) as nat) {
                Some(rest) => {
                    assert(colors@ + (seq![c] + rest) =~= colors@.push(c) + rest);
                },
                None => {},
            }
        }
        colors.push(c);
        at = at + len;
        i = i + 1;
    }
    proof {
        assert(colors@ + Seq::<Rgba>::empty() =~= colors@);
    }
    Some(colors)
}

/// The palette after a palette chunk.
fn read_palette(old: &Vec<Rgba>, data: &[u8]) -> (r: Option<Vec<Rgba>>)
    ensures
        match palette_of(old@, data@) {
            None => r is None,
            Some(p) => r matches Some(v) && v@ == p,
        },
{
    if data.len() < 20 {
        return None;
    }
    let size = u32_at(data, 0);
    let first = u32_at(data, 4);
    let last = u32_at(data, 8);
    if size > 256 || first > last || last >= size {
        return None;
    }
    let entries = match read_entries(data, 20, last - first + 1) {
        Some(e) => e,
        None => {
            return None;
        },
    };
    proof {
        lemma_palette_entries_len(data@, 20, (last - first + 1) as nat);
    }
    let ghost target = palette_of(old@, data@)->Some_0;
    let mut colors: Vec<Rgba> = Vec::new();
    let mut i: u32 = 0;
    while i < size
        invariant
            i <= size <= 256,
            first <= last < size,
            entries@.len() == last - first + 1,
            target.len() == size,
            target == palette_of(old@, data@)->Some_0,
            palette_of(old@, data@) == Some(target),
            palette_entries_at(data@, 20, (last - first + 1) as nat) == Some(entries@),
            first == read_le32(data@, 4),
            last == read_le32(data@, 8),
            colors@ =~= target.take(i as int),
        decreases size - i,
    {
        let c = if first <= i && i <= last {
            entries[(i - first) as usize]
        } else if (i as usize) < old.len() {
            old[i as usize]
        } else {
            Rgba::transparent()
        };
        proof {
            assert(c == target[i as int]);
            assert(target.take(i + 1) =~= target.take(i as int).push(c));
        }
        colors.push(c);
        i = i + 1;
    }
    proof {
        assert(target.take(size as int) =~= target);
    }
    Some(colors)
}

/// The layer of a layer chunk.
fn read_layer(data: &[u8]) -> (r: Result<Layer, ReadFailure>)
    ensures
        match layer_of(data@) {
            Err(e) => r == Err::<Layer, ReadFailure>(e),
            Ok(l) => r matches Ok(x) && x@ == l,
        },
{
    if data.len() < 18 {
        return Err(ReadFailure::BadLayer);
    }
    let name_len = u16_at(data, 16) as usize;
    if data.len() < 18 + name_len {
        return Err(ReadFailure::BadLayer);
    }
    let end = 18 + name_len;
    let name = match utf8_string(slice_subrange(data, 18, end)) {
        Some(s) => s,
        None => {
            return Err(ReadFailure::BadLayer);
        },
    };
    let blend_mode = match blend_mode_from(u16_at(data, 10)) {
        Some(m) => m,
        None => {
            return Err(ReadFailure::BadLayer);
        },
    };
    let flags = u16_at(data, 0);
    let kind = u16_at(data, 2);
    if kind > 3 {
        return Err(ReadFailure::UnsupportedLayer);
    }
    if kind == 2 && data.len() - end < 4 {
        return Err(ReadFailure::BadLayer);
    }
    let layer_kind = if kind == 0 {
        LayerKind::Normal
    } else if kind == 1 {
        LayerKind::Group { collapsed: (flags / 32) % 2 == 1 }
    } else if kind == 2 {
        LayerKind::Tilemap {
            tileset_id: u32_at(data, end) as usize,
            grid: TilemapGrid { width: 0, height: 0, tiles: Vec::new() },
        }
    } else {
        LayerKind::Reference { source: ReferenceSource::Clipboard }
    };
    let layer = Layer {
        name,
        visible: flags % 2 == 1,
        opacity: data[12],
        blend_mode,
        parent: None,
        kind: layer_kind,
        is_background: (flags / 8) % 2 == 1,
        is_editable: (flags / 2) % 2 == 1,
    };
    proof {
        assert(layer@.kind == layer_of(data@)->Ok_0.kind);
        assert(layer@ == layer_of(data@)->Ok_0);
    }
    Ok(layer)
}

/// The cel of a cel chunk, with the image it adds.
fn read_cel(data: &[u8], doc: &SpriteDocument, frame: usize) -> (r: Result<(Cel, Option<PixelGrid>), ReadFailure>)
    ensures
        match cel_of(data@, doc@, frame as nat) {
            Err(e) => r == Err::<(Cel, Option<PixelGrid>), ReadFailure>(e),
            Ok((c, g)) => r matches Ok((c2, g2)) && c2 == c && match g {
                None => g2 is None,
                Some(gv) => g2 matches Some(x) && x@ == gv,
            },
        },
{
    if data.len() < 16 {
        return Err(ReadFailure::BadCel);
    }
    let mode = doc.color_mode;
    let layer = u16_at(data, 0) as usize;
    let base = Cel {
        layer,
        frame,
        x: (u16_at(data, 2) as i16) as i32,
        y: (u16_at(data, 4) as i16) as i32,
        opacity: data[6],
        z_index: u16_at(data, 9) as i16,
        image_id: doc.images.len(),
        link: CelLink::Unlinked,
    };
    let kind = u16_at(data, 7);
    if kind == 1 {
        if data.len() < 18 {
            return Err(ReadFailure::BadCel);
        }
        let pos = u16_at(data, 16) as usize;
        proof {
            crate::document::model::lemma_find_cel(doc.cels@, layer, pos);
        }
        let image_id = match doc.cel_index(layer, pos) {
            Some(i) => doc.cels[i].image_id,
            None => 0,
        };
        return Ok(
            (
                Cel {
                    image_id,
                    link: CelLink::Linked { source: CelId { layer, frame: pos }, share_position: false },
                    ..base
                },
                None,
            ),
        );
    }
    if data.len() < 20 {
        return Err(ReadFailure::BadCel);
    }
    let w = u16_at(data, 16);
    let h = u16_at(data, 18);
    let rest = slice_subrange(data, 20, data.len());
    proof {
        assert(rest@ =~= data@.skip(20));
    }
    let px: Vec<u8> = if kind == 0 {
        slice_to_vec(rest)
    } else if kind == 2 {
        match zlib_inflate(rest) {
            Ok(v) => v,
            Err(_) => {
                return Err(ReadFailure::BadCompression);
            },
        }
    } else {
        return Err(ReadFailure::UnsupportedCel);
    };
    let bpp: u64 = match mode {
        ColorMode::Indexed => 1,
        ColorMode::Grayscale => 2,
        ColorMode::Rgb => 4,
    };
    assert((w as u64) * (h as u64) * bpp <= 0x4_0000_0000) by (nonlinear_arith)
        requires
            w < 0x1_0000,
            h < 0x1_0000,
            bpp <= 4,
    ;
    proof {
        assert(bpp == bytes_per_pixel(mode));
    }
    if px.len() as u64 != (w as u64) * (h as u64) * bpp {
        return Err(ReadFailure::BadCel);
    }
    let grid = match mode {
        ColorMode::Indexed => PixelGrid::Indexed { width: w as u32, height: h as u32, indices: px },
        ColorMode::Grayscale => PixelGrid::Grayscale { width: w as u32, height: h as u32, values: px },
        ColorMode::Rgb => PixelGrid::Rgb { width: w as u32, height: h as u32, rgba: px },
    };
    Ok((base, Some(grid)))
}

/// Applies one chunk of frame `frame` to the document.
fn read_chunk(doc: &mut SpriteDocument, frame: usize, kind: u16, data: &[u8]) -> (r: Result<(), ReadFailure>)
    ensures
        match apply_chunk(old(doc)@, frame as nat, kind, data@) {
            Err(e) => r == Err::<(), ReadFailure>(e),
            Ok(d) => r is Ok && final(doc)@ == d,
        },
{
    if kind == CHUNK_PALETTE {
        match read_palette(&doc.palette.colors, data) {
            None => Err(ReadFailure::BadPalette),
            Some(colors) => {
                let ghost p = colors@;
                doc.palette = Palette { colors };
                proof {
                    assert(doc@ =~= DocView { palette: p, ..old(doc)@ });
                }
                Ok(())
            },
        }
    } else if kind == CHUNK_LAYER && frame == 0 {
        match read_layer(data) {
            Err(e) => Err(e),
            Ok(layer) => {
                let ghost l = layer@;
                doc.layers.push(layer);
                proof {
                    assert(doc@.layers =~= old(doc)@.layers.push(l));
                    assert(doc@ =~= DocView { layers: old(doc)@.layers.push(l), ..old(doc)@ });
                }
                Ok(())
            },
        }
    } else if kind == CHUNK_CEL && !(data.len() >= 9 && u16_at(data, 7) == 3) {
        match read_cel(data, doc, frame) {
            Err(e) => Err(e),
            Ok((cel, None)) => {
                doc.cels.push(cel);
                proof {
                    assert(doc@ =~= DocView { cels: old(doc)@.cels.push(cel), ..old(doc)@ });
                }
                Ok(())
            },
            Ok((cel, Some(grid))) => {
                let ghost g = grid@;
                doc.images.push(grid);
                doc.cels.push(cel);
                proof {
                    assert(doc@.images =~= old(doc)@.images.push(g));
                    assert(doc@ =~= DocView {
                        images: old(doc)@.images.push(g),
                        cels: old(doc)@.cels.push(cel),
                        ..old(doc)@
                    });
                }
                Ok(())
            },
        }
    } else {
        Ok(())
    }
}

/// Reads `n` chunks of frame `frame` from `bytes[start..end]` into the document.
fn read_frame_chunks(doc: &mut SpriteDocument, bytes: &[u8], frame: usize, start: usize, end: usize, n: u32) -> (r:
    Result<(), ReadFailure>)
    requires
        start <= end <= bytes.len(),
    ensures
        match read_chunks(old(doc)@, frame as nat, bytes@.subrange(start as int, end as int), n as nat) {
            Err(e) => r == Err::<(), ReadFailure>(e),
            Ok(d) => r is Ok && final(doc)@ == d,
        },
{
    let mut pos = start;
    let mut i: u32 = 0;
    while i < n
        invariant
            start <= pos <= end <= bytes.len(),
            i <= n,
            read_chunks(old(doc)@, frame as nat, bytes@.subrange(start as int, end as int), n as nat) == read_chunks(
                doc@,
                frame as nat,
                bytes@.subrange(pos as int, end as int),
                (n - i) as nat,
            ),
        decreases n - i,
    {
        let ghost b = bytes@.subrange(pos as int, end as int);
        if end - pos < 6 {
            return Err(ReadFailure::BadChunk);
        }
        let size = u32_at(bytes, pos) as usize;
        proof {
            assert(read_le32(b, 0) == size);
        }
        if size < 6 || size > end - pos {
            return Err(ReadFailure::BadChunk);
        }
        let kind = u16_at(bytes, pos + 4);
        let data = slice_subrange(bytes, pos + 6, pos + size);
        proof {
            assert(read_le16(b, 4) == kind);
            assert(b.subrange(6, size as int) =~= data@);
            assert(b.subrange(size as int, b.len() as int) =~= bytes@.subrange(pos + size, end as int));
        }
        match read_chunk(doc, frame, kind, data) {
            Err(e) => {
                return Err(e);
            },
            Ok(()) => {},
        }
        pos = pos + size;
        i += 1;
    }
    Ok(())
}

/// Reads `n` frames from `bytes[128..]` into the document.
fn read_all_frames(doc: &mut SpriteDocument, bytes: &[u8], n: u16) -> (r: Result<(), ReadFailure>)
    requires
        bytes.len() >= 128,
    ensures
        match read_frames(old(doc)@, bytes@.subrange(128, bytes@.len() as int), 0, n as nat) {
            Err(e) => r == Err::<(), ReadFailure>(e),
            Ok(d) => r is Ok && final(doc)@ == d,
        },
{
    let len = bytes.len();
    let mut pos: usize = 128;
    let mut frame: usize = 0;
    while frame < n as usize
        invariant
            128 <= pos <= len,
            len == bytes@.len(),
            frame <= n,
            read_frames(old(doc)@, bytes@.subrange(128, len as int), 0, n as nat) == read_frames(
                doc@,
                bytes@.subrange(pos as int, len as int),
                frame as nat,
                (n - frame) as nat,
            ),
        decreases n - frame,
    {
        let ghost b = bytes@.subrange(pos as int, len as int);
        if len - pos < 16 {
            return Err(ReadFailure::BadFrame);
        }
        let size = u32_at(bytes, pos) as usize;
        let magic = u16_at(bytes, pos + 4);
        proof {
            assert(read_le32(b, 0) == size);
            assert(read_le16(b, 4) == magic);
        }
        if size < 16 || size > len - pos || magic != FRAME_MAGIC {
            return Err(ReadFailure::BadFrame);
        }
        let new_count = u32_at(bytes, pos + 12);
        let count: u32 = if new_count == 0 {
            u16_at(bytes, pos + 6) as u32
        } else {
            new_count
        };
        let duration = u16_at(bytes, pos + 8);
        proof {
            assert(read_le32(b, 12) == new_count);
            assert(read_le16(b, 6) == read_le16(bytes@, pos + 6));
            assert(frame_chunk_count(b) == count);
            assert(read_le16(b, 8) == duration);
            assert(b.subrange(16, size as int) =~= bytes@.subrange(pos + 16, pos + size));
            assert(b.subrange(size as int, b.len() as int) =~= bytes@.subrange(pos + size, len as int));
        }
        let ghost before = doc@;
        doc.frames.push(Frame { duration_ms: duration as u32 });
        proof {
            assert(doc@ =~= DocView {
                frames: before.frames.push(Frame { duration_ms: duration as u32 }),
                ..before
            });
        }
        match read_frame_chunks(doc, bytes, frame, pos + 16, pos + size, count) {
            Err(e) => {
                return Err(e);
            },
            Ok(()) => {},
        }
        pos = pos + size;
        frame += 1;
    }
    Ok(())
}

/// Reads an `.aseprite` file: the header's size, colour mode and pixel ratio,
/// then each frame's duration and chunks (palette, layers, cels).
pub fn read_ase(bytes: &[u8]) -> (r: Result<SpriteDocument, CoreError>)
    ensures
        read_matches(r, ase_read(bytes@)),
        r matches Ok(doc) ==> ({
            &&& doc.width == read_le16(bytes@, 8) as u32
            &&& doc.height == read_le16(bytes@, 10) as u32
            &&& read_le16(bytes@, 12) == 8 ==> doc.color_mode == ColorMode::Indexed
            &&& read_le16(bytes@, 12) == 16 ==> doc.color_mode == ColorMode::Grayscale
            &&& read_le16(bytes@, 12) == 32 ==> doc.color_mode == ColorMode::Rgb
        }),
{
    proof {
        super::laws::lemma_read_header_fields(bytes@);
    }
    if bytes.len() < 128 {
        return Err(CoreError::InvalidAse("file too short for header".to_owned()));
    }
    let magic = u16_at(bytes, 4);
    if magic != ASE_MAGIC {
        return Err(CoreError::InvalidAse("bad magic".to_owned()));
    }
    let frames = u16_at(bytes, 6);
    let width = u16_at(bytes, 8) as u32;
    let height = u16_at(bytes, 10) as u32;
    let depth = u16_at(bytes, 12);
    let color_mode = if depth == 8 {
        ColorMode::Indexed
    } else if depth == 16 {
        ColorMode::Grayscale
    } else if depth == 32 {
        ColorMode::Rgb
    } else {
        return Err(CoreError::UnsupportedVersion(depth));
    };
    let pixel_aspect: (u8, u8) = if bytes[34] == 0 || bytes[35] == 0 {
        (1, 1)
    } else {
        (bytes[34], bytes[35])
    };
    let palette = match color_mode {
        ColorMode::Indexed => Palette::indexed_default(),
        _ => Palette { colors: Vec::new() },
    };
    let mut doc = SpriteDocument {
        width,
        height,
        color_mode,
        pixel_aspect,
        color_profile: ColorProfile::Srgb,
        user_data: Vec::new(),
        palette,
        frames: Vec::new(),
        layers: Vec::new(),
        images: Vec::new(),
        cels: Vec::new(),
        tags: Vec::new(),
        slices: Vec::new(),
        tilesets: Vec::new(),
    };
    proof {
        assert(doc@ =~= start_doc(width, height, color_mode, pixel_ratio(bytes@[34], bytes@[35])));
    }
    let ghost read = read_frames(doc@, bytes@.subrange(128, bytes@.len() as int), 0, frames as nat);
    match read_all_frames(&mut doc, bytes, frames) {
        Err(e) => {
            return Err(failure_error(e));
        },
        Ok(()) => {},
    }
    if doc.frames.len() == 0 {
        doc.frames.push(Frame { duration_ms: 100 });
        proof {
            assert(doc@ =~= with_a_frame(read->Ok_0));
        }
    }
    Ok(doc)
}

/// The error that stands for a failure.
fn failure_error(f: ReadFailure) -> (e: CoreError)
    ensures
        read_matches(Err(e), Err(f)),
{
    match f {
        ReadFailure::TooShort => CoreError::InvalidAse("file too short for header".to_owned()),
        ReadFailure::BadMagic => CoreError::InvalidAse("bad magic".to_owned()),
        ReadFailure::UnsupportedDepth(depth) => CoreError::UnsupportedVersion(depth),
        ReadFailure::BadFrame => CoreError::InvalidAse("bad frame header".to_owned()),
        ReadFailure::BadChunk => CoreError::InvalidAse("bad chunk size".to_owned()),
        ReadFailure::BadPalette => CoreError::InvalidAse("unsupported palette chunk".to_owned()),
        ReadFailure::BadLayer => CoreError::InvalidAse("bad layer chunk".to_owned()),
        ReadFailure::UnsupportedLayer => CoreError::InvalidAse("unsupported layer type".to_owned()),
        ReadFailure::BadCel => CoreError::InvalidAse("bad cel chunk".to_owned()),
        ReadFailure::UnsupportedCel => CoreError::InvalidAse("unsupported cel type".to_owned()),
        ReadFailure::BadCompression => CoreError::InvalidAse("cel pixels do not decompress".to_owned()),
    }
}

} // verus!
