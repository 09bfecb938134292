use std::io::Read;

use pixelforge_core::ase::{read_ase, write_ase};
use pixelforge_core::document::{CelId, CelLink, ColorMode, Layer, PixelGrid, SpriteDocument};
use pixelforge_core::CoreError;

fn u16_at(b: &[u8], at: usize) -> u16 {
    u16::from_le_bytes([b[at], b[at + 1]])
}

fn u32_at(b: &[u8], at: usize) -> u32 {
    u32::from_le_bytes([b[at], b[at + 1], b[at + 2], b[at + 3]])
}

#[test]
fn round_trip_blank_indexed() {
    let doc = SpriteDocument::new_blank(16, 16, ColorMode::Indexed);
    let bytes = write_ase(&doc).expect("write");
    assert!(bytes.len() > 128);
    let parsed = read_ase(&bytes).expect("read");
    assert_eq!(parsed.width, 16);
    assert_eq!(parsed.height, 16);
    assert_eq!(parsed.color_mode, ColorMode::Indexed);
}

#[test]
fn round_trip_multi_frame_indexed() {
    let mut doc = SpriteDocument::new_blank(8, 8, ColorMode::Indexed);
    doc.set_frame_count(4);
    let bytes = write_ase(&doc).expect("write");
    let parsed = read_ase(&bytes).expect("read");
    assert_eq!(parsed.frames.len(), 4);
}

#[test]
fn written_header_fields() {
    let mut doc = SpriteDocument::new_blank(20, 10, ColorMode::Indexed);
    doc.pixel_aspect = (2, 3);
    doc.set_frame_count(3);
    let bytes = write_ase(&doc).unwrap();
    assert_eq!(u32_at(&bytes, 0) as usize, bytes.len());
    assert_eq!(u16_at(&bytes, 4), 0xA5E0);
    assert_eq!(u16_at(&bytes, 6), 3);
    assert_eq!(u16_at(&bytes, 8), 20);
    assert_eq!(u16_at(&bytes, 10), 10);
    assert_eq!(u16_at(&bytes, 12), 8);
    assert_eq!(u32_at(&bytes, 14), 1);
    assert_eq!(u16_at(&bytes, 18), 100);
    assert_eq!((bytes[34], bytes[35]), (2, 3));
    assert!(bytes[36..128].iter().all(|b| *b == 0));
}

#[test]
fn written_frame_and_chunks() {
    let mut doc = SpriteDocument::new_blank(4, 2, ColorMode::Indexed);
    doc.frames[0].duration_ms = 250;
    if let PixelGrid::Indexed { indices, .. } = &mut doc.images[0] {
        indices[3] = 9;
    }
    let bytes = write_ase(&doc).unwrap();
    let frame = &bytes[128..];
    let frame_size = u32_at(frame, 0) as usize;
    assert_eq!(frame_size, frame.len());
    assert_eq!(u16_at(frame, 4), 0xF1FA);
    assert_eq!(u16_at(frame, 6), 0xFFFF);
    assert_eq!(u16_at(frame, 8), 250);
    assert_eq!(u32_at(frame, 12), 3);

    // palette chunk: 256 entries of 6 bytes after 20 bytes of data header
    let pal = &frame[16..];
    let pal_size = u32_at(pal, 0) as usize;
    assert_eq!(u16_at(pal, 4), 0x2019);
    assert_eq!(pal_size, 6 + 20 + 256 * 6);
    assert_eq!(u32_at(pal, 6), 256);
    assert_eq!(u32_at(pal, 14), 255);
    let white = &pal[6 + 20 + 6..6 + 20 + 12];
    assert_eq!(white, &[0, 0, 255, 255, 255, 255]);

    // layer chunk of the background
    let layer = &pal[pal_size..];
    let layer_size = u32_at(layer, 0) as usize;
    assert_eq!(u16_at(layer, 4), 0x2004);
    assert_eq!(u16_at(layer, 6), 1 | 2 | 8);
    assert_eq!(u16_at(layer, 8), 0);
    assert_eq!(layer[18], 255);
    assert_eq!(u16_at(layer, 22), 10);
    assert_eq!(&layer[24..34], b"Background");
    assert_eq!(layer_size, 34);

    // cel chunk: the pixels are zlib-compressed
    let cel = &layer[layer_size..];
    let cel_size = u32_at(cel, 0) as usize;
    assert_eq!(u16_at(cel, 4), 0x2005);
    assert_eq!(cel_size, cel.len());
    assert_eq!(u16_at(cel, 6), 0);
    assert_eq!(cel[12], 255);
    assert_eq!(u16_at(cel, 13), 2);
    assert_eq!(u16_at(cel, 22), 4);
    assert_eq!(u16_at(cel, 24), 2);
    let compressed = &cel[26..];
    assert_ne!(compressed, &[0, 0, 0, 9, 0, 0, 0, 0][..]);
    let mut decoder = flate2::read::ZlibDecoder::new(compressed);
    let mut raw = Vec::new();
    decoder.read_to_end(&mut raw).unwrap();
    assert_eq!(raw, vec![0, 0, 0, 9, 0, 0, 0, 0]);
}

#[test]
fn negative_cel_position_is_written_as_twos_complement() {
    let mut doc = SpriteDocument::new_blank(1, 1, ColorMode::Indexed);
    doc.cel_mut(0, 0).unwrap().x = -2;
    doc.cel_mut(0, 0).unwrap().z_index = -1;
    let bytes = write_ase(&doc).unwrap();
    let frame = &bytes[128..];
    let pal = &frame[16..];
    let layer = &pal[u32_at(pal, 0) as usize..];
    let cel = &layer[u32_at(layer, 0) as usize..];
    assert_eq!(u16_at(cel, 8), 0xFFFE);
    assert_eq!(u16_at(cel, 15), 0xFFFF);
}

#[test]
fn write_refuses_non_indexed_and_invalid_documents() {
    let rgb = SpriteDocument::new_blank(4, 4, ColorMode::Rgb);
    match write_ase(&rgb) {
        Err(CoreError::InvalidAse(m)) => assert_eq!(m, "only indexed write supported in Phase 0 bootstrap"),
        other => panic!("{:?}", other),
    }
    let mut bad = SpriteDocument::new_blank(4, 4, ColorMode::Indexed);
    bad.layers.push(Layer::background("Again"));
    assert!(matches!(write_ase(&bad), Err(CoreError::Validation(_))));
}

#[test]
fn write_refuses_cels_it_cannot_encode() {
    let mut doc = SpriteDocument::new_blank(4, 4, ColorMode::Indexed);
    doc.images[0] = PixelGrid::new_empty(4, 4, ColorMode::Grayscale);
    match write_ase(&doc) {
        Err(CoreError::InvalidAse(m)) => assert_eq!(m, "indexed write requires indexed cel pixels"),
        other => panic!("{:?}", other),
    }
    doc.images[0] = PixelGrid::new_empty(5, 4, ColorMode::Indexed);
    match write_ase(&doc) {
        Err(CoreError::InvalidAse(m)) => assert_eq!(m, "cel size mismatch with sprite"),
        other => panic!("{:?}", other),
    }
    doc.images[0] = PixelGrid::new_empty(4, 4, ColorMode::Indexed);
    doc.set_frame_count(2);
    doc.cels[1].link = CelLink::Linked {
        source: CelId { layer: 0, frame: 5 },
        share_position: false,
    };
    match write_ase(&doc) {
        Err(CoreError::InvalidAse(m)) => assert_eq!(m, "cel missing pixel data"),
        other => panic!("{:?}", other),
    }
    doc.cels[1].link = CelLink::Linked {
        source: CelId { layer: 0, frame: 0 },
        share_position: false,
    };
    assert!(write_ase(&doc).is_ok());
}

#[test]
fn read_errors() {
    match read_ase(&[0u8; 127]) {
        Err(CoreError::InvalidAse(m)) => assert_eq!(m, "file too short for header"),
        other => panic!("{:?}", other),
    }
    match read_ase(&[0u8; 128]) {
        Err(CoreError::InvalidAse(m)) => assert_eq!(m, "bad magic"),
        other => panic!("{:?}", other),
    }
    let mut header = vec![0u8; 128];
    header[4] = 0xE0;
    header[5] = 0xA5;
    header[12] = 24;
    match read_ase(&header) {
        Err(CoreError::UnsupportedVersion(d)) => assert_eq!(d, 24),
        other => panic!("{:?}", other),
    }
}

#[test]
fn read_header_modes_and_frames() {
    let mut header = vec![0u8; 128];
    header[4] = 0xE0;
    header[5] = 0xA5;
    header[8] = 3;
    header[10] = 5;
    header[12] = 16;
    let doc = read_ase(&header).unwrap();
    assert_eq!((doc.width, doc.height), (3, 5));
    assert_eq!(doc.color_mode, ColorMode::Grayscale);
    assert_eq!(doc.frames.len(), 1);
    assert_eq!(doc.frames[0].duration_ms, 100);
    assert_eq!(doc.pixel_aspect, (1, 1));
    assert!(doc.layers.is_empty() && doc.cels.is_empty());
    header[12] = 32;
    header[6] = 2;
    match read_ase(&header) {
        Err(CoreError::InvalidAse(m)) => assert_eq!(m, "bad frame header"),
        other => panic!("{:?}", other),
    }
}

#[test]
fn read_rejects_bad_chunks() {
    let doc = SpriteDocument::new_blank(2, 2, ColorMode::Indexed);
    let bytes = write_ase(&doc).unwrap();
    // The first chunk's size runs past its frame.
    let mut cut = bytes.clone();
    cut[128 + 16] = 0xFF;
    cut[128 + 17] = 0xFF;
    match read_ase(&cut) {
        Err(CoreError::InvalidAse(m)) => assert_eq!(m, "bad chunk size"),
        other => panic!("{:?}", other),
    }
    // The compressed pixels of the cel are damaged.
    let mut bad = bytes.clone();
    let n = bad.len();
    bad[n - 5] ^= 0xFF;
    bad[n - 6] ^= 0xFF;
    assert!(read_ase(&bad).is_err());
}

#[test]
fn round_trip_keeps_layers_palette_durations_and_pixels() {
    let mut doc = SpriteDocument::new_blank(4, 3, ColorMode::Indexed);
    doc.pixel_aspect = (2, 1);
    doc.frames[0].duration_ms = 250;
    doc.palette.colors.truncate(16);
    doc.palette.colors[3] = pixelforge_core::document::Rgba { r: 10, g: 20, b: 30, a: 255 };
    let mut ink = Layer::normal("Ink ✓");
    ink.opacity = 128;
    ink.visible = false;
    ink.blend_mode = pixelforge_core::document::BlendMode::Multiply;
    let l = doc.add_layer(ink);
    doc.add_frame();
    doc.frames[1].duration_ms = 40;
    doc.images[0] = PixelGrid::Indexed { width: 4, height: 3, indices: (0u8..12).collect() };
    {
        let c = doc.cel_mut(l, 1).unwrap();
        c.x = -3;
        c.y = 7;
        c.opacity = 77;
        c.z_index = -2;
    }
    let bytes = write_ase(&doc).unwrap();
    let back = read_ase(&bytes).unwrap();
    assert_eq!(back.pixel_aspect, (2, 1));
    assert_eq!(back.frames, doc.frames);
    assert_eq!(back.palette, doc.palette);
    assert_eq!(back.layers.len(), 2);
    for (a, b) in back.layers.iter().zip(doc.layers.iter()) {
        assert_eq!(a.name, b.name);
        assert_eq!(a.visible, b.visible);
        assert_eq!(a.opacity, b.opacity);
        assert_eq!(a.blend_mode, b.blend_mode);
        assert_eq!(a.is_background, b.is_background);
    }
    for layer in 0..2 {
        for frame in 0..2 {
            let a = back.cel(layer, frame).unwrap();
            let b = doc.cel(layer, frame).unwrap();
            assert_eq!((a.x, a.y, a.opacity, a.z_index), (b.x, b.y, b.opacity, b.z_index));
            assert_eq!(back.resolved_pixels(a), doc.resolved_pixels(b));
        }
    }
    assert_eq!(
        back.resolved_pixels(back.cel(0, 0).unwrap()),
        Some(&PixelGrid::Indexed { width: 4, height: 3, indices: (0u8..12).collect() })
    );
}

/// The offsets of the chunks of the first frame.
fn chunk_offsets(bytes: &[u8]) -> Vec<usize> {
    let count = u32_at(bytes, 128 + 12) as usize;
    let mut at = 128 + 16;
    let mut out = Vec::new();
    for _ in 0..count {
        out.push(at);
        at += u32_at(bytes, at) as usize;
    }
    out
}

fn read_message(bytes: &[u8]) -> String {
    match read_ase(bytes) {
        Err(CoreError::InvalidAse(m)) => m,
        other => panic!("{:?}", other),
    }
}

#[test]
fn read_error_for_each_bad_chunk() {
    let doc = SpriteDocument::new_blank(2, 2, ColorMode::Indexed);
    let bytes = write_ase(&doc).unwrap();
    let offsets = chunk_offsets(&bytes);
    assert_eq!(offsets.len(), 3);
    let (palette, layer, cel) = (offsets[0] + 6, offsets[1] + 6, offsets[2] + 6);

    let mut b = bytes.clone();
    b[palette] = 0x2C;
    b[palette + 1] = 1;
    assert_eq!(read_message(&b), "unsupported palette chunk");

    let mut b = bytes.clone();
    b[layer + 10] = 99;
    assert_eq!(read_message(&b), "bad layer chunk");

    let mut b = bytes.clone();
    b[layer + 2] = 7;
    assert_eq!(read_message(&b), "unsupported layer type");

    // A tilemap layer needs its tileset index after the name.
    let mut b = bytes.clone();
    b[layer + 2] = 2;
    assert_eq!(read_message(&b), "bad layer chunk");

    let mut b = bytes.clone();
    b[palette + 8] = 0;
    b[palette + 9] = 1;
    assert_eq!(read_message(&b), "unsupported palette chunk");

    let mut b = bytes.clone();
    b[cel + 7] = 5;
    assert_eq!(read_message(&b), "unsupported cel type");

    let mut b = bytes.clone();
    b[cel + 16] = 3;
    assert_eq!(read_message(&b), "bad cel chunk");

    let mut b = bytes.clone();
    b[cel + 20] = 0;
    assert_eq!(read_message(&b), "cel pixels do not decompress");
}

#[test]
fn read_raw_cel_and_layer_flags() {
    let doc = SpriteDocument::new_blank(2, 1, ColorMode::Indexed);
    let bytes = write_ase(&doc).unwrap();
    let offsets = chunk_offsets(&bytes);
    let cel = offsets[2];
    // Replace the compressed cel by a raw one holding two pixels.
    let mut b = bytes[..cel].to_vec();
    let mut data = bytes[cel + 6..cel + 6 + 20].to_vec();
    data[7] = 0;
    data.extend([4u8, 9]);
    b.extend(((data.len() + 6) as u32).to_le_bytes());
    b.extend(0x2005u16.to_le_bytes());
    b.extend(&data);
    let frame_size = (b.len() - 128) as u32;
    b[128..132].copy_from_slice(&frame_size.to_le_bytes());
    // A hidden group layer.
    let layer = offsets[1] + 6;
    b[layer] = 0;
    b[layer + 2] = 1;
    let back = read_ase(&b).unwrap();
    assert_eq!(back.layers[0].kind, pixelforge_core::document::LayerKind::Group { collapsed: false });
    assert!(!back.layers[0].visible);
    assert!(!back.layers[0].is_background);
    assert_eq!(back.images, vec![PixelGrid::Indexed { width: 2, height: 1, indices: vec![4, 9] }]);
}

#[test]
fn round_trip_keeps_tilemap_and_reference_layers() {
    let mut doc = SpriteDocument::new_blank(8, 8, ColorMode::Indexed);
    doc.add_reference_layer("Ref", pixelforge_core::document::ReferenceSource::Clipboard);
    doc.add_tilemap_layer("Tiles", 7, pixelforge_core::document::TilemapGrid::new(0, 0));
    let mut group = Layer::group("Folder", true);
    group.is_editable = false;
    doc.layers.push(group);
    doc.validate().unwrap();
    let bytes = write_ase(&doc).unwrap();
    let back = read_ase(&bytes).unwrap();
    assert_eq!(back.layers.len(), 4);
    for (a, b) in back.layers.iter().zip(doc.layers.iter()) {
        assert_eq!(a.name, b.name);
        assert_eq!(a.visible, b.visible);
        assert_eq!(a.is_editable, b.is_editable);
        assert_eq!(a.is_background, b.is_background);
        assert_eq!(a.kind, b.kind);
    }
}

#[test]
fn read_linked_cel_and_named_palette_entries() {
    let mut doc = SpriteDocument::new_blank(2, 1, ColorMode::Indexed);
    doc.set_frame_count(2);
    let bytes = write_ase(&doc).unwrap();
    // Frame 1: replace its cel by a link to frame 0.
    let frame1 = 128 + u32_at(&bytes, 128) as usize;
    let count = u32_at(&bytes, frame1 + 12) as usize;
    let mut at = frame1 + 16;
    let mut offsets = Vec::new();
    for _ in 0..count {
        offsets.push(at);
        at += u32_at(&bytes, at) as usize;
    }
    let cel = offsets[2];
    let mut data = bytes[cel + 6..cel + 6 + 16].to_vec();
    data[7] = 1;
    data.extend(0u16.to_le_bytes());
    let mut b = bytes[..cel].to_vec();
    b.extend(((data.len() + 6) as u32).to_le_bytes());
    b.extend(0x2005u16.to_le_bytes());
    b.extend(&data);
    let size = (b.len() - frame1) as u32;
    b[frame1..frame1 + 4].copy_from_slice(&size.to_le_bytes());
    // Frame 1 also sets palette entries 1..=2 from a chunk with a named entry.
    let mut pal = Vec::new();
    pal.extend(3u32.to_le_bytes());
    pal.extend(1u32.to_le_bytes());
    pal.extend(2u32.to_le_bytes());
    pal.extend([0u8; 8]);
    pal.extend(1u16.to_le_bytes());
    pal.extend([10, 20, 30, 40]);
    pal.extend(2u16.to_le_bytes());
    pal.extend(b"ok");
    pal.extend(0u16.to_le_bytes());
    pal.extend([50, 60, 70, 80]);
    b.extend(((pal.len() + 6) as u32).to_le_bytes());
    b.extend(0x2019u16.to_le_bytes());
    b.extend(&pal);
    let size = (b.len() - frame1) as u32;
    b[frame1..frame1 + 4].copy_from_slice(&size.to_le_bytes());
    b[frame1 + 12..frame1 + 16].copy_from_slice(&((count + 1) as u32).to_le_bytes());
    let back = read_ase(&b).unwrap();
    let linked = back.cel(0, 1).unwrap();
    assert_eq!(
        linked.link,
        CelLink::Linked { source: CelId { layer: 0, frame: 0 }, share_position: false }
    );
    assert_eq!(back.resolved_pixels(linked), back.resolved_pixels(back.cel(0, 0).unwrap()));
    assert_eq!(back.images.len(), 1);
    assert_eq!(back.palette.colors.len(), 3);
    assert_eq!(back.palette.colors[0], doc.palette.colors[0]);
    assert_eq!(back.palette.colors[1], pixelforge_core::document::Rgba { r: 10, g: 20, b: 30, a: 40 });
    assert_eq!(back.palette.colors[2], pixelforge_core::document::Rgba { r: 50, g: 60, b: 70, a: 80 });
}

#[test]
fn write_refuses_what_the_format_cannot_hold() {
    let mut doc = SpriteDocument::new_blank(1, 1, ColorMode::Indexed);
    doc.layers[0].name = "n".repeat(70000);
    match write_ase(&doc) {
        Err(CoreError::InvalidAse(m)) => assert_eq!(m, "layer name too long"),
        other => panic!("{:?}", other),
    }
    let mut doc = SpriteDocument::new_blank(1, 1, ColorMode::Indexed);
    doc.set_frame_count(70000);
    match write_ase(&doc) {
        Err(CoreError::InvalidAse(m)) => assert_eq!(m, "too many frames"),
        other => panic!("{:?}", other),
    }
}
