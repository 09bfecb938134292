use pixelforge_core::document::{ColorMode, Palette, PixelGrid, Rgba, TilemapGrid};
use pixelforge_core::fixtures::{doc_for_entry, parse_size_from_file, ManifestEntry};
use pixelforge_core::postprocess::{process_rgba, OutlineMode, PostProcessOptions};

#[test]
fn palette_default_and_lookup() {
    let p = Palette::indexed_default();
    assert_eq!(p.len(), Palette::MAX_COLORS);
    assert_eq!(p.get(1), Some(Rgba::white()));
    assert_eq!(p.get(255), Some(Rgba::transparent()));
    let short = Palette { colors: vec![Rgba::white()] };
    assert_eq!(short.get(0), Some(Rgba::white()));
    assert_eq!(short.get(1), None);
    assert_eq!(Palette::default(), p);
}

#[test]
fn pixel_grid_sizes() {
    let g = PixelGrid::new_empty(3, 2, ColorMode::Rgb);
    assert_eq!((g.width(), g.height(), g.mode()), (3, 2, ColorMode::Rgb));
    assert!(g.indexed_indices().is_none());
    match &g {
        PixelGrid::Rgb { rgba, .. } => assert_eq!(rgba.len(), 24),
        _ => panic!(),
    }
    let i = PixelGrid::new_empty(3, 2, ColorMode::Indexed);
    assert_eq!(i.indexed_indices().unwrap(), &[0u8; 6][..]);
    let z = PixelGrid::new_empty(0, 9, ColorMode::Grayscale);
    match &z {
        PixelGrid::Grayscale { values, .. } => assert!(values.is_empty()),
        _ => panic!(),
    }
}

#[test]
fn tilemap_grid_new() {
    let t = TilemapGrid::new(4, 3);
    assert_eq!(t.tiles, vec![0u32; 12]);
    assert_eq!(TilemapGrid::new(0, 5).tiles.len(), 0);
}

fn opts(tw: u32, th: u32, max_colors: u8, despeckle: bool) -> PostProcessOptions {
    PostProcessOptions {
        target_width: tw,
        target_height: th,
        max_colors,
        dither: false,
        despeckle,
        outline: OutlineMode::default(),
    }
}

#[test]
fn post_process_rejects_short_or_empty_input() {
    let o = opts(16, 16, 8, true);
    assert!(process_rgba(&[1, 2, 3], 1, 1, &o).is_empty());
    assert!(process_rgba(&[1, 2, 3, 4], 0, 1, &o).is_empty());
    assert!(process_rgba(&[1, 2, 3, 4], 1, 1, &opts(0, 4, 8, false)).is_empty());
    assert_eq!(o.outline, OutlineMode::NoOutline);
}

#[test]
fn post_process_upscales_one_pixel() {
    let out = process_rgba(&[1, 2, 3, 4], 1, 1, &opts(2, 2, 8, true));
    assert_eq!(out, vec![1, 2, 3, 4, 1, 2, 3, 4, 1, 2, 3, 4, 1, 2, 3, 4]);
}

#[test]
fn post_process_nearest_neighbour_downscale() {
    // 4x1 image: red, green, blue, white; halved to 2x1 samples columns 0 and 2.
    let src = [255, 0, 0, 255, 0, 255, 0, 255, 0, 0, 255, 255, 255, 255, 255, 255];
    let out = process_rgba(&src, 4, 1, &opts(2, 1, 8, false));
    assert_eq!(out, vec![255, 0, 0, 255, 0, 0, 255, 255]);
}

#[test]
fn post_process_quantizes_to_nearest_palette_colour() {
    // With one colour allowed, every pixel takes the first colour seen.
    let src = [10, 10, 10, 255, 200, 200, 200, 255];
    let out = process_rgba(&src, 2, 1, &opts(2, 1, 1, false));
    assert_eq!(out, vec![10, 10, 10, 255, 10, 10, 10, 255]);
    // Two colours allowed: black, white; grey 100 is nearer black, 180 nearer white.
    let src = [0, 0, 0, 255, 255, 255, 255, 255, 100, 100, 100, 255, 180, 180, 180, 255];
    let out = process_rgba(&src, 4, 1, &opts(4, 1, 2, false));
    assert_eq!(
        out,
        vec![0, 0, 0, 255, 255, 255, 255, 255, 0, 0, 0, 255, 255, 255, 255, 255]
    );
}

#[test]
fn post_process_despeckles_lone_pixel() {
    let mut src = Vec::new();
    for i in 0..9 {
        if i == 4 {
            src.extend([9, 9, 9, 255]);
        } else {
            src.extend([1, 1, 1, 255]);
        }
    }
    let kept = process_rgba(&src, 3, 3, &opts(3, 3, 8, false));
    assert_eq!(&kept[16..20], &[9, 9, 9, 255]);
    let cleaned = process_rgba(&src, 3, 3, &opts(3, 3, 8, true));
    assert_eq!(cleaned, [1u8, 1, 1, 255].repeat(9));
}

#[test]
fn fixture_file_names() {
    assert_eq!(parse_size_from_file("blank_16x16.aseprite"), Some((16, 16, 1)));
    assert_eq!(parse_size_from_file("blank_32x8_4f.aseprite"), Some((32, 8, 4)));
    assert_eq!(parse_size_from_file("blank_32x8_extra_+4f.aseprite"), Some((32, 8, 4)));
    assert_eq!(parse_size_from_file("blank_16x16"), None);
    assert_eq!(parse_size_from_file("other_16x16.aseprite"), None);
    assert_eq!(parse_size_from_file("blank.aseprite"), None);
    assert_eq!(parse_size_from_file("blank_16x16x2.aseprite"), None);
    assert_eq!(parse_size_from_file("blank_16x.aseprite"), None);
    assert_eq!(parse_size_from_file("blank_16x16_af.aseprite"), None);
    assert_eq!(parse_size_from_file("blank_16x16_f.aseprite"), None);
    assert_eq!(parse_size_from_file("blank_4294967296x1.aseprite"), None);
    assert_eq!(parse_size_from_file("blank_4294967295x1.aseprite"), Some((4294967295, 1, 1)));
    assert_eq!(parse_size_from_file("blank_8x8f.aseprite"), None);
}

#[test]
fn fixture_entries() {
    let by_name = ManifestEntry {
        id: "RT-002".into(),
        file: "blank_8x4_3f.aseprite".into(),
        source: "rust".into(),
        frames: None,
        width: None,
        height: None,
    };
    let doc = doc_for_entry(&by_name).unwrap();
    assert_eq!((doc.width, doc.height, doc.frames.len()), (8, 4, 3));
    let explicit = ManifestEntry {
        id: "RT-003".into(),
        file: "whatever.aseprite".into(),
        source: "rust".into(),
        frames: None,
        width: Some(5),
        height: Some(6),
    };
    let doc = doc_for_entry(&explicit).unwrap();
    assert_eq!((doc.width, doc.height, doc.frames.len()), (5, 6, 1));
    let unknown = ManifestEntry { width: None, ..explicit };
    assert!(doc_for_entry(&unknown).is_none());
}
