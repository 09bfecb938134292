use pixelforge_core::document::{
    BlendMode, CelId, CelLink, ColorMode, ColorProfile, FrameTag, Layer, LayerKind, ReferenceSource, Rgba,
    SliceBounds, SpriteDocument, TagDirection, TilemapGrid, TilesetRef,
};
use pixelforge_core::CoreError;

#[test]
fn blank_creation_indexed() {
    let doc = SpriteDocument::new_blank(16, 16, ColorMode::Indexed);
    doc.validate().expect("valid");
    assert_eq!(doc.width, 16);
    assert_eq!(doc.color_mode, ColorMode::Indexed);
    assert_eq!(doc.pixel_aspect, (1, 1));
    assert_eq!(doc.color_profile, ColorProfile::Srgb);
    assert!(doc.layers[0].is_background);
    assert!(doc.cel(0, 0).is_some());
    assert_eq!(doc.palette.get(1), Some(Rgba::white()));
}

#[test]
fn blank_creation_rgb_and_gray() {
    let rgb = SpriteDocument::new_blank(8, 8, ColorMode::Rgb);
    assert_eq!(rgb.images[0].mode(), ColorMode::Rgb);
    let gray = SpriteDocument::new_blank(8, 8, ColorMode::Grayscale);
    assert_eq!(gray.images[0].mode(), ColorMode::Grayscale);
}

#[test]
fn cel_grid_xy_and_z_index() {
    let mut doc = SpriteDocument::new_blank(16, 16, ColorMode::Indexed);
    doc.add_layer(Layer::normal("Layer 2"));
    let cel = doc.cel_mut(1, 0).unwrap();
    cel.x = 4;
    cel.y = -2;
    cel.z_index = 3;
    let ordered = doc.cels_in_frame(0);
    assert_eq!(ordered.last().unwrap().z_index, 3);
}

#[test]
fn background_rules() {
    let mut doc = SpriteDocument::new_blank(8, 8, ColorMode::Indexed);
    let err = doc.move_layer(0, 1).unwrap_err();
    assert!(matches!(err, CoreError::Validation(_)));

    let mut bad = doc.clone();
    bad.layers.push(Layer::background("Bg2"));
    assert!(bad.validate().is_err());
}

#[test]
fn layer_group_collapse() {
    let mut doc = SpriteDocument::new_blank(16, 16, ColorMode::Indexed);
    let gid = doc.add_group("Group", true);
    assert!(matches!(doc.layers[gid].kind, LayerKind::Group { collapsed: true }));
}

#[test]
fn linked_cels_share_pixels() {
    let mut doc = SpriteDocument::new_blank(8, 8, ColorMode::Indexed);
    doc.set_frame_count(2);
    doc.link_cels(CelId { layer: 0, frame: 0 }, CelId { layer: 0, frame: 1 }, false)
        .unwrap();
    let img0 = doc.cel(0, 0).unwrap().image_id;
    let img1 = doc.cel(0, 1).unwrap().image_id;
    assert_eq!(img0, img1);

    doc.unlink_cel(0, 1).unwrap();
    let img1_after = doc.cel(0, 1).unwrap().image_id;
    assert_ne!(img0, img1_after);
}

#[test]
fn metadata_user_data() {
    let mut doc = SpriteDocument::new_blank(8, 8, ColorMode::Indexed);
    doc.user_data = b"pixelforge-test".to_vec();
    doc.pixel_aspect = (2, 1);
    doc.validate().unwrap();
    assert_eq!(doc.user_data, b"pixelforge-test");
    assert_eq!(doc.pixel_aspect, (2, 1));
}

#[test]
fn tilemap_and_reference_layers() {
    let mut doc = SpriteDocument::new_blank(32, 32, ColorMode::Indexed);
    let ts = doc.attach_tileset(TilesetRef {
        name: "tiles".into(),
        tile_width: 16,
        tile_height: 16,
        external_path: None,
    });
    doc.add_tilemap_layer("Map", ts, TilemapGrid::new(4, 4));
    doc.add_reference_layer(
        "Ref",
        ReferenceSource::FilePath {
            path: "ref.aseprite".into(),
        },
    );
    doc.validate().unwrap();
}

#[test]
fn set_frame_count() {
    let mut doc = SpriteDocument::new_blank(8, 8, ColorMode::Indexed);
    doc.set_frame_count(4);
    assert_eq!(doc.frames.len(), 4);
    assert!(doc.cel(0, 3).is_some());
}

#[test]
fn snapshot_document_clone_is_equal() {
    let mut doc = SpriteDocument::new_blank(16, 16, ColorMode::Indexed);
    doc.add_layer(Layer::normal("Foreground"));
    doc.add_tag(FrameTag {
        name: "walk".into(),
        from_frame: 0,
        to_frame: 3,
        direction: TagDirection::Forward,
        repeat: 0,
    });
    doc.add_slice(
        "panel",
        SliceBounds {
            x: 2,
            y: 2,
            width: 12,
            height: 12,
        },
    );
    let back = doc.clone();
    assert_eq!(doc, back);
    assert_eq!(back.tags[0].name, "walk");
    assert_eq!(back.slices[0].name, "panel");
    assert_eq!(back.slices[0].pivot, None);
}

#[test]
fn blend_mode_and_opacity_kept_by_clone() {
    let mut doc = SpriteDocument::new_blank(8, 8, ColorMode::Rgb);
    doc.layers[0].blend_mode = BlendMode::Multiply;
    doc.cel_mut(0, 0).unwrap().opacity = 128;
    let back = doc.clone();
    assert_eq!(back.layers[0].blend_mode, BlendMode::Multiply);
    assert_eq!(back.cel(0, 0).unwrap().opacity, 128);
}

#[test]
fn blank_document_shape() {
    let doc = SpriteDocument::new_blank(3, 2, ColorMode::Rgb);
    assert_eq!(doc.frames.len(), 1);
    assert_eq!(doc.frames[0].duration_ms, 100);
    assert_eq!(doc.layers.len(), 1);
    assert_eq!(doc.layers[0].name, "Background");
    assert_eq!(doc.layers[0].opacity, 255);
    assert_eq!(doc.images.len(), 1);
    assert_eq!(doc.images[0].width(), 3);
    assert_eq!(doc.images[0].height(), 2);
    assert!(doc.palette.colors.is_empty());
    assert_eq!(doc.cels.len(), 1);
    assert_eq!(doc.cels[0].link, CelLink::Unlinked);
    assert!(doc.tags.is_empty() && doc.slices.is_empty() && doc.tilesets.is_empty());
    assert_eq!(doc.image(0).unwrap().mode(), ColorMode::Rgb);
    assert!(doc.image(1).is_none());
    let indexed = SpriteDocument::new_blank(3, 2, ColorMode::Indexed);
    assert_eq!(indexed.palette.len(), 256);
    assert_eq!(indexed.palette.get(0), Some(Rgba::transparent()));
}

#[test]
fn blank_documents_validate_at_the_size_limits() {
    for mode in [ColorMode::Indexed, ColorMode::Grayscale, ColorMode::Rgb] {
        assert!(SpriteDocument::new_blank(1, 1, mode).validate().is_ok());
    }
    assert!(SpriteDocument::new_blank(65535, 1, ColorMode::Indexed).validate().is_ok());
}

fn validation_message(doc: &SpriteDocument) -> String {
    match doc.validate() {
        Err(CoreError::Validation(m)) => m,
        other => panic!("expected a validation error, got {:?}", other),
    }
}

#[test]
fn validation_errors_in_order() {
    let blank = SpriteDocument::new_blank(8, 8, ColorMode::Indexed);

    let mut d = blank.clone();
    d.width = 0;
    assert_eq!(validation_message(&d), "canvas dimensions must be > 0");

    let mut d = blank.clone();
    d.height = 70000;
    assert_eq!(validation_message(&d), "canvas dimensions exceed ASE limit");

    let mut d = blank.clone();
    d.frames.clear();
    assert_eq!(validation_message(&d), "sprite must have at least one frame");

    let mut d = blank.clone();
    d.layers.clear();
    assert_eq!(validation_message(&d), "sprite must have at least one layer");

    let mut d = blank.clone();
    d.layers.push(Layer::background("Bg2"));
    d.layers.push(Layer::background("Bg3"));
    assert_eq!(validation_message(&d), "expected exactly one background layer, found 3");

    let mut d = blank.clone();
    d.layers[0].is_background = false;
    assert_eq!(validation_message(&d), "expected exactly one background layer, found 0");

    let mut d = blank.clone();
    d.layers.insert(0, Layer::normal("Top"));
    assert_eq!(validation_message(&d), "background layer must be at stack index 0");

    let mut d = blank.clone();
    d.layers[0].opacity = 10;
    assert_eq!(validation_message(&d), "background layer must be fully opaque");

    let mut d = blank.clone();
    d.palette.colors.push(Rgba::white());
    assert_eq!(validation_message(&d), "indexed palette exceeds 256 colors");

    let mut d = blank.clone();
    d.layers[0].parent = Some(5);
    assert_eq!(validation_message(&d), "invalid layer parent index");

    let mut d = blank.clone();
    d.cels[0].frame = 1;
    assert_eq!(validation_message(&d), "cel references invalid layer or frame");

    let mut d = blank.clone();
    d.cels[0].image_id = 1;
    assert_eq!(validation_message(&d), "cel references invalid image");

    let mut d = blank.clone();
    d.add_group("Folder", false);
    assert_eq!(validation_message(&d), "layer 'Folder' does not accept cels");

    let mut d = blank.clone();
    d.attach_tileset(TilesetRef {
        name: "t".into(),
        tile_width: 0,
        tile_height: 8,
        external_path: None,
    });
    assert_eq!(validation_message(&d), "tileset tile size must be > 0");
}

#[test]
fn move_layer_errors_and_moves() {
    let mut doc = SpriteDocument::new_blank(8, 8, ColorMode::Indexed);
    doc.add_layer(Layer::normal("A"));
    doc.add_layer(Layer::normal("B"));
    match doc.move_layer(3, 1) {
        Err(CoreError::Validation(m)) => assert_eq!(m, "layer index out of range"),
        other => panic!("{:?}", other),
    }
    match doc.move_layer(2, 0) {
        Err(CoreError::Validation(m)) => assert_eq!(m, "background layer cannot be moved"),
        other => panic!("{:?}", other),
    }
    doc.move_layer(2, 1).unwrap();
    assert_eq!(doc.layers[1].name, "B");
    assert_eq!(doc.layers[2].name, "A");
    assert!(doc.layers[0].is_background);
}

#[test]
fn link_and_unlink_errors() {
    let mut doc = SpriteDocument::new_blank(8, 8, ColorMode::Indexed);
    match doc.link_cels(CelId { layer: 0, frame: 5 }, CelId { layer: 0, frame: 0 }, true) {
        Err(CoreError::Validation(m)) => assert_eq!(m, "source cel missing"),
        other => panic!("{:?}", other),
    }
    match doc.link_cels(CelId { layer: 0, frame: 0 }, CelId { layer: 3, frame: 0 }, true) {
        Err(CoreError::Validation(m)) => assert_eq!(m, "target cel missing"),
        other => panic!("{:?}", other),
    }
    match doc.unlink_cel(2, 2) {
        Err(CoreError::Validation(m)) => assert_eq!(m, "cel missing"),
        other => panic!("{:?}", other),
    }
    let before = doc.clone();
    doc.unlink_cel(0, 0).unwrap();
    assert_eq!(doc, before);
}

#[test]
fn link_with_shared_position_copies_position() {
    let mut doc = SpriteDocument::new_blank(8, 8, ColorMode::Indexed);
    doc.set_frame_count(2);
    doc.cel_mut(0, 0).unwrap().x = 5;
    doc.cel_mut(0, 0).unwrap().y = -3;
    doc.link_cels(CelId { layer: 0, frame: 0 }, CelId { layer: 0, frame: 1 }, true)
        .unwrap();
    let c = doc.cel(0, 1).unwrap();
    assert_eq!((c.x, c.y), (5, -3));
    assert_eq!(
        c.link,
        CelLink::Linked {
            source: CelId { layer: 0, frame: 0 },
            share_position: true
        }
    );
    let px = doc.resolved_pixels(c).unwrap();
    assert_eq!(px, &doc.images[0]);
}

#[test]
fn unlink_copies_the_linked_pixels() {
    let mut doc = SpriteDocument::new_blank(2, 1, ColorMode::Indexed);
    doc.set_frame_count(2);
    if let pixelforge_core::document::PixelGrid::Indexed { indices, .. } = &mut doc.images[0] {
        indices[1] = 7;
    }
    doc.link_cels(CelId { layer: 0, frame: 0 }, CelId { layer: 0, frame: 1 }, false)
        .unwrap();
    doc.unlink_cel(0, 1).unwrap();
    let c = *doc.cel(0, 1).unwrap();
    assert_eq!(c.link, CelLink::Unlinked);
    assert_eq!(c.image_id, 2);
    assert_eq!(doc.images[2], doc.images[0]);
}

#[test]
fn add_frame_copies_previous_cels() {
    let mut doc = SpriteDocument::new_blank(4, 4, ColorMode::Grayscale);
    doc.cel_mut(0, 0).unwrap().opacity = 9;
    doc.cel_mut(0, 0).unwrap().z_index = -2;
    let f = doc.add_frame();
    assert_eq!(f, 1);
    assert_eq!(doc.frames.len(), 2);
    assert_eq!(doc.frames[1].duration_ms, 100);
    let c = *doc.cel(0, 1).unwrap();
    assert_eq!((c.opacity, c.z_index, c.image_id), (9, -2, 1));
    assert_eq!(doc.images[1], doc.images[0]);
}

#[test]
fn set_frame_count_drops_frames_and_their_cels() {
    let mut doc = SpriteDocument::new_blank(8, 8, ColorMode::Indexed);
    doc.set_frame_count(5);
    assert_eq!(doc.cels.len(), 5);
    doc.set_frame_count(2);
    assert_eq!(doc.frames.len(), 2);
    assert_eq!(doc.cels.len(), 2);
    assert!(doc.cel(0, 2).is_none());
    assert_eq!(doc.images.len(), 5);
    doc.set_frame_count(2);
    assert_eq!(doc.frames.len(), 2);
}

#[test]
fn add_layer_gives_each_frame_an_empty_cel() {
    let mut doc = SpriteDocument::new_blank(8, 8, ColorMode::Indexed);
    doc.set_frame_count(3);
    let idx = doc.add_layer(Layer::normal("Ink"));
    assert_eq!(idx, 1);
    for frame in 0..3 {
        let c = doc.cel(1, frame).unwrap();
        assert_eq!((c.x, c.y, c.opacity, c.z_index), (0, 0, 255, 0));
        assert_eq!(c.image_id, 3 + frame);
    }
    doc.validate().unwrap();
}

#[test]
fn reference_layers_are_not_editable_and_hold_no_cels() {
    let mut doc = SpriteDocument::new_blank(8, 8, ColorMode::Indexed);
    let idx = doc.add_reference_layer("Ref", ReferenceSource::Clipboard);
    assert_eq!(idx, 1);
    assert!(!doc.layers[1].is_editable);
    assert!(!doc.layers[1].accepts_cels());
    assert!(doc.cel(1, 0).is_none());
}

#[test]
fn cels_in_frame_sort_stably_by_z_index() {
    let mut doc = SpriteDocument::new_blank(8, 8, ColorMode::Indexed);
    doc.add_layer(Layer::normal("A"));
    doc.add_layer(Layer::normal("B"));
    doc.add_layer(Layer::normal("C"));
    doc.set_frame_count(2);
    doc.cel_mut(0, 0).unwrap().z_index = 2;
    doc.cel_mut(1, 0).unwrap().z_index = 1;
    doc.cel_mut(2, 0).unwrap().z_index = 2;
    doc.cel_mut(3, 0).unwrap().z_index = -1;
    let order: Vec<usize> = doc.cels_in_frame(0).iter().map(|c| c.layer).collect();
    assert_eq!(order, vec![3, 1, 0, 2]);
    assert_eq!(doc.cels_in_frame(1).len(), 4);
    assert!(doc.cels_in_frame(7).is_empty());
}

#[test]
fn cel_id_of_a_cel() {
    let doc = SpriteDocument::new_blank(8, 8, ColorMode::Indexed);
    assert_eq!(doc.cels[0].id(), CelId { layer: 0, frame: 0 });
}

#[test]
fn frames_added_to_a_valid_document_keep_it_valid() {
    let mut doc = SpriteDocument::new_blank(8, 8, ColorMode::Rgb);
    doc.add_layer(Layer::normal("Ink"));
    doc.set_frame_count(6);
    doc.validate().unwrap();
    doc.set_frame_count(1);
    doc.validate().unwrap();
    assert_eq!(doc.cels.len(), 2);
}

#[test]
fn links_still_resolve_after_adding_a_frame() {
    let mut doc = SpriteDocument::new_blank(8, 8, ColorMode::Indexed);
    doc.set_frame_count(2);
    doc.link_cels(CelId { layer: 0, frame: 0 }, CelId { layer: 0, frame: 1 }, false)
        .unwrap();
    doc.add_frame();
    let linked = *doc.cel(0, 1).unwrap();
    assert_eq!(doc.resolved_pixels(&linked), Some(&doc.images[0]));
    let copied = *doc.cel(0, 2).unwrap();
    assert_eq!(copied.link, CelLink::Unlinked);
    assert_eq!(doc.images[copied.image_id], doc.images[0]);
}

#[test]
fn unlink_twice_is_unlink_once() {
    let mut doc = SpriteDocument::new_blank(4, 4, ColorMode::Indexed);
    doc.set_frame_count(2);
    doc.link_cels(CelId { layer: 0, frame: 0 }, CelId { layer: 0, frame: 1 }, true)
        .unwrap();
    doc.unlink_cel(0, 1).unwrap();
    let once = doc.clone();
    doc.unlink_cel(0, 1).unwrap();
    assert_eq!(doc, once);
    assert_eq!(doc.cel(0, 1).unwrap().link, CelLink::Unlinked);
}

#[test]
fn add_layer_under_existing_parent_keeps_valid() {
    let mut doc = SpriteDocument::new_blank(4, 4, ColorMode::Indexed);
    let mut child = Layer::normal("Child");
    child.parent = Some(0);
    doc.add_layer(child);
    assert!(doc.validate().is_ok());
    let mut own = Layer::normal("Own");
    own.parent = Some(doc.layers.len());
    doc.add_layer(own);
    assert!(doc.validate().is_ok());
}

#[test]
fn cels_resolvable_finds_endless_links() {
    let mut doc = SpriteDocument::new_blank(4, 4, ColorMode::Indexed);
    doc.set_frame_count(2);
    assert!(doc.cels_resolvable());
    doc.cels[0].link = CelLink::Linked { source: CelId { layer: 0, frame: 1 }, share_position: false };
    assert!(doc.cels_resolvable());
    doc.cels[1].link = CelLink::Linked { source: CelId { layer: 0, frame: 0 }, share_position: false };
    assert!(!doc.cels_resolvable());
    assert!(!doc.chain_ends(0));
    doc.color_mode = ColorMode::Rgb;
    assert!(doc.cels_resolvable());
}
