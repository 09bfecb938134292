//! Properties that hold across the document operations.

use vstd::prelude::*;

use super::cel::{Cel, CelId, CelLink};
use super::edit::{add_layer_model, linked_cel, new_layer_cel, unlink_model, unlink_ok};
use super::layer::{LayerKindView, LayerView};
use super::model::{
    cel_is_at, add_frame_model, add_frames, before_frame, blank_cel, blank_doc, copy_step, copy_steps, find_cel,
    lemma_add_frame_shape, lemma_resolved_image_id, resolve_within, resolved_image_id, resolved_pixels_of,
    lemma_add_frames_shape, lemma_copy_steps_frame, lemma_find_cel, lemma_find_cel_same_positions,
    previous_frame, set_frame_count_model, with_new_frame,
};
use super::pixels::{ColorMode, empty_grid, grid_fits};
use super::sprite::DocView;
use super::tileset::TilesetRefView;
use super::validate::{
    background_count, bad_parent, bad_tileset, cel_problem, first_cel_problem, is_valid,
    lemma_first_cel_problem_none,
};

verus! {

/// A blank sprite keeps every rule of the document model, for every canvas
/// size the format allows and every colour mode.
pub proof fn lemma_blank_is_valid(width: u32, height: u32, mode: ColorMode)
    requires
        1 <= width <= 0xffff,
        1 <= height <= 0xffff,
    ensures
        is_valid(blank_doc(width, height, mode)),
{
    let d = blank_doc(width, height, mode);
    assert(background_count(d.layers, 1) == 1) by {
        assert(background_count(d.layers, 0) == 0);
    }
    assert(!bad_parent(d, 0));
    assert(d.cels[0] == blank_cel());
    assert(first_cel_problem(d, 0) is None);
    assert(cel_problem(d, d.cels[0]) is None);
    assert(first_cel_problem(d, 1) is None);
}

/// The background count of a sequence with one more layer on top.
proof fn lemma_background_count_push(layers: Seq<LayerView>, l: LayerView, n: nat)
    requires
        n <= layers.len(),
    ensures
        background_count(layers.push(l), n) == background_count(layers, n),
        n == layers.len() ==> background_count(layers.push(l), layers.len() + 1) == background_count(
            layers,
            layers.len(),
        ) + if l.is_background {
            1nat
        } else {
            0nat
        },
    decreases n,
{
    if n > 0 {
        lemma_background_count_push(layers, l, (n - 1) as nat);
        assert(layers.push(l)[n - 1] == layers[n - 1]);
    }
    if n == layers.len() {
        assert(layers.push(l)[layers.len() as int] == l);
    }
}

/// Cel checks do not change when a layer is pushed on top and the existing cels stay.
proof fn lemma_first_cel_problem_push_layer(d: DocView, e: DocView, n: nat)
    requires
        e.layers.len() == d.layers.len() + 1,
        forall|k: int| 0 <= k < d.layers.len() ==> e.layers[k] == d.layers[k],
        e.frames == d.frames,
        e.images.len() >= d.images.len(),
        e.cels.len() >= d.cels.len(),
        forall|k: int| 0 <= k < d.cels.len() ==> e.cels[k] == d.cels[k],
        n <= d.cels.len(),
        first_cel_problem(d, n) is None,
    ensures
        first_cel_problem(e, n) is None,
    decreases n,
{
    if n > 0 {
        lemma_first_cel_problem_push_layer(d, e, (n - 1) as nat);
        let c = d.cels[n - 1];
        assert(e.cels[n - 1] == c);
        assert(cel_problem(d, c) is None);
        assert(e.layers[c.layer as int] == d.layers[c.layer as int]);
    }
}

/// Pushing a layer that is not a background and has no parent, without
/// touching the cels, keeps a valid document valid: this is what
/// `add_reference_layer` and `add_tilemap_layer` do.
pub proof fn lemma_push_layer_keeps_valid(d: DocView, l: LayerView)
    requires
        is_valid(d),
        !l.is_background,
        l.parent is None,
    ensures
        is_valid(DocView { layers: d.layers.push(l), ..d }),
{
    let e = DocView { layers: d.layers.push(l), ..d };
    lemma_background_count_push(d.layers, l, d.layers.len());
    assert(e.layers[0] == d.layers[0]);
    assert forall|i: int| 0 <= i < e.layers.len() implies !#[trigger] bad_parent(e, i) by {
        if i < d.layers.len() {
            assert(e.layers[i] == d.layers[i]);
            assert(!bad_parent(d, i));
        } else {
            assert(e.layers[i] == l);
        }
    }
    lemma_first_cel_problem_push_layer(d, e, d.cels.len());
    assert forall|i: int| 0 <= i < e.tilesets.len() implies !#[trigger] bad_tileset(e, i) by {
        assert(!bad_tileset(d, i));
    }
}

/// The cel checks look only at the layers, frames, images and cels.
proof fn lemma_first_cel_problem_same(d: DocView, e: DocView, n: nat)
    requires
        e.layers == d.layers,
        e.frames == d.frames,
        e.images == d.images,
        e.cels == d.cels,
    ensures
        first_cel_problem(e, n) == first_cel_problem(d, n),
    decreases n,
{
    if n > 0 {
        lemma_first_cel_problem_same(d, e, (n - 1) as nat);
    }
}

/// Attaching a tileset whose tiles have a positive size keeps a valid document valid.
pub proof fn lemma_attach_tileset_keeps_valid(d: DocView, t: TilesetRefView)
    requires
        is_valid(d),
        t.tile_width > 0,
        t.tile_height > 0,
    ensures
        is_valid(DocView { tilesets: d.tilesets.push(t), ..d }),
{
    let e = DocView { tilesets: d.tilesets.push(t), ..d };
    lemma_first_cel_problem_same(d, e, d.cels.len());
    assert forall|i: int| 0 <= i < e.layers.len() implies !#[trigger] bad_parent(e, i) by {
        assert(!bad_parent(d, i));
    }
    assert forall|i: int| 0 <= i < e.tilesets.len() implies !#[trigger] bad_tileset(e, i) by {
        if i < d.tilesets.len() {
            assert(!bad_tileset(d, i));
        }
    }
}

/// After `link_cels` succeeds, looking up the target cel finds a cel that
/// shows the source's image and links to the source.
pub proof fn lemma_link_shares_image(d: DocView, from: CelId, to: CelId, share_position: bool)
    requires
        find_cel(d.cels, from.layer, from.frame) is Some,
        find_cel(d.cels, to.layer, to.frame) is Some,
    ensures
        ({
            let i = find_cel(d.cels, from.layer, from.frame)->Some_0;
            let j = find_cel(d.cels, to.layer, to.frame)->Some_0;
            let cels = d.cels.update(j, linked_cel(d.cels[j], d.cels[i], from, share_position));
            &&& find_cel(cels, to.layer, to.frame) == Some(j)
            &&& cels[j].image_id == d.cels[i].image_id
            &&& cels[j].link == (CelLink::Linked { source: from, share_position })
        }),
{
    let i = find_cel(d.cels, from.layer, from.frame)->Some_0;
    let j = find_cel(d.cels, to.layer, to.frame)->Some_0;
    lemma_find_cel(d.cels, from.layer, from.frame);
    lemma_find_cel(d.cels, to.layer, to.frame);
    let cels = d.cels.update(j, linked_cel(d.cels[j], d.cels[i], from, share_position));
    lemma_find_cel_same_positions(cels, d.cels, to.layer, to.frame);
}

/// Unlinking gives the cel an image that no other cel shows, when every cel
/// showed an existing image before.
pub proof fn lemma_unlink_fresh_image(d: DocView, i: int)
    requires
        0 <= i < d.cels.len(),
        forall|k: int| 0 <= k < d.cels.len() ==> (#[trigger] d.cels[k]).image_id < d.images.len(),
        d.images.len() <= usize::MAX,
    ensures
        ({
            let cels = d.cels.update(
                i,
                Cel { image_id: d.images.len() as usize, link: CelLink::Unlinked, ..d.cels[i] },
            );
            forall|k: int| 0 <= k < cels.len() && k != i ==> (#[trigger] cels[k]).image_id != cels[i].image_id
        }),
{
}

/// Adding a normal, non-background layer whose parent, if any, is one of the
/// document's layers or the new layer's own index to a valid document keeps it valid.
pub proof fn lemma_add_normal_layer_keeps_valid(d: DocView, l: LayerView)
    requires
        is_valid(d),
        l.kind is Normal,
        !l.is_background,
        l.parent matches Some(p) ==> p <= d.layers.len(),
        d.images.len() + d.frames.len() <= usize::MAX,
        d.layers.len() < usize::MAX,
    ensures
        is_valid(add_layer_model(d, l)),
{
    let e = add_layer_model(d, l);
    let nf = d.frames.len();
    lemma_background_count_push(d.layers, l, d.layers.len());
    assert(e.layers[0] == d.layers[0]);
    assert forall|i: int| 0 <= i < e.layers.len() implies !#[trigger] bad_parent(e, i) by {
        if i < d.layers.len() {
            assert(e.layers[i] == d.layers[i]);
            assert(!bad_parent(d, i));
        } else {
            assert(e.layers[i] == l);
        }
    }
    assert forall|k: int| 0 <= k < d.layers.len() implies e.layers[k] == d.layers[k] by {}
    assert forall|k: int| 0 <= k < d.cels.len() implies e.cels[k] == d.cels[k] by {}
    lemma_first_cel_problem_push_layer(d, e, d.cels.len());
    lemma_new_layer_cels_ok(d, l, e, (d.cels.len() + nf) as nat);
    assert forall|i: int| 0 <= i < e.tilesets.len() implies !#[trigger] bad_tileset(e, i) by {
        assert(!bad_tileset(d, i));
    }
}

/// The empty cels of a new normal layer pass the cel checks.
proof fn lemma_new_layer_cels_ok(d: DocView, l: LayerView, e: DocView, n: nat)
    requires
        e == add_layer_model(d, l),
        l.kind is Normal,
        d.cels.len() <= n <= e.cels.len(),
        first_cel_problem(e, d.cels.len()) is None,
        d.images.len() + d.frames.len() <= usize::MAX,
        d.layers.len() < usize::MAX,
    ensures
        first_cel_problem(e, n) is None,
    decreases n,
{
    if n > d.cels.len() {
        lemma_new_layer_cels_ok(d, l, e, (n - 1) as nat);
        let f = n - 1 - d.cels.len();
        assert(e.cels[n - 1] == new_layer_cel(d.layers.len() as usize, f as usize, (d.images.len() + f) as usize));
        assert(e.layers[d.layers.len() as int] == l);
    }
}

/// Two documents that differ at most in their frames (not their number of
/// frames being zero), cels and images keep the same rules for everything else.
proof fn lemma_valid_from_cels(d: DocView, e: DocView)
    requires
        is_valid(d),
        e.width == d.width,
        e.height == d.height,
        e.color_mode == d.color_mode,
        e.palette == d.palette,
        e.layers == d.layers,
        e.tilesets == d.tilesets,
        e.frames.len() > 0,
        forall|j: int| 0 <= j < e.cels.len() ==> (#[trigger] cel_problem(e, e.cels[j])) is None,
    ensures
        is_valid(e),
{
    lemma_first_cel_problem_none(e, e.cels.len());
    assert forall|i: int| 0 <= i < e.layers.len() implies !#[trigger] bad_parent(e, i) by {
        assert(!bad_parent(d, i));
    }
    assert forall|i: int| 0 <= i < e.tilesets.len() implies !#[trigger] bad_tileset(e, i) by {
        assert(!bad_tileset(d, i));
    }
}

/// Adding a frame keeps a valid document valid.
pub proof fn lemma_add_frame_keeps_valid(d: DocView)
    requires
        is_valid(d),
        d.frames.len() < usize::MAX,
        d.layers.len() <= usize::MAX,
    ensures
        is_valid(add_frame_model(d)),
{
    let e = add_frame_model(d);
    let frame = d.frames.len() as usize;
    lemma_add_frame_shape(d);
    lemma_copy_steps_frame(with_new_frame(d), frame, previous_frame(frame), d.layers.len());
    lemma_first_cel_problem_none(d, d.cels.len());
    assert forall|j: int| 0 <= j < e.cels.len() implies (#[trigger] cel_problem(e, e.cels[j])) is None by {
        if j < d.cels.len() {
            assert(e.cels[j] == d.cels[j]);
            assert(cel_problem(d, d.cels[j]) is None);
        }
    }
    lemma_valid_from_cels(d, e);
}

/// Adding frames keeps a valid document valid.
pub proof fn lemma_add_frames_keep_valid(d: DocView, n: nat)
    requires
        is_valid(d),
        d.frames.len() + n <= usize::MAX,
        d.layers.len() <= usize::MAX,
    ensures
        is_valid(add_frames(d, n)),
    decreases n,
{
    if n > 0 {
        lemma_add_frames_keep_valid(d, (n - 1) as nat);
        lemma_add_frames_shape(d, (n - 1) as nat);
        lemma_add_frame_keeps_valid(add_frames(d, (n - 1) as nat));
    }
}

/// Setting the number of frames to one or more keeps a valid document valid:
/// frames are added with copies of their cels, or dropped with theirs.
pub proof fn lemma_set_frame_count_keeps_valid(d: DocView, count: nat)
    requires
        is_valid(d),
        1 <= count <= usize::MAX,
        d.layers.len() <= usize::MAX,
    ensures
        is_valid(set_frame_count_model(d, count)),
{
    broadcast use vstd::seq_lib::group_filter_ensures;

    if d.frames.len() < count {
        lemma_add_frames_keep_valid(d, (count - d.frames.len()) as nat);
    } else if d.frames.len() > count {
        let e = set_frame_count_model(d, count);
        lemma_first_cel_problem_none(d, d.cels.len());
        assert forall|j: int| 0 <= j < e.cels.len() implies (#[trigger] cel_problem(e, e.cels[j])) is None by {
            let c = e.cels[j];
            assert(d.cels.filter(before_frame(count)).contains(c));
            d.cels.lemma_filter_contains_rev(before_frame(count), c);
            let k = choose|k: int| 0 <= k < d.cels.len() && d.cels[k] == c;
            assert(cel_problem(d, d.cels[k]) is None);
            assert(before_frame(count)(c));
        }
        lemma_valid_from_cels(d, e);
    }
}

/// A blank sprite after frames were added: its one background layer has, in
/// frame `k`, one unlinked cel showing image `k`, and every image is empty.
pub open spec fn blank_with_frames(d: DocView, width: u32, height: u32, mode: ColorMode) -> bool {
    &&& d.width == width
    &&& d.height == height
    &&& d.color_mode == mode
    &&& d.layers == blank_doc(width, height, mode).layers
    &&& d.frames.len() >= 1
    &&& d.cels.len() == d.frames.len()
    &&& d.images.len() == d.frames.len()
    &&& forall|k: int|
        0 <= k < d.cels.len() ==> (#[trigger] d.cels[k]).layer == 0 && d.cels[k].frame == k && d.cels[k].image_id
            == k && d.cels[k].link is Unlinked
    &&& forall|k: int| 0 <= k < d.images.len() ==> #[trigger] d.images[k] == empty_grid(width, height, mode)
}

/// In such a sprite, the cel of frame `k` is cel `k`.
pub proof fn lemma_blank_with_frames_find(d: DocView, width: u32, height: u32, mode: ColorMode, k: int)
    requires
        blank_with_frames(d, width, height, mode),
        0 <= k < d.frames.len(),
        d.frames.len() <= usize::MAX,
    ensures
        find_cel(d.cels, 0, k as usize) == Some(k),
{
    lemma_find_cel(d.cels, 0, k as usize);
    assert(d.cels[k].frame == k);
    match find_cel(d.cels, 0, k as usize) {
        Some(i) => {
            assert(d.cels[i].frame == i);
            if i < k {
                assert(cel_is_at(d.cels[k], 0, k as usize));
            }
        },
        None => {
            assert(super::model::cel_is_at(d.cels[k], 0, k as usize));
        },
    }
}

/// A blank sprite keeps that shape whatever number of frames is added.
pub proof fn lemma_blank_add_frames(width: u32, height: u32, mode: ColorMode, n: nat)
    requires
        grid_fits(width, height, mode),
        1 + n <= usize::MAX,
    ensures
        blank_with_frames(add_frames(blank_doc(width, height, mode), n), width, height, mode),
    decreases n,
{
    let b = blank_doc(width, height, mode);
    if n == 0 {
        assert(b.cels[0] == blank_cel());
    } else {
        lemma_blank_add_frames(width, height, mode, (n - 1) as nat);
        let e = add_frames(b, (n - 1) as nat);
        lemma_add_frames_shape(b, (n - 1) as nat);
        let f = e.frames.len() as usize;
        assert(f == n);
        let w = with_new_frame(e);
        lemma_blank_with_frames_find(e, width, height, mode, f - 1);
        assert(w.cels == e.cels);
        let c = e.cels[f - 1];
        assert(c.link is Unlinked && c.image_id == f - 1);
        assert(resolve_within(e.cels, c, 0) == Some(Some(c.image_id)));
        lemma_resolved_image_id(e.cels, c, 0);
        assert(resolved_pixels_of(w, c) == Some(empty_grid(width, height, mode)));
        assert(previous_frame(f) == f - 1);
        assert(w.layers[0].accepts_cels());
        assert(copy_steps(w, f, previous_frame(f), 0) == w);
        assert(copy_steps(w, f, previous_frame(f), 1) == copy_step(w, f, previous_frame(f), 0));
        let r = add_frame_model(e);
        assert(r.cels == e.cels.push(super::model::copied_cel(c, 0, f, f)));
        assert(r.images == e.images.push(empty_grid(width, height, mode)));
        assert forall|k: int| 0 <= k < r.cels.len() implies (#[trigger] r.cels[k]).layer == 0 && r.cels[k].frame
            == k && r.cels[k].image_id == k && r.cels[k].link is Unlinked by {
            if k < e.cels.len() {
                assert(r.cels[k] == e.cels[k]);
            }
        }
        assert forall|k: int| 0 <= k < r.images.len() implies #[trigger] r.images[k] == empty_grid(
            width,
            height,
            mode,
        ) by {
            if k < e.images.len() {
                assert(r.images[k] == e.images[k]);
            }
        }
    }
}

/// Unlinking a cel twice is unlinking it once: after the first time the cel
/// has no link, so the second changes nothing, and it can always be carried out.
pub proof fn lemma_unlink_idempotent(d: DocView, layer: usize, frame: usize)
    requires
        unlink_ok(d, layer, frame),
    ensures
        unlink_ok(unlink_model(d, layer, frame), layer, frame),
        unlink_model(unlink_model(d, layer, frame), layer, frame) == unlink_model(d, layer, frame),
{
    let e = unlink_model(d, layer, frame);
    match find_cel(d.cels, layer, frame) {
        None => {},
        Some(i) => {
            if d.cels[i].link is Linked {
                crate::document::model::lemma_find_cel(d.cels, layer, frame);
                crate::document::model::lemma_find_cel_same_positions(d.cels, e.cels, layer, frame);
                assert(e.cels[i].link is Unlinked);
            }
        },
    }
}

/// Looking a cel up in a sequence that extends `a` with cels standing
/// elsewhere finds what it finds in `a`.
proof fn lemma_find_cel_extend(a: Seq<Cel>, b: Seq<Cel>, layer: usize, frame: usize)
    requires
        a.len() <= b.len(),
        forall|j: int| 0 <= j < a.len() ==> #[trigger] b[j] == a[j],
        forall|j: int| a.len() <= j < b.len() ==> !cel_is_at(#[trigger] b[j], layer, frame),
    ensures
        find_cel(b, layer, frame) == find_cel(a, layer, frame),
{
    lemma_find_cel(a, layer, frame);
    lemma_find_cel(b, layer, frame);
    match find_cel(b, layer, frame) {
        Some(k) => {
            assert(k < a.len());
            assert(cel_is_at(a[k], layer, frame));
            match find_cel(a, layer, frame) {
                Some(i) => {
                    if i < k {
                        assert(!cel_is_at(b[i], layer, frame));
                    } else if k < i {
                        assert(!cel_is_at(a[k], layer, frame));
                    }
                },
                None => {
                    assert(!cel_is_at(a[k], layer, frame));
                },
            }
        },
        None => {
            match find_cel(a, layer, frame) {
                Some(i) => {
                    assert(!cel_is_at(b[i], layer, frame));
                },
                None => {},
            }
        },
    }
}

/// The cels that the copy steps for layers `0..n` append stand in `frame`,
/// one for each layer below `n` that holds cels and has a cel in `prev`, at
/// that cel's position, opacity and z-index.
proof fn lemma_copy_steps_cels(d: DocView, frame: usize, prev: usize, n: nat)
    requires
        n <= d.layers.len() <= usize::MAX,
        frame != prev,
    ensures
        ({
            let e = copy_steps(d, frame, prev, n);
            &&& e.cels.len() >= d.cels.len()
            &&& forall|j: int| 0 <= j < d.cels.len() ==> #[trigger] e.cels[j] == d.cels[j]
            &&& forall|j: int|
                d.cels.len() <= j < e.cels.len() ==> {
                    let c = #[trigger] e.cels[j];
                    &&& c.frame == frame
                    &&& c.layer < n
                    &&& d.layers[c.layer as int].accepts_cels()
                    &&& find_cel(d.cels, c.layer, prev) matches Some(i) && c.x == d.cels[i].x && c.y
                        == d.cels[i].y && c.opacity == d.cels[i].opacity && c.z_index == d.cels[i].z_index
                        && c.link is Unlinked
                }
            &&& forall|j: int, k: int|
                #![trigger e.cels[j], e.cels[k]]
                d.cels.len() <= j < k < e.cels.len() ==> e.cels[j].layer != e.cels[k].layer
            &&& forall|l: int|
                0 <= l < n && d.layers[l].accepts_cels() && #[trigger] find_cel(d.cels, l as usize, prev) is Some
                    ==> exists|j: int| d.cels.len() <= j < e.cels.len() && (#[trigger] e.cels[j]).layer == l
        }),
    decreases n,
{
    if n > 0 {
        lemma_copy_steps_cels(d, frame, prev, (n - 1) as nat);
        lemma_copy_steps_frame(d, frame, prev, (n - 1) as nat);
        let p = copy_steps(d, frame, prev, (n - 1) as nat);
        let e = copy_steps(d, frame, prev, n);
        let l = n - 1;
        assert(p.layers == d.layers);
        assert forall|j: int| d.cels.len() <= j < p.cels.len() implies !cel_is_at(#[trigger] p.cels[j], l as usize, prev) by {}
        lemma_find_cel_extend(d.cels, p.cels, l as usize, prev);
        if d.layers[l].accepts_cels() && find_cel(d.cels, l as usize, prev) is Some {
            let i = find_cel(d.cels, l as usize, prev)->0;
            lemma_find_cel(d.cels, l as usize, prev);
            assert(p.cels[i] == d.cels[i]);
            let j = p.cels.len() as int;
            assert(e.cels.len() == j + 1);
            assert(e.cels[j].layer == l);
            assert forall|m: int|
                0 <= m < n && d.layers[m].accepts_cels() && #[trigger] find_cel(d.cels, m as usize, prev) is Some
                    implies exists|k: int| d.cels.len() <= k < e.cels.len() && (#[trigger] e.cels[k]).layer == m by {
                if m < l {
                    let k = choose|k: int| d.cels.len() <= k < p.cels.len() && (#[trigger] p.cels[k]).layer == m;
                    assert(e.cels[k] == p.cels[k]);
                } else {
                    assert(e.cels[j].layer == m);
                }
            }
            assert forall|a: int, b: int|
                #![trigger e.cels[a], e.cels[b]]
                d.cels.len() <= a < b < e.cels.len() implies e.cels[a].layer != e.cels[b].layer by {
                if b < j {
                    assert(p.cels[a].layer != p.cels[b].layer);
                } else {
                    assert(e.cels[a] == p.cels[a]);
                }
            }
            assert forall|k: int| d.cels.len() <= k < e.cels.len() implies {
                let c = #[trigger] e.cels[k];
                &&& c.frame == frame
                &&& c.layer < n
                &&& d.layers[c.layer as int].accepts_cels()
                &&& find_cel(d.cels, c.layer, prev) matches Some(i) && c.x == d.cels[i].x && c.y == d.cels[i].y
                    && c.opacity == d.cels[i].opacity && c.z_index == d.cels[i].z_index && c.link is Unlinked
            } by {
                if k < j {
                    assert(e.cels[k] == p.cels[k]);
                }
            }
        } else {
            assert(e == p);
            assert forall|m: int|
                0 <= m < n && d.layers[m].accepts_cels() && #[trigger] find_cel(d.cels, m as usize, prev) is Some
                    implies exists|k: int| d.cels.len() <= k < e.cels.len() && (#[trigger] e.cels[k]).layer == m by {
                assert(m < l);
            }
        }
    }
}

/// Adding a frame to a document whose cels stand in its frames gives each
/// layer that holds cels and has a cel in the last frame a cel in the new
/// frame at the same position, with the same opacity and z-index, and no
/// link; every other layer gets no cel in the new frame.
pub proof fn lemma_add_frame_copies_cels(d: DocView, l: int)
    requires
        1 <= d.frames.len() < usize::MAX,
        0 <= l < d.layers.len() <= usize::MAX,
        forall|j: int| 0 <= j < d.cels.len() ==> (#[trigger] d.cels[j]).frame < d.frames.len(),
    ensures
        ({
            let e = add_frame_model(d);
            let prev = (d.frames.len() - 1) as usize;
            let frame = d.frames.len() as usize;
            match find_cel(d.cels, l as usize, prev) {
                Some(i) => if d.layers[l].accepts_cels() {
                    find_cel(e.cels, l as usize, frame) matches Some(j) && e.cels[j].x == d.cels[i].x && e.cels[j].y
                        == d.cels[i].y && e.cels[j].opacity == d.cels[i].opacity && e.cels[j].z_index
                        == d.cels[i].z_index && e.cels[j].link is Unlinked
                } else {
                    find_cel(e.cels, l as usize, frame) is None
                },
                None => find_cel(e.cels, l as usize, frame) is None,
            }
        }),
{
    let frame = d.frames.len() as usize;
    let prev = (d.frames.len() - 1) as usize;
    assert(previous_frame(frame) == prev);
    let d1 = with_new_frame(d);
    let e = add_frame_model(d);
    lemma_copy_steps_cels(d1, frame, prev, d.layers.len());
    lemma_find_cel(e.cels, l as usize, frame);
    if d.layers[l].accepts_cels() && find_cel(d.cels, l as usize, prev) is Some {
        let i = find_cel(d.cels, l as usize, prev)->0;
        let j = choose|j: int| d1.cels.len() <= j < e.cels.len() && (#[trigger] e.cels[j]).layer == l;
        assert(cel_is_at(e.cels[j], l as usize, frame));
        match find_cel(e.cels, l as usize, frame) {
            Some(k) => {
                if k < d1.cels.len() {
                    assert(e.cels[k] == d.cels[k]);
                } else if k != j {
                    if k < j {
                        assert(e.cels[k].layer != e.cels[j].layer);
                    } else {
                        assert(e.cels[j].layer != e.cels[k].layer);
                    }
                }
                assert(k == j);
            },
            None => {},
        }
    } else {
        match find_cel(e.cels, l as usize, frame) {
            Some(k) => {
                if k < d1.cels.len() {
                    assert(e.cels[k] == d.cels[k]);
                }
            },
            None => {},
        }
    }
}

} // verus!
