//! The mathematical model of the document operations: what each operation
//! of `SpriteDocument` does, stated over `DocView`, and the lemmas the
//! proofs of those operations rest on.

use vstd::prelude::*;

use super::cel::{Cel, CelLink};
use super::layer::{LayerKindView, LayerView, plain_layer};
use super::pixels::{ColorMode, ColorProfile, PixelGridView, Rgba, default_indexed_colors, empty_grid, grid_fits};
use super::sprite::{DocView, Frame};

verus! {

// ---------------------------------------------------------------------------
// Looking up cels
// ---------------------------------------------------------------------------

/// The cel stands at this layer and frame.
pub open spec fn cel_is_at(c: Cel, layer: usize, frame: usize) -> bool {
    c.layer == layer && c.frame == frame
}

/// The index of the first cel at (layer, frame), looking from `start` on.
pub open spec fn find_cel_from(cels: Seq<Cel>, layer: usize, frame: usize, start: nat) -> Option<int>
    decreases cels.len() - start,
{
    if start >= cels.len() {
        None
    } else if cel_is_at(cels[start as int], layer, frame) {
        Some(start as int)
    } else {
        find_cel_from(cels, layer, frame, start + 1)
    }
}

/// The index of the first cel at (layer, frame).
pub open spec fn find_cel(cels: Seq<Cel>, layer: usize, frame: usize) -> Option<int> {
    find_cel_from(cels, layer, frame, 0)
}

/// `find_cel_from` finds the first matching cel from `start` on, or reports that none matches.
pub proof fn lemma_find_cel_from(cels: Seq<Cel>, layer: usize, frame: usize, start: nat)
    requires
        start <= cels.len(),
    ensures
        match find_cel_from(cels, layer, frame, start) {
            Some(i) => start <= i < cels.len() && cel_is_at(cels[i], layer, frame) && forall|j: int|
                start <= j < i ==> !cel_is_at(#[trigger] cels[j], layer, frame),
            None => forall|j: int| start <= j < cels.len() ==> !cel_is_at(#[trigger] cels[j], layer, frame),
        },
    decreases cels.len() - start,
{
    if start < cels.len() && !cel_is_at(cels[start as int], layer, frame) {
        lemma_find_cel_from(cels, layer, frame, start + 1);
    }
}

/// `find_cel` gives the first index of a cel at (layer, frame), and `None` exactly when there is none.
pub proof fn lemma_find_cel(cels: Seq<Cel>, layer: usize, frame: usize)
    ensures
        match find_cel(cels, layer, frame) {
            Some(i) => 0 <= i < cels.len() && cel_is_at(cels[i], layer, frame) && forall|j: int|
                0 <= j < i ==> !cel_is_at(#[trigger] cels[j], layer, frame),
            None => forall|j: int| 0 <= j < cels.len() ==> !cel_is_at(#[trigger] cels[j], layer, frame),
        },
{
    lemma_find_cel_from(cels, layer, frame, 0);
}

/// Two cel sequences that agree on which cels stand where have the same lookups.
pub proof fn lemma_find_cel_same_positions(a: Seq<Cel>, b: Seq<Cel>, layer: usize, frame: usize)
    requires
        a.len() == b.len(),
        forall|j: int| 0 <= j < a.len() ==> (#[trigger] a[j]).layer == b[j].layer && a[j].frame == b[j].frame,
    ensures
        find_cel(a, layer, frame) == find_cel(b, layer, frame),
{
    lemma_find_cel(a, layer, frame);
    lemma_find_cel(b, layer, frame);
    match find_cel(a, layer, frame) {
        Some(i) => {
            match find_cel(b, layer, frame) {
                Some(k) => {
                    if k < i {
                        assert(cel_is_at(a[k], layer, frame));
                    } else if i < k {
                        assert(cel_is_at(b[i], layer, frame));
                    }
                },
                None => {
                    assert(cel_is_at(b[i], layer, frame));
                },
            }
        },
        None => {
            if let Some(k) = find_cel(b, layer, frame) {
                assert(cel_is_at(a[k], layer, frame));
            }
        },
    }
}

/// Appending a cel keeps every lookup that already succeeded, and makes the
/// new cel the answer of a lookup that found nothing before.
pub proof fn lemma_find_cel_push(cels: Seq<Cel>, c: Cel, layer: usize, frame: usize)
    ensures
        find_cel(cels.push(c), layer, frame) == (match find_cel(cels, layer, frame) {
            Some(i) => Some(i),
            None => if cel_is_at(c, layer, frame) {
                Some(cels.len() as int)
            } else {
                None
            },
        }),
{
    let s = cels.push(c);
    lemma_find_cel(cels, layer, frame);
    lemma_find_cel(s, layer, frame);
    match find_cel(cels, layer, frame) {
        Some(i) => {
            assert(s[i] == cels[i]);
            if let Some(k) = find_cel(s, layer, frame) {
                if k < i {
                    assert(s[k] == cels[k]);
                }
            }
        },
        None => {
            if let Some(k) = find_cel(s, layer, frame) {
                if k < cels.len() {
                    assert(s[k] == cels[k]);
                }
            }
            if cel_is_at(c, layer, frame) {
                assert(cel_is_at(s[cels.len() as int], layer, frame));
            }
        },
    }
}

// ---------------------------------------------------------------------------
// Following links
// ---------------------------------------------------------------------------

/// Follows the link chain of `c` for at most `fuel` steps. The outer `None`
/// means that the chain is longer than `fuel`; otherwise the inner value is
/// the image the chain ends in (`None` when the first link's source is missing).
/// A cel whose source's own source is missing ends in its source's image.
pub open spec fn resolve_within(cels: Seq<Cel>, c: Cel, fuel: nat) -> Option<Option<usize>>
    decreases fuel,
{
    match c.link {
        CelLink::Unlinked => Some(Some(c.image_id)),
        CelLink::Linked { source, .. } => match find_cel(cels, source.layer, source.frame) {
            None => Some(None),
            Some(i) => if fuel == 0 {
                None
            } else {
                match resolve_within(cels, cels[i], (fuel - 1) as nat) {
                    None => None,
                    Some(r) => Some(
                        Some(
                            match r {
                                Some(id) => id,
                                None => cels[i].image_id,
                            },
                        ),
                    ),
                }
            },
        },
    }
}

/// The link chain of `c` is finite (it reaches a cel without a link, or a missing source).
pub open spec fn resolvable(cels: Seq<Cel>, c: Cel) -> bool {
    exists|f: nat| (#[trigger] resolve_within(cels, c, f)) is Some
}

/// The image a resolvable cel draws its pixels from (`None` when its source is missing).
pub open spec fn resolved_image_id(cels: Seq<Cel>, c: Cel) -> Option<usize> {
    resolve_within(cels, c, choose|f: nat| (#[trigger] resolve_within(cels, c, f)) is Some).unwrap()
}

/// The pixels a resolvable cel shows, if its image exists.
pub open spec fn resolved_pixels_of(d: DocView, c: Cel) -> Option<PixelGridView> {
    match resolved_image_id(d.cels, c) {
        Some(id) => if id < d.images.len() {
            Some(d.images[id as int])
        } else {
            None
        },
        None => None,
    }
}

/// More fuel does not change the end of a chain that is already reached.
pub proof fn lemma_resolve_fuel(cels: Seq<Cel>, c: Cel, f1: nat, f2: nat)
    requires
        resolve_within(cels, c, f1) is Some,
        f1 <= f2,
    ensures
        resolve_within(cels, c, f2) == resolve_within(cels, c, f1),
    decreases f1,
{
    match c.link {
        CelLink::Unlinked => {},
        CelLink::Linked { source, .. } => {
            match find_cel(cels, source.layer, source.frame) {
                None => {},
                Some(i) => {
                    lemma_resolve_fuel(cels, cels[i], (f1 - 1) as nat, (f2 - 1) as nat);
                },
            }
        },
    }
}

/// Any fuel that reaches the end of the chain gives `resolved_image_id`.
pub proof fn lemma_resolved_image_id(cels: Seq<Cel>, c: Cel, f: nat)
    requires
        resolve_within(cels, c, f) is Some,
    ensures
        resolvable(cels, c),
        resolve_within(cels, c, f) == Some(resolved_image_id(cels, c)),
{
    let g = choose|g: nat| (#[trigger] resolve_within(cels, c, g)) is Some;
    if f <= g {
        lemma_resolve_fuel(cels, c, f, g);
    } else {
        lemma_resolve_fuel(cels, c, g, f);
    }
}

/// Appending a cel without a link keeps every finite chain finite.
pub proof fn lemma_resolve_push_unlinked(cels: Seq<Cel>, c: Cel, extra: Cel, f: nat)
    requires
        resolve_within(cels, c, f) is Some,
        extra.link is Unlinked,
    ensures
        resolve_within(cels.push(extra), c, f + 1) is Some,
    decreases f,
{
    match c.link {
        CelLink::Unlinked => {},
        CelLink::Linked { source, .. } => {
            lemma_find_cel_push(cels, extra, source.layer, source.frame);
            match find_cel(cels, source.layer, source.frame) {
                None => {
                    assert(cels.push(extra)[cels.len() as int] == extra);
                    assert(resolve_within(cels.push(extra), extra, f) is Some);
                },
                Some(i) => {
                    lemma_find_cel(cels, source.layer, source.frame);
                    assert(cels.push(extra)[i] == cels[i]);
                    lemma_resolve_push_unlinked(cels, cels[i], extra, (f - 1) as nat);
                },
            }
        },
    }
}

// ---------------------------------------------------------------------------
// A blank document
// ---------------------------------------------------------------------------

/// The cel of the background layer in the first frame of a blank sprite.
pub open spec fn blank_cel() -> Cel {
    Cel { layer: 0, frame: 0, x: 0, y: 0, opacity: 255, z_index: 0, image_id: 0, link: CelLink::Unlinked }
}

/// A blank sprite: one 100 ms frame, one background layer named "Background",
/// one empty image and the cel that shows it; the default palette when indexed.
pub open spec fn blank_doc(width: u32, height: u32, mode: ColorMode) -> DocView {
    DocView {
        width,
        height,
        color_mode: mode,
        pixel_aspect: (1, 1),
        color_profile: ColorProfile::Srgb,
        user_data: Seq::empty(),
        palette: if mode == ColorMode::Indexed {
            default_indexed_colors()
        } else {
            Seq::empty()
        },
        frames: seq![Frame { duration_ms: 100 }],
        layers: seq![plain_layer("Background"@, LayerKindView::Normal, true)],
        images: seq![empty_grid(width, height, mode)],
        cels: seq![blank_cel()],
        tags: Seq::empty(),
        slices: Seq::empty(),
        tilesets: Seq::empty(),
    }
}

// ---------------------------------------------------------------------------
// Adding frames
// ---------------------------------------------------------------------------

/// The frame whose cels a new frame copies: the one before it (frame 0 for the first).
pub open spec fn previous_frame(frame: usize) -> usize {
    if frame == 0 {
        0
    } else {
        (frame - 1) as usize
    }
}

/// The cel that copies `c` into `frame` of layer `layer`, showing image `image_id`.
pub open spec fn copied_cel(c: Cel, layer: usize, frame: usize, image_id: usize) -> Cel {
    Cel {
        layer,
        frame,
        x: c.x,
        y: c.y,
        opacity: c.opacity,
        z_index: c.z_index,
        image_id,
        link: CelLink::Unlinked,
    }
}

/// The step of adding a frame that handles layer `l`: a layer that holds cels
/// and has a cel in the previous frame gets a copy of that cel with a copy of
/// its pixels (an empty image when its pixels cannot be found).
pub open spec fn copy_step(d: DocView, frame: usize, prev: usize, l: int) -> DocView {
    if !d.layers[l].accepts_cels() {
        d
    } else {
        match find_cel(d.cels, l as usize, prev) {
            None => d,
            Some(i) => {
                let c = d.cels[i];
                let img = match resolved_pixels_of(d, c) {
                    Some(g) => g,
                    None => empty_grid(d.width, d.height, d.color_mode),
                };
                DocView {
                    images: d.images.push(img),
                    cels: d.cels.push(copied_cel(c, l as usize, frame, d.images.len() as usize)),
                    ..d
                }
            },
        }
    }
}

/// Step `l` can be carried out without an endless link chain or an image too large to index.
pub open spec fn copy_step_ok(d: DocView, frame: usize, prev: usize, l: int) -> bool {
    d.layers[l].accepts_cels() ==> match find_cel(d.cels, l as usize, prev) {
        None => true,
        Some(i) => resolvable(d.cels, d.cels[i]) && (resolved_pixels_of(d, d.cels[i]) is None ==> grid_fits(
            d.width,
            d.height,
            d.color_mode,
        )),
    }
}

/// The steps for layers `0..n`.
pub open spec fn copy_steps(d: DocView, frame: usize, prev: usize, n: nat) -> DocView
    decreases n,
{
    if n == 0 {
        d
    } else {
        copy_step(copy_steps(d, frame, prev, (n - 1) as nat), frame, prev, n - 1)
    }
}

/// Every step for layers `0..n` can be carried out.
pub open spec fn copy_steps_ok(d: DocView, frame: usize, prev: usize, n: nat) -> bool
    decreases n,
{
    n == 0 || (copy_steps_ok(d, frame, prev, (n - 1) as nat) && copy_step_ok(
        copy_steps(d, frame, prev, (n - 1) as nat),
        frame,
        prev,
        n - 1,
    ))
}

/// The document with one more 100 ms frame appended, before its cels are copied.
pub open spec fn with_new_frame(d: DocView) -> DocView {
    DocView { frames: d.frames.push(Frame { duration_ms: 100 }), ..d }
}

/// What `add_frame` makes of a document.
pub open spec fn add_frame_model(d: DocView) -> DocView {
    let frame = d.frames.len() as usize;
    copy_steps(with_new_frame(d), frame, previous_frame(frame), d.layers.len())
}

/// `add_frame` can be carried out on this document.
pub open spec fn add_frame_ok(d: DocView) -> bool {
    let frame = d.frames.len() as usize;
    copy_steps_ok(with_new_frame(d), frame, previous_frame(frame), d.layers.len())
}

/// `n` frames added one after the other.
pub open spec fn add_frames(d: DocView, n: nat) -> DocView
    decreases n,
{
    if n == 0 {
        d
    } else {
        add_frame_model(add_frames(d, (n - 1) as nat))
    }
}

/// Each of `n` successive `add_frame` calls can be carried out.
pub open spec fn add_frames_ok(d: DocView, n: nat) -> bool
    decreases n,
{
    n == 0 || (add_frames_ok(d, (n - 1) as nat) && add_frame_model(add_frames(d, (n - 1) as nat)).frames.len()
        <= usize::MAX && add_frame_ok(add_frames(d, (n - 1) as nat)))
}

/// What `set_frame_count` makes of a document: frames are added until there
/// are `count`, or the frames past `count` and their cels are dropped.
pub open spec fn set_frame_count_model(d: DocView, count: nat) -> DocView {
    if d.frames.len() < count {
        add_frames(d, (count - d.frames.len()) as nat)
    } else if d.frames.len() > count {
        DocView {
            frames: d.frames.take(count as int),
            cels: d.cels.filter(before_frame(count)),
            ..d
        }
    } else {
        d
    }
}

/// The cel belongs to one of the first `count` frames.
pub open spec fn before_frame(count: nat) -> spec_fn(Cel) -> bool {
    |c: Cel| c.frame < count
}

/// `set_frame_count` can be carried out on this document.
pub open spec fn set_frame_count_ok(d: DocView, count: nat) -> bool {
    d.frames.len() < count ==> add_frames_ok(d, (count - d.frames.len()) as nat)
}

/// The copy steps change only images and cels, and only by appending.
pub proof fn lemma_copy_steps_frame(d: DocView, frame: usize, prev: usize, n: nat)
    requires
        n <= d.layers.len(),
    ensures
        copy_steps(d, frame, prev, n) == (DocView {
            images: copy_steps(d, frame, prev, n).images,
            cels: copy_steps(d, frame, prev, n).cels,
            ..d
        }),
        copy_steps(d, frame, prev, n).images.len() >= d.images.len(),
        copy_steps(d, frame, prev, n).images.len() - d.images.len() == copy_steps(d, frame, prev, n).cels.len()
            - d.cels.len(),
        forall|j: int| 0 <= j < d.cels.len() ==> #[trigger] copy_steps(d, frame, prev, n).cels[j] == d.cels[j],
        forall|j: int| 0 <= j < d.images.len() ==> #[trigger] copy_steps(d, frame, prev, n).images[j] == d.images[j],
        forall|j: int|
            d.cels.len() <= j < copy_steps(d, frame, prev, n).cels.len() ==> (#[trigger] copy_steps(
                d,
                frame,
                prev,
                n,
            ).cels[j]).link is Unlinked && copy_steps(d, frame, prev, n).cels[j].frame == frame
                && copy_steps(d, frame, prev, n).cels[j].layer < n,
        d.layers.len() <= usize::MAX ==> forall|j: int|
            d.cels.len() <= j < copy_steps(d, frame, prev, n).cels.len() ==> (#[trigger] copy_steps(
                d,
                frame,
                prev,
                n,
            ).cels[j]).image_id < copy_steps(d, frame, prev, n).images.len() && d.layers[copy_steps(
                d,
                frame,
                prev,
                n,
            ).cels[j].layer as int].accepts_cels(),
    decreases n,
{
    if n > 0 {
        lemma_copy_steps_frame(d, frame, prev, (n - 1) as nat);
        let p = copy_steps(d, frame, prev, (n - 1) as nat);
        let r = copy_steps(d, frame, prev, n);
        assert(p.layers == d.layers);
        assert(r.images.len() >= p.images.len());
        if d.layers.len() <= usize::MAX {
            assert forall|j: int| d.cels.len() <= j < r.cels.len() implies (#[trigger] r.cels[j]).image_id
                < r.images.len() && d.layers[r.cels[j].layer as int].accepts_cels() by {
                if j < p.cels.len() {
                    assert(r.cels[j] == p.cels[j]);
                } else {
                    assert(p.layers[n - 1].accepts_cels());
                }
            }
        }
    }
}

/// Adding a frame adds exactly one frame and keeps the canvas, the layers and every other part.
pub proof fn lemma_add_frame_shape(d: DocView)
    requires
        d.frames.len() <= usize::MAX,
    ensures
        add_frame_model(d) == (DocView {
            frames: d.frames.push(Frame { duration_ms: 100 }),
            images: add_frame_model(d).images,
            cels: add_frame_model(d).cels,
            ..d
        }),
        forall|j: int| 0 <= j < d.cels.len() ==> #[trigger] add_frame_model(d).cels[j] == d.cels[j],
        forall|j: int|
            d.cels.len() <= j < add_frame_model(d).cels.len() ==> (#[trigger] add_frame_model(d).cels[j]).link is Unlinked
                && add_frame_model(d).cels[j].frame == d.frames.len(),
{
    let frame = d.frames.len() as usize;
    lemma_copy_steps_frame(with_new_frame(d), frame, previous_frame(frame), d.layers.len());
}

/// After `n` added frames there are `n` more frames; canvas and layers are kept.
pub proof fn lemma_add_frames_shape(d: DocView, n: nat)
    requires
        d.frames.len() + n <= usize::MAX + 1,
    ensures
        add_frames(d, n).frames.len() == d.frames.len() + n,
        add_frames(d, n).width == d.width,
        add_frames(d, n).height == d.height,
        add_frames(d, n).color_mode == d.color_mode,
        add_frames(d, n).layers == d.layers,
    decreases n,
{
    if n > 0 {
        lemma_add_frames_shape(d, (n - 1) as nat);
        lemma_add_frame_shape(add_frames(d, (n - 1) as nat));
    }
}

/// `set_frame_count` leaves exactly `count` frames.
pub proof fn lemma_set_frame_count_len(d: DocView, count: nat)
    requires
        count <= usize::MAX,
    ensures
        set_frame_count_model(d, count).frames.len() == count,
        set_frame_count_model(d, count).width == d.width,
        set_frame_count_model(d, count).height == d.height,
        set_frame_count_model(d, count).color_mode == d.color_mode,
        set_frame_count_model(d, count).layers == d.layers,
{
    if d.frames.len() < count {
        lemma_add_frames_shape(d, (count - d.frames.len()) as nat);
    }
}

// ---------------------------------------------------------------------------
// Documents without linked cels
// ---------------------------------------------------------------------------

/// No cel of the document is linked to another.
pub open spec fn all_unlinked(d: DocView) -> bool {
    forall|j: int| 0 <= j < d.cels.len() ==> (#[trigger] d.cels[j]).link is Unlinked
}

/// Adding a frame to a document without linked cels keeps it without linked cels.
pub proof fn lemma_add_frame_keeps_unlinked(d: DocView)
    requires
        all_unlinked(d),
        d.frames.len() <= usize::MAX,
    ensures
        all_unlinked(add_frame_model(d)),
{
    lemma_add_frame_shape(d);
    assert forall|j: int| 0 <= j < add_frame_model(d).cels.len() implies (#[trigger] add_frame_model(
        d,
    ).cels[j]).link is Unlinked by {
        if j < d.cels.len() {
            assert(add_frame_model(d).cels[j] == d.cels[j]);
        }
    }
}

/// Every copy step on a document without linked cels, whose images can be indexed, can be carried out.
pub proof fn lemma_copy_steps_ok_unlinked(d: DocView, frame: usize, prev: usize, n: nat)
    requires
        n <= d.layers.len(),
        all_unlinked(d),
        grid_fits(d.width, d.height, d.color_mode),
    ensures
        copy_steps_ok(d, frame, prev, n),
    decreases n,
{
    if n > 0 {
        lemma_copy_steps_ok_unlinked(d, frame, prev, (n - 1) as nat);
        let e = copy_steps(d, frame, prev, (n - 1) as nat);
        lemma_copy_steps_frame(d, frame, prev, (n - 1) as nat);
        assert(e.layers == d.layers);
        if e.layers[n - 1].accepts_cels() {
            lemma_find_cel(e.cels, (n - 1) as usize, prev);
            if let Some(i) = find_cel(e.cels, (n - 1) as usize, prev) {
                assert(e.cels[i].link is Unlinked) by {
                    if i < d.cels.len() {
                        assert(e.cels[i] == d.cels[i]);
                    }
                }
                assert(resolve_within(e.cels, e.cels[i], 0) is Some);
            }
        }
    }
}

/// The steps for a prefix of the layers can be carried out when all of them can.
pub proof fn lemma_copy_steps_ok_prefix(d: DocView, frame: usize, prev: usize, m: nat, n: nat)
    requires
        m <= n,
        copy_steps_ok(d, frame, prev, n),
    ensures
        copy_steps_ok(d, frame, prev, m),
    decreases n,
{
    if m < n {
        lemma_copy_steps_ok_prefix(d, frame, prev, m, (n - 1) as nat);
    }
}

/// A prefix of successive frame additions can be carried out when all of them can.
pub proof fn lemma_add_frames_ok_prefix(d: DocView, m: nat, n: nat)
    requires
        m <= n,
        add_frames_ok(d, n),
    ensures
        add_frames_ok(d, m),
    decreases n,
{
    if m < n {
        lemma_add_frames_ok_prefix(d, m, (n - 1) as nat);
    }
}

/// Frames added to a document without linked cels leave it without linked cels.
pub proof fn lemma_add_frames_keep_unlinked(d: DocView, n: nat)
    requires
        all_unlinked(d),
        d.frames.len() + n <= usize::MAX + 1,
    ensures
        all_unlinked(add_frames(d, n)),
    decreases n,
{
    if n > 0 {
        lemma_add_frames_keep_unlinked(d, (n - 1) as nat);
        lemma_add_frames_shape(d, (n - 1) as nat);
        lemma_add_frame_keeps_unlinked(add_frames(d, (n - 1) as nat));
    }
}

/// A document without linked cels, whose empty image can be indexed, can
/// always take more frames, up to the index range.
pub proof fn lemma_add_frames_ok_unlinked(d: DocView, n: nat)
    requires
        all_unlinked(d),
        grid_fits(d.width, d.height, d.color_mode),
        d.frames.len() + n <= usize::MAX,
    ensures
        add_frames_ok(d, n),
    decreases n,
{
    if n > 0 {
        lemma_add_frames_ok_unlinked(d, (n - 1) as nat);
        let e = add_frames(d, (n - 1) as nat);
        lemma_add_frames_shape(d, (n - 1) as nat);
        lemma_add_frames_keep_unlinked(d, (n - 1) as nat);
        lemma_add_frame_shape(e);
        let frame = e.frames.len() as usize;
        assert(all_unlinked(with_new_frame(e)));
        lemma_copy_steps_ok_unlinked(with_new_frame(e), frame, previous_frame(frame), e.layers.len());
    }
}

/// Appending a cel without a link keeps every finite link chain finite.
pub proof fn lemma_resolvable_push_unlinked(cels: Seq<Cel>, c: Cel, extra: Cel)
    requires
        resolvable(cels, c),
        extra.link is Unlinked,
    ensures
        resolvable(cels.push(extra), c),
{
    let f = choose|f: nat| (#[trigger] resolve_within(cels, c, f)) is Some;
    lemma_resolve_push_unlinked(cels, c, extra, f);
    assert(resolve_within(cels.push(extra), c, f + 1) is Some);
}

/// The copy steps keep every finite link chain finite.
proof fn lemma_copy_steps_keep_resolvable(d: DocView, frame: usize, prev: usize, n: nat, c: Cel)
    requires
        resolvable(d.cels, c),
    ensures
        resolvable(copy_steps(d, frame, prev, n).cels, c),
    decreases n,
{
    if n > 0 {
        lemma_copy_steps_keep_resolvable(d, frame, prev, (n - 1) as nat, c);
        let p = copy_steps(d, frame, prev, (n - 1) as nat);
        let r = copy_steps(d, frame, prev, n);
        if r.cels != p.cels {
            let l = n - 1;
            let i = find_cel(p.cels, l as usize, prev)->Some_0;
            let extra = copied_cel(p.cels[i], l as usize, frame, p.images.len() as usize);
            assert(r.cels == p.cels.push(extra));
            lemma_resolvable_push_unlinked(p.cels, c, extra);
        }
    }
}

/// Adding a frame keeps every finite link chain finite: a cel whose links
/// could be followed before can still be followed after.
pub proof fn lemma_add_frame_keeps_resolvable(d: DocView, c: Cel)
    requires
        resolvable(d.cels, c),
    ensures
        resolvable(add_frame_model(d).cels, c),
{
    let frame = d.frames.len() as usize;
    lemma_copy_steps_keep_resolvable(with_new_frame(d), frame, previous_frame(frame), d.layers.len(), c);
}

} // verus!
