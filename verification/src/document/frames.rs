//! Adding and removing frames.

use vstd::prelude::*;

use super::cel::{Cel, CelLink};
use super::model::{
    add_frame_model, add_frame_ok, before_frame, add_frames, add_frames_ok, copied_cel, copy_step, copy_steps,
    copy_steps_ok, lemma_add_frames_ok_prefix, lemma_add_frames_shape, lemma_copy_steps_frame,
    lemma_copy_steps_ok_prefix, lemma_find_cel, previous_frame, find_cel, set_frame_count_model,
    set_frame_count_ok, with_new_frame,
};
use super::pixels::PixelGrid;
use super::sprite::{DocView, Frame, SpriteDocument};

verus! {

impl SpriteDocument {
    /// Appends a 100 ms frame. Each layer that holds cels and has a cel in the
    /// previous frame gets a copy of that cel, showing a copy of its pixels
    /// (an empty image when they cannot be found). Returns the new frame's index.
    pub fn add_frame(&mut self) -> (frame: usize)
        requires
            add_frame_ok(old(self)@),
        ensures
            frame == old(self).frames.len(),
            final(self)@ == add_frame_model(old(self)@),
            old(self).frames.len() >= 1 && (forall|j: int|
                0 <= j < old(self).cels.len() ==> (#[trigger] old(self).cels@[j]).frame < old(self).frames.len())
                ==> forall|l: int|
                0 <= l < old(self).layers.len() && old(self).layers@[l]@.accepts_cels() ==> match #[trigger] find_cel(
                    old(self).cels@,
                    l as usize,
                    (frame - 1) as usize,
                ) {
                    Some(i) => find_cel(final(self).cels@, l as usize, frame) matches Some(j) && final(self).cels@[j].x
                        == old(self).cels@[i].x && final(self).cels@[j].y == old(self).cels@[i].y
                        && final(self).cels@[j].opacity == old(self).cels@[i].opacity && final(self).cels@[j].z_index
                        == old(self).cels@[i].z_index,
                    None => find_cel(final(self).cels@, l as usize, frame) is None,
                },
    {
        let ghost d0 = self@;
        let frame = self.frames.len();
        self.frames.push(Frame { duration_ms: 100 });
        let count = self.frames.len();
        proof {
            assert(count == frame + 1);
            assert(frame < usize::MAX);
            assert(d0.layers.len() == self.layers@.len());
        }
        let prev = frame.saturating_sub(1);
        let ghost d1 = self@;
        let ghost n = self.layers.len() as nat;
        proof {
            assert(d1 =~= with_new_frame(old(self)@));
            assert(prev == previous_frame(frame));
        }
        let mut l: usize = 0;
        while l < self.layers.len()
            invariant
                l <= self.layers.len(),
                n == self.layers.len(),
                n == d1.layers.len(),
                self@ == copy_steps(d1, frame, prev, l as nat),
                copy_steps_ok(d1, frame, prev, n),
            decreases self.layers.len() - l,
        {
            proof {
                lemma_copy_steps_ok_prefix(d1, frame, prev, (l + 1) as nat, n);
                lemma_copy_steps_frame(d1, frame, prev, l as nat);
                assert(self@.layers == d1.layers);
            }
            let ghost before = self@;
            if self.layers[l].accepts_cels() {
                match self.cel_index(l, prev) {
                    Some(ci) => {
                        proof {
                            lemma_find_cel(self.cels@, l, prev);
                        }
                        let prev_cel = self.cels[ci];
                        let image_id = self.images.len();
                        let px = match self.resolved_pixels(&prev_cel) {
                            Some(g) => g.duplicate(),
                            None => PixelGrid::new_empty(self.width, self.height, self.color_mode),
                        };
                        self.images.push(px);
                        self.cels.push(
                            Cel {
                                layer: l,
                                frame,
                                x: prev_cel.x,
                                y: prev_cel.y,
                                opacity: prev_cel.opacity,
                                z_index: prev_cel.z_index,
                                image_id,
                                link: CelLink::Unlinked,
                            },
                        );
                        proof {
                            assert(self@.images =~= before.images.push(px@));
                            assert(self@ =~= copy_step(before, frame, prev, l as int));
                        }
                    },
                    None => {},
                }
            }
            l = l + 1;
        }
        proof {
            if d0.frames.len() >= 1 && (forall|j: int| 0 <= j < d0.cels.len() ==> (#[trigger] d0.cels[j]).frame
                < d0.frames.len()) {
                assert forall|k: int|
                    0 <= k < d0.layers.len() && d0.layers[k].accepts_cels() implies match #[trigger] find_cel(
                    d0.cels,
                    k as usize,
                    (frame - 1) as usize,
                ) {
                    Some(i) => find_cel(self@.cels, k as usize, frame) matches Some(j) && self@.cels[j].x
                        == d0.cels[i].x && self@.cels[j].y == d0.cels[i].y && self@.cels[j].opacity
                        == d0.cels[i].opacity && self@.cels[j].z_index == d0.cels[i].z_index,
                    None => find_cel(self@.cels, k as usize, frame) is None,
                } by {
                    crate::document::laws::lemma_add_frame_copies_cels(d0, k);
                }
            }
        }
        frame
    }

    /// Adds frames until there are `count`, or drops the frames from `count` on
    /// together with their cels.
    pub fn set_frame_count(&mut self, count: usize)
        requires
            set_frame_count_ok(old(self)@, count as nat),
        ensures
            final(self)@ == set_frame_count_model(old(self)@, count as nat),
    {
        let ghost d0 = self@;
        let ghost start = self.frames.len();
        if self.frames.len() < count {
            let ghost total = (count - start) as nat;
            while self.frames.len() < count
                invariant
                    start <= self.frames.len() <= count,
                    start < count,
                    total == count - start,
                    d0.frames.len() == start,
                    self@ == add_frames(d0, (self.frames.len() - start) as nat),
                    add_frames_ok(d0, total),
                decreases count - self.frames.len(),
            {
                let ghost k = (self.frames.len() - start) as nat;
                proof {
                    lemma_add_frames_ok_prefix(d0, k + 1, total);
                }
                self.add_frame();
                proof {
                    lemma_add_frames_shape(d0, k + 1);
                }
            }
        } else if self.frames.len() > count {
            self.frames.truncate(count);
            let mut kept: Vec<Cel> = Vec::new();
            let mut i: usize = 0;
            while i < self.cels.len()
                invariant
                    i <= self.cels.len(),
                    self.cels@ == d0.cels,
                    kept@ == d0.cels.take(i as int).filter(before_frame(count as nat)),
                decreases self.cels.len() - i,
            {
                let c = self.cels[i];
                let ghost p = before_frame(count as nat);
                proof {
                    reveal_with_fuel(Seq::<_>::filter, 1);
                    assert(d0.cels.take(i + 1).drop_last() =~= d0.cels.take(i as int));
                    assert(d0.cels.take(i + 1).last() == c);
                    assert(p(c) == (c.frame < count));
                    assert(d0.cels.take(i + 1).filter(p) == (if p(c) {
                        d0.cels.take(i as int).filter(p).push(c)
                    } else {
                        d0.cels.take(i as int).filter(p)
                    }));
                }
                if c.frame < count {
                    kept.push(c);
                }
                i = i + 1;
            }
            proof {
                assert(d0.cels.take(self.cels.len() as int) =~= d0.cels);
            }
            self.cels = kept;
        }
    }
}

} // verus!
