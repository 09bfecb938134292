//! Whether the link chains that writing follows end.

use vstd::prelude::*;

use super::format::{
    ase_cels_resolvable, cel_encodable, found_resolvable, frames_encodable, layers_encodable,
    reached_cels_resolvable, written_frame_count,
};
use crate::document::cel::{Cel, CelLink};
use crate::document::model::{find_cel, lemma_find_cel, lemma_resolved_image_id, resolvable, resolve_within};
use crate::document::pixels::{ColorMode, PixelGrid, PixelGridView};
use super::write::len_u16;
use crate::document::sprite::SpriteDocument;
use crate::document::validate::validation_error;

verus! {

/// Following the link of cel `i` leads to cel `j`.
pub open spec fn steps_to(cels: Seq<Cel>, i: int, j: int) -> bool {
    cels[i].link matches CelLink::Linked { source, .. } && find_cel(cels, source.layer, source.frame) == Some(j)
}

/// Each cel of `path` links to a cel of `path`.
pub open spec fn path_closed(cels: Seq<Cel>, path: Seq<int>) -> bool {
    forall|k: int| 0 <= k < path.len() ==> exists|m: int| 0 <= m < path.len() && steps_to(cels, #[trigger] path[k], path[m])
}

/// A sequence of distinct numbers in `0..n` has at most `n` of them.
proof fn lemma_distinct_bounded(path: Seq<int>, n: int)
    requires
        0 <= n,
        path.no_duplicates(),
        forall|m: int| 0 <= m < path.len() ==> 0 <= #[trigger] path[m] < n,
    ensures
        path.len() <= n,
{
    path.unique_seq_to_set();
    vstd::set_lib::lemma_int_range(0, n);
    assert(path.to_set().subset_of(vstd::set_lib::set_int_range(0, n)));
    vstd::set_lib::lemma_len_subset(path.to_set(), vstd::set_lib::set_int_range(0, n));
}

/// A cel that links to another has a finite chain exactly when that one has.
proof fn lemma_resolvable_step(cels: Seq<Cel>, i: int, j: int)
    requires
        steps_to(cels, i, j),
    ensures
        resolvable(cels, cels[i]) <==> resolvable(cels, cels[j]),
{
    if resolvable(cels, cels[i]) {
        let f = choose|f: nat| (#[trigger] resolve_within(cels, cels[i], f)) is Some;
        assert(f > 0);
        assert(resolve_within(cels, cels[j], (f - 1) as nat) is Some);
    }
    if resolvable(cels, cels[j]) {
        let g = choose|g: nat| (#[trigger] resolve_within(cels, cels[j], g)) is Some;
        assert(resolve_within(cels, cels[i], g + 1) is Some);
    }
}

/// No cel of a closed path reaches the end of its chain, whatever the fuel.
proof fn lemma_closed_path_never_ends(cels: Seq<Cel>, path: Seq<int>, f: nat)
    requires
        path_closed(cels, path),
    ensures
        forall|k: int| 0 <= k < path.len() ==> #[trigger] resolve_within(cels, cels[path[k]], f) is None,
    decreases f,
{
    if f > 0 {
        lemma_closed_path_never_ends(cels, path, (f - 1) as nat);
    }
    assert forall|k: int| 0 <= k < path.len() implies #[trigger] resolve_within(cels, cels[path[k]], f) is None by {
        let m = choose|m: int| 0 <= m < path.len() && steps_to(cels, path[k], path[m]);
        if f > 0 {
            assert(resolve_within(cels, cels[path[m]], (f - 1) as nat) is None);
        }
    }
}

impl SpriteDocument {
    /// Whether the link chain of cel `start` ends: it reaches a cel without
    /// a link, or a link to a cel that is missing.
    pub fn chain_ends(&self, start: usize) -> (b: bool)
        requires
            start < self.cels.len(),
        ensures
            b == resolvable(self.cels@, self.cels@[start as int]),
    {
        let n = self.cels.len();
        let ghost cels = self.cels@;
        let mut visited: Vec<bool> = Vec::new();
        let mut k: usize = 0;
        while k < n
            invariant
                k <= n,
                visited@.len() == k,
                forall|m: int| 0 <= m < k ==> !visited@[m],
            decreases n - k,
        {
            visited.push(false);
            k = k + 1;
        }
        visited.set(start, true);
        let mut cur = start;
        let ghost mut path: Seq<int> = seq![start as int];
        proof {
            assert forall|m: int| 0 <= m < n implies (visited@[m] <==> path.contains(m)) by {
                if m == start {
                    assert(path[0] == m);
                }
            }
        }
        loop
            invariant
                n == cels.len(),
                cels == self.cels@,
                visited@.len() == n,
                cur < n,
                path.len() >= 1,
                path.last() == cur,
                forall|m: int| 0 <= m < path.len() ==> 0 <= #[trigger] path[m] < n,
                forall|m: int| 0 <= m < n ==> (visited@[m] <==> path.contains(m)),
                forall|m: int| 0 <= m < path.len() - 1 ==> steps_to(cels, #[trigger] path[m], path[m + 1]),
                path.no_duplicates(),
                resolvable(cels, cels[start as int]) <==> resolvable(cels, cels[cur as int]),
            decreases n - path.len(),
        {
            proof {
                lemma_distinct_bounded(path, n as int);
            }
            let cel = self.cels[cur];
            match cel.link {
                CelLink::Unlinked => {
                    proof {
                        assert(resolve_within(cels, cels[cur as int], 0) is Some);
                    }
                    return true;
                },
                CelLink::Linked { source, .. } => {
                    proof {
                        lemma_find_cel(cels, source.layer, source.frame);
                    }
                    match self.cel_index(source.layer, source.frame) {
                        None => {
                            proof {
                                assert(resolve_within(cels, cels[cur as int], 0) is Some);
                            }
                            return true;
                        },
                        Some(j) => {
                            proof {
                                assert(steps_to(cels, cur as int, j as int));
                                lemma_resolvable_step(cels, cur as int, j as int);
                            }
                            if visited[j] {
                                proof {
                                    assert(path.contains(j as int));
                                    assert forall|k: int| 0 <= k < path.len() implies exists|m: int|
                                        0 <= m < path.len() && steps_to(cels, #[trigger] path[k], path[m]) by {
                                        if k < path.len() - 1 {
                                            assert(steps_to(cels, path[k], path[k + 1]));
                                        } else {
                                            let m = choose|m: int| 0 <= m < path.len() && path[m] == j as int;
                                            assert(steps_to(cels, path[k], path[m]));
                                        }
                                    }
                                    let last = (path.len() - 1) as int;
                                    assert forall|f: nat| !(#[trigger] resolve_within(cels, cels[cur as int], f) is Some) by {
                                        lemma_closed_path_never_ends(cels, path, f);
                                        assert(resolve_within(cels, cels[path[last]], f) is None);
                                    }
                                }
                                return false;
                            }
                            proof {
                                assert(!path.contains(j as int));
                                let old_path = path;
                                path = path.push(j as int);
                                assert forall|m: int| 0 <= m < n implies (visited@.update(j as int, true)[m]
                                    <==> path.contains(m)) by {
                                    if m == j {
                                        assert(path[path.len() - 1] == j);
                                    } else if visited@[m] {
                                        assert(old_path.contains(m));
                                        let q = choose|q: int| 0 <= q < old_path.len() && old_path[q] == m;
                                        assert(path[q] == m);
                                    } else {
                                        if path.contains(m) {
                                            let q = choose|q: int| 0 <= q < path.len() && path[q] == m;
                                            assert(q < old_path.len());
                                            assert(old_path.contains(m));
                                        }
                                    }
                                }
                                assert forall|a: int, b: int| 0 <= a < b < path.len() implies path[a] != path[b] by {
                                    if b == path.len() - 1 {
                                        assert(old_path.contains(path[a]));
                                    }
                                }
                                assert forall|m: int| 0 <= m < path.len() - 1 implies steps_to(cels, #[trigger] path[m], path[m + 1]) by {
                                    if m < old_path.len() - 1 {
                                        assert(steps_to(cels, old_path[m], old_path[m + 1]));
                                    }
                                }
                                assert(path.no_duplicates());
                                assert forall|m: int| 0 <= m < path.len() implies 0 <= #[trigger] path[m] < n by {
                                    if m < old_path.len() {
                                        assert(path[m] == old_path[m]);
                                    }
                                }
                                lemma_distinct_bounded(path, n as int);
                            }
                            visited.set(j, true);
                            cur = j;
                        },
                    }
                },
            }
        }
    }

    /// Whether every cel that `write_ase` reaches has a link chain that
    /// ends: in a valid indexed document, the cels of each written frame in
    /// layer order, up to the first one that cannot be encoded. This is what
    /// `write_ase` asks of its document.
    pub fn cels_resolvable(&self) -> (b: bool)
        ensures
            b == ase_cels_resolvable(self@),
    {
        let ghost d = self@;
        if self.validate().is_err() || self.color_mode != ColorMode::Indexed {
            return true;
        }
        let w = self.width as u16;
        let h = self.height as u16;
        let n = self.frames.len();
        let fc = len_u16(if n < 1 {
            1
        } else {
            n
        });
        proof {
            assert(fc == written_frame_count(d));
            assert(w == d.width as u16 && h == d.height as u16);
        }
        let mut frame: usize = 0;
        while frame < fc as usize
            invariant
                d == self@,
                validation_error(d) is None,
                d.color_mode == ColorMode::Indexed,
                fc == written_frame_count(d),
                w == d.width as u16,
                h == d.height as u16,
                frame <= fc,
                frames_encodable(d, w, h, frame),
                forall|f: usize, m: int| f < frame && 0 <= m < d.layers.len() ==> #[trigger] found_resolvable(d, f, m),
            decreases fc - frame,
        {
            let mut l: usize = 0;
            while l < self.layers.len()
                invariant
                    d == self@,
                    validation_error(d) is None,
                    d.color_mode == ColorMode::Indexed,
                    fc == written_frame_count(d),
                    w == d.width as u16,
                    h == d.height as u16,
                    frame < fc,
                    l <= d.layers.len(),
                    frames_encodable(d, w, h, frame),
                    layers_encodable(d, frame, w, h, l as int),
                    forall|f: usize, m: int| f < frame && 0 <= m < d.layers.len() ==> #[trigger] found_resolvable(d, f, m),
                    forall|m: int| 0 <= m < l ==> #[trigger] found_resolvable(d, frame, m),
                decreases d.layers.len() - l,
            {
                proof {
                    lemma_find_cel(d.cels, l, frame);
                }
                match self.cel_index(l, frame) {
                    None => {},
                    Some(i) => {
                        if !self.chain_ends(i) {
                            proof {
                                assert(!found_resolvable(d, frame, l as int));
                                assert(!reached_cels_resolvable(d, w, h, fc as nat));
                            }
                            return false;
                        }
                        let encodes = match self.resolved_pixels(&self.cels[i]) {
                            Some(PixelGrid::Indexed { width, height, indices }) => {
                                assert((w as u64) * (h as u64) <= 0x1_0000_0000) by (nonlinear_arith)
                                    requires
                                        w < 0x1_0000,
                                        h < 0x1_0000,
                                ;
                                (*width as u16) == w && (*height as u16) == h && indices.len() as u64 == (w as u64)
                                    * (h as u64)
                            },
                            _ => false,
                        };
                        if !encodes {
                            proof {
                                assert(!cel_encodable(d, frame, w, h, l as int));
                                assert forall|f: usize, m: int|
                                    f < fc && 0 <= m < d.layers.len() && frames_encodable(d, w, h, f)
                                        && layers_encodable(d, f, w, h, m) implies #[trigger] found_resolvable(
                                    d,
                                    f,
                                    m,
                                ) by {
                                    if f > frame {
                                        assert(layers_encodable(d, frame, w, h, d.layers.len() as int));
                                        assert(cel_encodable(d, frame, w, h, l as int));
                                    } else if f == frame && m > l {
                                        assert(cel_encodable(d, frame, w, h, l as int));
                                    }
                                }
                            }
                            return true;
                        }
                    },
                }
                proof {
                    assert(found_resolvable(d, frame, l as int));
                    assert(cel_encodable(d, frame, w, h, l as int));
                    assert forall|m: int| 0 <= m < l + 1 implies #[trigger] cel_encodable(d, frame, w, h, m) by {
                        if m < l {
                            assert(layers_encodable(d, frame, w, h, l as int));
                        }
                    }
                }
                l = l + 1;
            }
            proof {
                assert forall|k: usize| k < frame + 1 implies #[trigger] layers_encodable(
                    d,
                    k,
                    w,
                    h,
                    d.layers.len() as int,
                ) by {
                    if k < frame {
                        assert(frames_encodable(d, w, h, frame));
                    }
                }
                assert forall|f: usize, m: int| f < frame + 1 && 0 <= m < d.layers.len() implies #[trigger] found_resolvable(
                    d,
                    f,
                    m,
                ) by {
                    if f == frame {
                        assert(found_resolvable(d, frame, m));
                    }
                }
            }
            frame = frame + 1;
        }
        true
    }
}

} // verus!
