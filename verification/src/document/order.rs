//! The cels of a frame in drawing order.

use vstd::prelude::*;

use super::cel::Cel;
use super::sprite::SpriteDocument;

verus! {

/// Inserts `c` into `s` after every cel whose z-index is not above its own,
/// counting from the end: insertion sort's step, which keeps equal z-indices
/// in their original order.
pub open spec fn insert_by_z(s: Seq<Cel>, c: Cel) -> Seq<Cel>
    decreases s.len(),
{
    if s.len() == 0 {
        seq![c]
    } else if s.last().z_index > c.z_index {
        insert_by_z(s.drop_last(), c).push(s.last())
    } else {
        s.push(c)
    }
}

/// The cels sorted by z-index, cels of equal z-index kept in their order (a stable sort).
pub open spec fn sort_by_z(s: Seq<Cel>) -> Seq<Cel>
    decreases s.len(),
{
    if s.len() == 0 {
        s
    } else {
        insert_by_z(sort_by_z(s.drop_last()), s.last())
    }
}

/// The cel belongs to `frame`.
pub open spec fn in_frame(frame: usize) -> spec_fn(Cel) -> bool {
    |c: Cel| c.frame == frame
}

/// The cels that references point to.
pub open spec fn deref_cels(v: Seq<&Cel>) -> Seq<Cel> {
    v.map_values(|c: &Cel| *c)
}

/// The z-indices never decrease along the sequence.
pub open spec fn sorted_by_z(s: Seq<Cel>) -> bool {
    forall|i: int, j: int| 0 <= i < j < s.len() ==> (#[trigger] s[i]).z_index <= (#[trigger] s[j]).z_index
}

/// Insertion at a position past every cel whose z-index is not above that of `c`
/// and before the cels above it is what `insert_by_z` does.
proof fn lemma_insert_at(s: Seq<Cel>, c: Cel, k: int)
    requires
        0 <= k <= s.len(),
        forall|j: int| k <= j < s.len() ==> (#[trigger] s[j]).z_index > c.z_index,
        k == 0 || s[k - 1].z_index <= c.z_index,
    ensures
        insert_by_z(s, c) == s.insert(k, c),
    decreases s.len(),
{
    if s.len() == 0 {
        assert(seq![c] =~= s.insert(k, c));
    } else if k == s.len() {
        assert(s.push(c) =~= s.insert(k, c));
    } else {
        let t = s.drop_last();
        assert(s.last() == s[s.len() - 1]);
        assert forall|j: int| k <= j < t.len() implies (#[trigger] t[j]).z_index > c.z_index by {
            assert(t[j] == s[j]);
        }
        if k > 0 {
            assert(t[k - 1] == s[k - 1]);
        }
        lemma_insert_at(t, c, k);
        assert(t.insert(k, c).push(s.last()) =~= s.insert(k, c));
    }
}

/// Inserting into a sorted sequence keeps it sorted and adds exactly `c`.
pub proof fn lemma_insert_by_z(s: Seq<Cel>, c: Cel)
    requires
        sorted_by_z(s),
    ensures
        sorted_by_z(insert_by_z(s, c)),
        insert_by_z(s, c).to_multiset() == s.to_multiset().insert(c),
        forall|i: int| 0 <= i < insert_by_z(s, c).len() ==> #[trigger] insert_by_z(s, c)[i] == c || s.contains(
            insert_by_z(s, c)[i],
        ),
    decreases s.len(),
{
    broadcast use vstd::seq_lib::group_to_multiset_ensures;

    if s.len() == 0 {
        assert(seq![c] =~= Seq::<Cel>::empty().push(c));
        assert(s =~= Seq::<Cel>::empty());
    } else if s.last().z_index > c.z_index {
        let t = s.drop_last();
        assert(sorted_by_z(t)) by {
            assert forall|i: int, j: int| 0 <= i < j < t.len() implies (#[trigger] t[i]).z_index <= (
            #[trigger] t[j]).z_index by {
                assert(t[i] == s[i] && t[j] == s[j]);
            }
        }
        lemma_insert_by_z(t, c);
        let r = insert_by_z(t, c);
        assert forall|i: int| 0 <= i < r.len() implies (#[trigger] r[i]).z_index <= s.last().z_index by {
            if r[i] != c {
                let k = choose|k: int| 0 <= k < t.len() && t[k] == r[i];
                assert(s[k] == t[k]);
                assert(s[s.len() - 1] == s.last());
            }
        }
        assert(s =~= t.push(s.last()));
        assert forall|i: int| 0 <= i < r.push(s.last()).len() implies #[trigger] r.push(s.last())[i] == c
            || s.contains(r.push(s.last())[i]) by {
            if i < r.len() {
                if r[i] != c {
                    let k = choose|k: int| 0 <= k < t.len() && t[k] == r[i];
                    assert(s[k] == t[k]);
                }
            } else {
                assert(s[s.len() - 1] == s.last());
            }
        }
    } else {
        assert forall|i: int| 0 <= i < s.push(c).len() implies #[trigger] s.push(c)[i] == c || s.contains(
            s.push(c)[i],
        ) by {
            if i < s.len() {
                assert(s.push(c)[i] == s[i]);
            }
        }
        assert(s[s.len() - 1] == s.last());
    }
}

/// The cels of a frame in drawing order are sorted by z-index and are exactly
/// the frame's cels, each as often as it occurs.
pub proof fn lemma_sort_by_z(s: Seq<Cel>)
    ensures
        sorted_by_z(sort_by_z(s)),
        sort_by_z(s).to_multiset() == s.to_multiset(),
    decreases s.len(),
{
    broadcast use vstd::seq_lib::group_to_multiset_ensures;

    if s.len() > 0 {
        lemma_sort_by_z(s.drop_last());
        lemma_insert_by_z(sort_by_z(s.drop_last()), s.last());
        assert(s =~= s.drop_last().push(s.last()));
    }
}

impl SpriteDocument {
    /// The cels of `frame`, sorted by z-index; cels of equal z-index keep their order.
    pub fn cels_in_frame(&self, frame: usize) -> (list: Vec<&Cel>)
        ensures
            deref_cels(list@) == sort_by_z(self.cels@.filter(in_frame(frame))),
    {
        let mut list: Vec<&Cel> = Vec::new();
        let mut i: usize = 0;
        while i < self.cels.len()
            invariant
                i <= self.cels.len(),
                deref_cels(list@) == sort_by_z(self.cels@.take(i as int).filter(in_frame(frame))),
            decreases self.cels.len() - i,
        {
            let c = &self.cels[i];
            proof {
                reveal_with_fuel(Seq::<_>::filter, 1);
                assert(self.cels@.take(i + 1).drop_last() =~= self.cels@.take(i as int));
                assert(self.cels@.take(i + 1).last() == *c);
                assert(in_frame(frame)(*c) == (c.frame == frame));
            }
            if c.frame == frame {
                let ghost before = deref_cels(list@);
                let mut k = list.len();
                while k > 0 && list[k - 1].z_index > c.z_index
                    invariant
                        k <= list.len(),
                        before == deref_cels(list@),
                        forall|j: int| k <= j < list@.len() ==> (#[trigger] list@[j]).z_index > c.z_index,
                    decreases k,
                {
                    k = k - 1;
                }
                proof {
                    lemma_insert_at(before, *c, k as int);
                }
                list.insert(k, c);
                proof {
                    assert(deref_cels(list@) =~= before.insert(k as int, *c));
                    let f = self.cels@.take(i as int).filter(in_frame(frame));
                    assert(f.push(*c).drop_last() =~= f);
                    assert(sort_by_z(f.push(*c)) == insert_by_z(sort_by_z(f), *c));
                }
            }
            i = i + 1;
        }
        proof {
            assert(self.cels@.take(self.cels.len() as int) =~= self.cels@);
        }
        list
    }
}

} // verus!
