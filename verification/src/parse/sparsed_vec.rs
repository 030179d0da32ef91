//! A vector that only stores the values of the indexes that were set, and
//! remembers the gaps ("holes") between them.
//!
//! The representation is made of the values in index order, the sorted list of
//! holes `(start, size)` and the last index that holds a value.
use std::marker::PhantomData;

use vstd::prelude::*;

use super::holes::{
    hole_covers,
    hole_offset,
    hole_slot,
    holes_size,
    holes_wf,
    in_some_hole,
    lemma_hole_slots,
    lemma_holes_size_monotone,
    lemma_holes_size_nonneg,
    lemma_holes_size_take,
    lemma_holes_wf_from_neighbours,
    lemma_offset_all,
    lemma_holes_wf_take,
    lemma_insert_append,
    lemma_insert_hole_end,
    lemma_insert_hole_start,
    lemma_insert_split,
    lemma_offset_after,
    lemma_offset_same,
    lemma_offset_span,
    lemma_offset_take,
    lemma_offset_zero,
    lemma_remove_extend_next,
    lemma_remove_extend_previous,
    lemma_remove_last,
    lemma_remove_last_after_hole,
    lemma_remove_merge,
    lemma_remove_new_hole,
    lemma_rep_map_update,
    lemma_scan,
    lemma_scan_step,
    lemma_slot_bounds,
    lemma_slot_last,
    lemma_slot_of_hole_start,
    lemma_slot_position,
    lemma_slot_shift_monotone,
    lemma_slot_strict,
    rep_map,
    rep_present,
    rep_wf,
    slot_of,
    slot_shift,
    strictly_inside_hole,
};

verus! {

/// An index type that can be turned into a `usize` position.
pub trait SparseIndex: Copy {
    spec fn spec_position(&self) -> usize;

    fn position(&self) -> (res: usize)
        ensures
            res == self.spec_position(),
    ;
}

impl SparseIndex for usize {
    open spec fn spec_position(&self) -> usize {
        *self
    }

    fn position(&self) -> (res: usize) {
        *self
    }
}

impl SparseIndex for u32 {
    open spec fn spec_position(&self) -> usize {
        *self as usize
    }

    fn position(&self) -> (res: usize) {
        *self as usize
    }
}

/// The position of a `u32` or `usize` index is its value, so two different
/// indexes never share a position, and what is stored at one never stands at
/// another.
pub proof fn lemma_positions_are_values(a: u32, b: u32, p: usize, q: usize)
    ensures
        a.spec_position() as int == a as int,
        p.spec_position() as int == p as int,
        a != b ==> a.spec_position() != b.spec_position(),
        p != q ==> p.spec_position() != q.spec_position(),
{
}

/// The number of holes, from the first, that end before position `p`.
/// (On given holes, it unfolds once per hole counted.)
pub open spec fn holes_before(holes: Seq<(usize, usize)>, p: int) -> int
    decreases holes.len(),
{
    if holes.len() == 0 {
        0
    } else if holes[0].0 + holes[0].1 <= p {
        1 + holes_before(holes.drop_first(), p)
    } else {
        0
    }
}

/// The place in the value list of position `p`, counting the holes that end
/// before it.
pub open spec fn base_slot(holes: Seq<(usize, usize)>, p: int) -> int {
    p - hole_offset(holes.take(holes_before(holes, p)), p)
}

/// Whether position `p` lies in the hole that follows the holes ending before
/// it.
pub open spec fn in_next_hole(holes: Seq<(usize, usize)>, p: int) -> bool {
    let k = holes_before(holes, p);
    k < holes.len() && holes[k].0 <= p
}

/// The last index after storing a value at `p`.
pub open spec fn last_after_insert(last: Option<usize>, p: usize) -> Option<usize> {
    match last {
        Some(l) if p <= l => Some(l),
        _ => Some(p),
    }
}

/// The holes after storing a value at `p`: beyond the last index, the gap
/// before `p` becomes a hole; inside a hole, that hole loses `p` (it is split,
/// shortened or dropped); otherwise they stay.
pub open spec fn holes_after_insert(
    holes: Seq<(usize, usize)>,
    last: Option<usize>,
    p: usize,
) -> Seq<(usize, usize)> {
    match last {
        None => if p > 0 {
            seq![(0usize, p)]
        } else {
            holes
        },
        Some(l) => if p > l {
            if p > l + 1 {
                holes.push(((l + 1) as usize, (p - l - 1) as usize))
            } else {
                holes
            }
        } else if in_next_hole(holes, p as int) {
            let k = holes_before(holes, p as int);
            let (s, n) = holes[k];
            if s < p && p < s + n - 1 {
                holes.update(k, (s, (p - s) as usize)).insert(
                    k + 1,
                    ((p + 1) as usize, (s + n - 1 - p) as usize),
                )
            } else if s < p {
                holes.update(k, (s, (n - 1) as usize))
            } else if n > 1 {
                holes.update(k, ((s + 1) as usize, (n - 1) as usize))
            } else {
                holes.remove(k)
            }
        } else {
            holes
        },
    }
}

/// The values after storing `value` at `p`: appended beyond the last index,
/// inserted in its place when `p` was in a hole, replacing the value there
/// otherwise.
pub open spec fn values_after_insert<V>(
    holes: Seq<(usize, usize)>,
    values: Seq<V>,
    last: Option<usize>,
    p: usize,
    value: V,
) -> Seq<V> {
    match last {
        Some(l) if p <= l => if in_next_hole(holes, p as int) {
            let k = holes_before(holes, p as int);
            values.insert(base_slot(holes, p as int) - (p - holes[k].0), value)
        } else {
            values.update(base_slot(holes, p as int), value)
        },
        _ => values.push(value),
    }
}

/// Whether the hole before `p` ends right before it.
pub open spec fn hole_ends_before(holes: Seq<(usize, usize)>, p: int) -> bool {
    let k = holes_before(holes, p);
    k > 0 && holes[k - 1].0 + holes[k - 1].1 == p
}

/// Whether the hole after `p` starts right after it.
pub open spec fn hole_starts_after(holes: Seq<(usize, usize)>, p: int) -> bool {
    let k = holes_before(holes, p);
    k < holes.len() && holes[k].0 == p + 1
}

/// The holes after removing the value stored at `p`: removing the last value
/// also drops the hole right before it; otherwise `p` becomes part of a hole,
/// joining the holes right before and right after it.
pub open spec fn holes_after_remove(
    holes: Seq<(usize, usize)>,
    last: Option<usize>,
    p: usize,
) -> Seq<(usize, usize)> {
    let k = holes_before(holes, p as int);
    let before = hole_ends_before(holes, p as int);
    let after = hole_starts_after(holes, p as int);
    if last == Some(p) {
        if before {
            holes.remove(k - 1)
        } else {
            holes
        }
    } else if before && after {
        holes.update(k - 1, (holes[k - 1].0, (holes[k - 1].1 + 1 + holes[k].1) as usize)).remove(
            k,
        )
    } else if before {
        holes.update(k - 1, (holes[k - 1].0, (holes[k - 1].1 + 1) as usize))
    } else if after {
        holes.update(k, (p, (holes[k].1 + 1) as usize))
    } else {
        holes.insert(k, (p, 1usize))
    }
}

/// The last index after removing the value stored at `p`: the last index
/// before the hole that then ends the vector, when `p` was the last one.
pub open spec fn last_after_remove<V>(
    holes: Seq<(usize, usize)>,
    values: Seq<V>,
    last: Option<usize>,
    p: usize,
) -> Option<usize> {
    if last == Some(p) {
        if values.len() == 1 {
            None
        } else if hole_ends_before(holes, p as int) {
            let k = holes_before(holes, p as int);
            Some((holes[k - 1].0 - 1) as usize)
        } else {
            Some((p - 1) as usize)
        }
    } else {
        last
    }
}

/// Counting the holes that end before `p`: it is the index of the first hole
/// that does not.
pub proof fn lemma_holes_before(holes: Seq<(usize, usize)>, p: int, k: int)
    requires
        0 <= k <= holes.len(),
        forall|j: int| 0 <= j < k ==> #[trigger] holes[j].0 + holes[j].1 <= p,
        k == holes.len() || holes[k].0 + holes[k].1 > p,
    ensures
        holes_before(holes, p) == k,
    decreases k,
{
    if k > 0 {
        let rest = holes.drop_first();
        assert forall|j: int| 0 <= j < k - 1 implies #[trigger] rest[j].0 + rest[j].1 <= p by {
            assert(rest[j] == holes[j + 1]);
        }
        if k < holes.len() {
            assert(rest[k - 1] == holes[k]);
        }
        lemma_holes_before(rest, p, k - 1);
    }
}

/// An edit of a single index.
enum Mutation<V> {
    Insert(V),
    Remove,
}

/// A vector indexed by `K` whose absent indexes take no room.
pub struct SparsedVec<K, V> {
    last_index: Option<usize>,
    holes: Vec<(usize, usize)>,
    values: Vec<V>,
    index_type: PhantomData<K>,
}

impl<K: SparseIndex, V: Copy> View for SparsedVec<K, V> {
    type V = Map<usize, V>;

    closed spec fn view(&self) -> Map<usize, V> {
        rep_map(self.holes@, self.values@, self.last_index)
    }
}

impl<K: SparseIndex, V: Copy> SparsedVec<K, V> {
    /// The representation invariant.
    pub closed spec fn wf(&self) -> bool {
        rep_wf(self.holes@, self.values@, self.last_index)
    }

    /// The holes `(start, size)`, as `holes()` gives them.
    pub closed spec fn spec_holes(&self) -> Seq<(usize, usize)> {
        self.holes@
    }

    /// The stored values, as `values()` gives them.
    pub closed spec fn spec_values(&self) -> Seq<V> {
        self.values@
    }

    /// The last index, as `last_index()` gives it.
    pub closed spec fn spec_last_index(&self) -> Option<usize> {
        self.last_index
    }

    /// The position in `values` of the value stored at `index`, if any.
    fn get_real_index(&self, index: usize) -> (res: Option<usize>)
        requires
            self.wf(),
        ensures
            match res {
                Some(r) => {
                    &&& rep_present(self.holes@, self.last_index, index as int)
                    &&& r == index - hole_offset(self.holes@, index as int)
                    &&& r < self.values@.len()
                },
                None => !rep_present(self.holes@, self.last_index, index as int),
            },
    {
        let values_len = self.values.len();

        let beyond_last = match self.last_index {
            Some(last_index) => last_index < index,
            None => false,
        };

        if values_len == 0 || beyond_last {
            return None;
        }

        let holes_len = self.holes.len();

        if holes_len == 0 {
            proof {
                lemma_slot_bounds(self.holes@, self.values@, self.last_index, index as int);
            }
            return Some(index);
        }

        let mut offset: usize = 0;
        let mut i: usize = 0;

        while i < holes_len
            invariant_except_break
                forall|j: int| 0 <= j < i ==> #[trigger] self.holes@[j].0 < index,
            invariant
                self.wf(),
                holes_len == self.holes@.len(),
                0 <= i <= holes_len,
                self.last_index is Some,
                index <= self.last_index.unwrap(),
                forall|j: int| 0 <= j < i ==> !#[trigger] hole_covers(self.holes@[j], index as int),
                offset == hole_offset(self.holes@.take(i as int), index as int),
            ensures
                i == holes_len || self.holes@[i as int].0 > index,
                forall|j: int| 0 <= j < i ==> #[trigger] self.holes@[j].0 < index,
            decreases holes_len - i,
        {
            let (hole_index, hole_size) = self.holes[i];

            if hole_index < index {
                if hole_index + hole_size - 1 >= index {
                    assert(hole_covers(self.holes@[i as int], index as int));
                    return None;
                }
                proof {
                    let t = self.holes@.take(i as int + 1);
                    lemma_offset_take(self.holes@, i as int, index as int);
                    lemma_holes_wf_take(self.holes@, i as int + 1);
                    assert forall|j: int| 0 <= j < t.len() && #[trigger] t[j].0 < index implies t[j].0
                        + t[j].1 <= index by {
                        assert(t[j] == self.holes@[j]);
                        if j < i {
                            assert(!hole_covers(self.holes@[j], index as int));
                        }
                    }
                    lemma_offset_span(t, 0, index as int);
                    lemma_offset_zero(t);
                }
                offset += hole_size;
                i += 1;
            } else if hole_index > index {
                break;
            } else {
                assert(hole_covers(self.holes@[i as int], index as int));
                return None;
            }
        }

        proof {
            let h = self.holes@;
            assert forall|j: int| i <= j < h.len() implies #[trigger] h[j].0 >= index by {
                if j > i {
                    assert(h[i as int].0 + h[i as int].1 < h[j].0);
                }
            }
            lemma_offset_after(h, i as int, index as int);
            assert forall|j: int| 0 <= j < h.len() implies !#[trigger] hole_covers(h[j], index as int) by {
                if j >= i {
                    assert(h[j].0 >= index);
                    if j > i {
                        assert(h[i as int].0 + h[i as int].1 < h[j].0);
                    }
                }
            }
            lemma_slot_bounds(h, self.values@, self.last_index, index as int);
        }
        Some(index - offset)
    }

    /// The value stored at `index`, if any.
    pub fn get(&self, index: K) -> (res: Option<&V>)
        requires
            self.wf(),
        ensures
            match res {
                Some(v) => self@.contains_key(index.spec_position()) && *v == self@[index.spec_position()],
                None => !self@.contains_key(index.spec_position()),
            },
    {
        match self.get_real_index(index.position()) {
            Some(real_index) => Some(&self.values[real_index]),
            None => None,
        }
    }

    /// A mutable reference to the value stored at `index`, if any.
    pub fn get_mut(&mut self, index: K) -> (res: Option<&mut V>)
        requires
            old(self).wf(),
        ensures
            match res {
                Some(v) => {
                    &&& old(self)@.contains_key(index.spec_position())
                    &&& *v == old(self)@[index.spec_position()]
                    &&& final(self).wf()
                    &&& final(self)@ == old(self)@.insert(index.spec_position(), *final(v))
                },
                None => {
                    &&& !old(self)@.contains_key(index.spec_position())
                    &&& *final(self) == *old(self)
                },
            },
    {
        let p = index.position();
        match self.get_real_index(p) {
            Some(real_index) => {
                proof {
                    lemma_rep_map_update(self.holes@, self.values@, self.last_index, p);
                }
                Some(&mut self.values[real_index])
            },
            None => None,
        }
    }

    /// Removes every value.
    pub fn clear(&mut self)
        ensures
            final(self).wf(),
            final(self)@ == Map::<usize, V>::empty(),
            final(self).spec_last_index() is None,
            final(self).spec_holes().len() == 0,
            final(self).spec_values().len() == 0,
    {
        self.values = vec![];
        self.holes = vec![];
        self.last_index = None;
        assert(self@ =~= Map::<usize, V>::empty());
    }


    #[verifier::spinoff_prover]
    #[verifier::rlimit(80)]
    fn mutate(&mut self, index: usize, mutation: Mutation<V>) -> (res: Option<V>)
        requires
            old(self).wf(),
        ensures
            !(mutation is Remove && !old(self)@.contains_key(index) && strictly_inside_hole(
                old(self).holes@,
                index as int,
            )) ==> final(self).wf(),
            mutation is Remove && !old(self)@.contains_key(index) && !strictly_inside_hole(
                old(self).holes@,
                index as int,
            ) ==> res is None && *final(self) == *old(self),
            mutation is Remove && !old(self)@.contains_key(index) && strictly_inside_hole(
                old(self).holes@,
                index as int,
            ) ==> {
                &&& res is None
                &&& final(self).values@ == old(self).values@
                &&& final(self).last_index == old(self).last_index
                &&& exists|j: int|
                    0 <= j < old(self).holes@.len() && old(self).holes@[j].0 < index
                        < old(self).holes@[j].0 + old(self).holes@[j].1 - 1
                        && final(self).holes@ == old(self).holes@.update(
                        j,
                        (old(self).holes@[j].0, (index - old(self).holes@[j].0) as usize),
                    )
            },
            mutation matches Mutation::Insert(value) ==> final(self)@ == old(self)@.insert(index, value),
            mutation is Insert ==> res == if old(self)@.contains_key(index) {
                Some(old(self)@[index])
            } else {
                None
            },
            mutation is Insert ==> final(self).holes@ == holes_after_insert(
                old(self).holes@,
                old(self).last_index,
                index,
            ),
            mutation matches Mutation::Insert(value) ==> final(self).values@ == values_after_insert(
                old(self).holes@,
                old(self).values@,
                old(self).last_index,
                index,
                value,
            ),
            mutation is Insert ==> final(self).last_index == last_after_insert(old(self).last_index, index),
            mutation is Remove && old(self)@.contains_key(index) ==> final(self)@ == old(self)@.remove(index),
            mutation is Remove && old(self)@.contains_key(index) ==> res == Some(old(self)@[index]),
            mutation is Remove && old(self)@.contains_key(index) ==> final(self).holes@ == holes_after_remove(
                old(self).holes@,
                old(self).last_index,
                index,
            ),
            mutation is Remove && old(self)@.contains_key(index) ==> final(self).values@ == old(self).values@.remove(
                base_slot(old(self).holes@, index as int),
            ),
            mutation is Remove && old(self)@.contains_key(index) ==> final(self).last_index == last_after_remove(
                old(self).holes@,
                old(self).values@,
                old(self).last_index,
                index,
            ),
    {
        let ghost h = self.holes@;
        let ghost vs = self.values@;
        let ghost l = self.last_index;

        let one: usize = 1;

        let is_remove = match mutation {
            Mutation::Remove => true,
            Mutation::Insert(_) => false,
        };

        let mut real_index: usize = index;

        let mut hole_to_delete: Option<usize> = None;
        let mut hole_to_insert: Option<(usize, (usize, usize))> = None;
        let mut hole_to_be_consumed: Option<(usize, usize)> = None;

        let mut extended_previous_hole = false;
        let mut extended_next_hole = false;
        let mut ends_in_hole = false;

        let mut processed_holes: usize = 0;

        let holes_len = self.holes.len();
        let mut hole_index: usize = 0;

        // Holes that end before the requested index only shift it
        while hole_index < holes_len
            invariant
                self.holes@ == h,
                self.values@ == vs,
                self.last_index == l,
                rep_wf(h, vs, l),
                one == 1,
                is_remove == (mutation is Remove),
                holes_len == h.len(),
                0 <= hole_index <= holes_len,
                processed_holes == hole_index,
                forall|j: int| 0 <= j < hole_index ==> #[trigger] h[j].0 + h[j].1 <= index,
                real_index == index - hole_offset(h.take(hole_index as int), index as int),
            ensures
                hole_index == holes_len || h[hole_index as int].0 + h[hole_index as int].1 > index,
            decreases holes_len - hole_index,
        {
            let (hole_start, hole_size) = self.holes[hole_index];
            proof {
                assert(h[hole_index as int].1 >= 1);
                assert(h[hole_index as int].0 + h[hole_index as int].1 <= l.unwrap());
            }
            let hole_end = hole_start + hole_size - one;

            if hole_end >= index {
                break;
            }
            proof {
                lemma_scan_step(h, index as int, hole_index as int);
            }
            processed_holes += 1;
            real_index -= hole_size;
            hole_index += 1;
        }

        let ghost k = hole_index as int;
        let ghost base = real_index as int;
        proof {
            lemma_scan(h, index as int, k);
            lemma_holes_before(h, index as int, k);
            assert(base == base_slot(h, index as int));
        }

        // Removing right after a hole: extend it, or drop it if nothing comes after
        if is_remove && hole_index > 0 {
            let (previous_start, previous_size) = self.holes[hole_index - 1];

            if previous_start + previous_size == index {
                proof {
                    assert(rep_present(h, l, index as int));
                    lemma_slot_last(h, vs, l, index as int);
                }
                if real_index == self.values.len() - 1 {
                    hole_to_delete = Some(hole_index - 1);
                } else {
                    self.holes.set(hole_index - 1, (previous_start, previous_size + one));
                    extended_previous_hole = true;
                }
            }
        }

        if hole_index < holes_len {
            let (hole_start, hole_size) = self.holes[hole_index];
            proof {
                assert(h[k].1 >= 1);
                assert(h[k].0 + h[k].1 <= l.unwrap());
                if h[k].0 <= index {
                    lemma_slot_of_hole_start(h, vs, l, index, k);
                }
            }
            let hole_end = hole_start + hole_size - one;

            if hole_start < index {
                // Requested index is after the hole's start
                processed_holes += 1;
                ends_in_hole = true;

                if hole_end > index {
                    // Requested index is inside the hole
                    let previous_hole_size = hole_size;
                    let new_hole_size = index - hole_start;
                    self.holes.set(hole_index, (hole_start, new_hole_size));
                    real_index -= new_hole_size;

                    if is_remove {
                        proof {
                            assert(strictly_inside_hole(h, index as int));
                        }
                        return None;
                    }
                    hole_to_insert = Some(
                        (hole_index + 1, (index + one, previous_hole_size - new_hole_size - one)),
                    );
                } else {
                    // Requested index is the end of the hole
                    if is_remove {
                        proof {
                            assert(!strictly_inside_hole(h, index as int));
                            assert(!rep_present(h, l, index as int));
                            assert(self@ =~= self@.remove(index));
                        }
                        return None;
                    }
                    self.holes.set(hole_index, (hole_start, hole_size - one));
                    real_index -= hole_size - one;
                }
            } else if hole_start > index {
                // Requested index is before the hole
                if is_remove && hole_start > 0 && hole_start - one == index {
                    extended_next_hole = true;

                    if extended_previous_hole {
                        hole_to_be_consumed = Some((hole_index, hole_size));
                    } else {
                        self.holes.set(hole_index, (hole_start - one, hole_size + one));
                    }
                }
            } else {
                // Requested index is the start of the hole
                ends_in_hole = true;

                if is_remove {
                    proof {
                        assert(!strictly_inside_hole(h, index as int));
                        assert(!rep_present(h, l, index as int));
                        assert(self@ =~= self@.remove(index));
                    }
                    return None;
                }
                if hole_size > one {
                    self.holes.set(hole_index, (hole_start + one, hole_size - one));
                } else {
                    hole_to_delete = Some(hole_index);
                }
            }
        }

        proof {
            assert(ends_in_hole == (k < h.len() && h[k].0 <= index));
            assert(in_some_hole(h, index as int) == ends_in_hole);
        }
        let mut deleted_hole_size: Option<usize> = None;

        if let Some(hole_index_to_delete) = hole_to_delete {
            let (_, deleted_size) = self.holes.remove(hole_index_to_delete);
            deleted_hole_size = Some(deleted_size);
        } else if let Some((hole_index_to_insert, hole)) = hole_to_insert {
            self.holes.insert(hole_index_to_insert, hole);
        } else if let Some((hole_index_to_consume, consumed_size)) = hole_to_be_consumed {
            let (previous_start, previous_size) = self.holes[hole_index_to_consume - 1];
            self.holes.set(hole_index_to_consume - 1, (previous_start, previous_size + consumed_size));
            self.holes.remove(hole_index_to_consume);
        }

        let len = self.values.len();

        match mutation {
            Mutation::Insert(value) => {
                if real_index < len {
                    if ends_in_hole {
                        proof {
                            let s = h[k].0;
                            if s < index && s + h[k].1 - 1 > index {
                                lemma_insert_split(h, vs, l, index, k, value);
                            } else if s < index {
                                lemma_insert_hole_end(h, vs, l, index, k, value);
                            } else {
                                lemma_insert_hole_start(h, vs, l, index, k, value);
                            }
                        }
                        self.values.insert(real_index, value);
                        None
                    } else {
                        proof {
                            if !rep_present(h, l, index as int) {
                                lemma_insert_append(h, vs, l, index, value);
                            }
                            lemma_rep_map_update(h, vs, l, index);
                        }
                        let previous = self.values[real_index];
                        self.values.set(real_index, value);
                        Some(previous)
                    }
                } else {
                    proof {
                        if rep_present(h, l, index as int) {
                            lemma_slot_bounds(h, vs, l, index as int);
                        }
                        lemma_insert_append(h, vs, l, index, value);
                        assert(k == h.len());
                        assert(h.take(k) =~= h);
                        if l is Some {
                            let lv = l.unwrap() as int;
                            assert forall|j: int| 0 <= j < h.len() implies !(lv + 1
                                <= #[trigger] h[j].0 < index) by {}
                            lemma_offset_same(h, lv + 1, index as int);
                        } else {
                            assert(h.len() == 0);
                        }
                    }
                    self.last_index = Some(index);
                    self.values.push(value);

                    if real_index > len {
                        self.holes.push((index - (real_index - len), real_index - len));
                    }
                    None
                }
            },
            Mutation::Remove => {
                if real_index < len {
                    let is_last = real_index == len - 1;

                    proof {
                        if !rep_present(h, l, index as int) {
                            lemma_insert_append(h, vs, l, index, vs[0]);
                        }
                        lemma_slot_last(h, vs, l, index as int);
                    }

                    if is_last {
                        if len > 1 {
                            let deleted = match deleted_hole_size {
                                Some(size) => size,
                                None => 0,
                            };
                            proof {
                                if k > 0 && h[k - 1].0 + h[k - 1].1 == index {
                                    lemma_remove_last_after_hole(h, vs, l, index, k);
                                } else {
                                    lemma_remove_last(h, vs, l, index, k);
                                }
                            }
                            self.last_index = Some(index - one - deleted);
                        } else {
                            self.last_index = None;
                        }
                    }

                    let needs_new_hole = !is_last && !extended_previous_hole && !extended_next_hole;

                    if needs_new_hole {
                        self.holes.insert(processed_holes, (index, one));
                    }

                    let removed = self.values.remove(real_index);
                    proof {
                        if is_last {
                            if k > 0 && h[k - 1].0 + h[k - 1].1 == index {
                                lemma_remove_last_after_hole(h, vs, l, index, k);
                            } else {
                                lemma_remove_last(h, vs, l, index, k);
                            }
                        } else if extended_previous_hole && extended_next_hole {
                            let merged = (h[k - 1].0, (h[k - 1].1 + 1 + h[k].1) as usize);
                            assert(self.holes@ =~= h.update(k - 1, merged).remove(k));
                            lemma_remove_merge(h, vs, l, index, k);
                        } else if extended_previous_hole {
                            lemma_remove_extend_previous(h, vs, l, index, k);
                        } else if extended_next_hole {
                            lemma_remove_extend_next(h, vs, l, index, k);
                        } else {
                            lemma_remove_new_hole(h, vs, l, index, k);
                        }
                    }
                    Some(removed)
                } else {
                    proof {
                        if rep_present(h, l, index as int) {
                            lemma_slot_bounds(h, vs, l, index as int);
                        }
                        assert(self@ =~= self@.remove(index));
                    }
                    None
                }
            },
        }
    }


    /// The stored values with their indexes, in increasing index order: the
    /// k-th pair holds the k-th stored value.
    pub fn to_vec(&self) -> (res: Vec<(usize, &V)>)
        requires
            self.wf(),
        ensures
            res@.len() == self.spec_values().len(),
            forall|k: int| 0 <= k < res@.len() ==> *#[trigger] res@[k].1 == self.spec_values()[k],
            forall|k: int|
                0 <= k < res@.len() ==> self@.contains_key(#[trigger] res@[k].0) && *res@[k].1
                    == self@[res@[k].0],
            forall|i: int, j: int| 0 <= i < j < res@.len() ==> res@[i].0 < res@[j].0,
            forall|p: usize|
                self@.contains_key(p) ==> exists|k: int| 0 <= k < res@.len() && #[trigger] res@[k].0 == p,
    {
        let ghost h = self.holes@;
        let ghost vs = self.values@;
        let ghost l = self.last_index;
        let len = self.values.len();

        let mut tuples: Vec<(usize, &V)> = Vec::new();
        let mut i: usize = 0;
        while i < len
            invariant
                len == vs.len(),
                self.values@ == vs,
                0 <= i <= len,
                tuples@.len() == i,
                forall|t: int| 0 <= t < i ==> #[trigger] tuples@[t].0 == t && *tuples@[t].1 == vs[t],
            decreases len - i,
        {
            tuples.push((i, &self.values[i]));
            i += 1;
        }

        proof {
            lemma_hole_slots(h, vs, l);
            assert forall|t: int| 0 <= t < len implies tuples@[t].0 == t + #[trigger] slot_shift(
                h,
                0,
                t,
            ) by {}
            lemma_holes_size_nonneg(h.take(0));
            assert(h.take(0) =~= Seq::<(usize, usize)>::empty());
        }

        let mut offset: usize = 0;
        let holes_len = self.holes.len();
        let mut j: usize = 0;

        while j < holes_len
            invariant
                self.wf(),
                self.holes@ == h,
                self.values@ == vs,
                self.last_index == l,
                len == vs.len(),
                holes_len == h.len(),
                0 <= j <= holes_len,
                offset == holes_size(h.take(j as int)),
                tuples@.len() == len,
                forall|t: int|
                    0 <= t < len ==> #[trigger] tuples@[t].0 == t + slot_shift(h, j as int, t)
                        && *tuples@[t].1 == vs[t],
            decreases holes_len - j,
        {
            let (hole_index, hole_size) = self.holes[j];
            proof {
                lemma_hole_slots(h, vs, l);
                assert(0 <= hole_slot(h, j as int) < len);
                lemma_holes_size_take(h, j as int);
                lemma_holes_size_monotone(h, j as int + 1, holes_len as int);
                assert(h.take(holes_len as int) =~= h);
            }
            let start = hole_index - offset;
            let mut t = start;
            while t < len
                invariant
                    self.wf(),
                    self.holes@ == h,
                    self.values@ == vs,
                    self.last_index == l,
                    len == vs.len(),
                    holes_len == h.len(),
                    0 <= j < holes_len,
                    hole_index == h[j as int].0,
                    hole_size == h[j as int].1,
                    start == hole_slot(h, j as int),
                    start <= t <= len,
                    tuples@.len() == len,
                    forall|u: int|
                        0 <= u < len ==> #[trigger] tuples@[u].0 == u + slot_shift(
                            h,
                            if start <= u < t {
                                j + 1
                            } else {
                                j as int
                            },
                            u,
                        ) && *tuples@[u].1 == vs[u],
                decreases len - t,
            {
                proof {
                    lemma_slot_position(h, vs, l, t as int);
                    lemma_slot_shift_monotone(h, j as int + 1, holes_len as int, t as int);
                }
                let (position, value) = tuples[t];
                tuples.set(t, (position + hole_size, value));
                t += 1;
            }
            offset += hole_size;
            j += 1;
        }

        proof {
            assert forall|k: int| 0 <= k < len implies *#[trigger] tuples@[k].1 == vs[k] by {
                assert(tuples@[k].0 == k + slot_shift(h, holes_len as int, k));
            }
            assert forall|k: int|
                0 <= k < len implies self@.contains_key(#[trigger] tuples@[k].0) && *tuples@[k].1
                == self@[tuples@[k].0] by {
                lemma_slot_position(h, vs, l, k);
            }
            assert forall|a: int, b: int| 0 <= a < b < len implies tuples@[a].0 < tuples@[b].0 by {
                lemma_slot_position(h, vs, l, a);
                lemma_slot_position(h, vs, l, b);
                let pa = tuples@[a].0 as int;
                let pb = tuples@[b].0 as int;
                if pb < pa {
                    lemma_slot_strict(h, vs, l, pb, pa);
                }
            }
            assert forall|p: usize| self@.contains_key(p) implies exists|k: int|
                0 <= k < len && #[trigger] tuples@[k].0 == p by {
                lemma_slot_bounds(h, vs, l, p as int);
                let k = slot_of(h, p as int);
                lemma_slot_position(h, vs, l, k);
                let q = tuples@[k].0 as int;
                if q < p {
                    lemma_slot_strict(h, vs, l, q, p as int);
                } else if q > p {
                    lemma_slot_strict(h, vs, l, p as int, q);
                }
                assert(tuples@[k].0 == p);
            }
        }
        tuples
    }

    /// Stores `value` at `index`, and gives back the value it replaces, if any.
    pub fn insert(&mut self, index: K, value: V) -> (res: Option<V>)
        requires
            old(self).wf(),
        ensures
            final(self).wf(),
            final(self)@ == old(self)@.insert(index.spec_position(), value),
            res == if old(self)@.contains_key(index.spec_position()) {
                Some(old(self)@[index.spec_position()])
            } else {
                None
            },
            final(self).spec_holes() == holes_after_insert(
                old(self).spec_holes(),
                old(self).spec_last_index(),
                index.spec_position(),
            ),
            final(self).spec_values() == values_after_insert(
                old(self).spec_holes(),
                old(self).spec_values(),
                old(self).spec_last_index(),
                index.spec_position(),
                value,
            ),
            final(self).spec_last_index() == last_after_insert(
                old(self).spec_last_index(),
                index.spec_position(),
            ),
    {
        self.mutate(index.position(), Mutation::Insert(value))
    }

    /// Removes the value stored at `index`, and gives it back, if any.
    ///
    /// An index that holds no value changes nothing, except one that lies
    /// strictly inside a hole (after its first position and before its last):
    /// that hole is then cut short to end right before the index, and the
    /// vector no longer keeps its invariant. A stored index never lies in a
    /// hole (`lemma_present_not_in_hole`).
    pub fn remove(&mut self, index: K) -> (res: Option<V>)
        requires
            old(self).wf(),
        ensures
            ({
                let p = index.spec_position();
                let present = old(self)@.contains_key(p);
                let inside = strictly_inside_hole(old(self).spec_holes(), p as int);
                &&& res == if present {
                    Some(old(self)@[p])
                } else {
                    None
                }
                &&& present ==> {
                    &&& final(self).wf()
                    &&& final(self)@ == old(self)@.remove(p)
                    &&& final(self).spec_holes() == holes_after_remove(
                        old(self).spec_holes(),
                        old(self).spec_last_index(),
                        p,
                    )
                    &&& final(self).spec_values() == old(self).spec_values().remove(
                        base_slot(old(self).spec_holes(), p as int),
                    )
                    &&& final(self).spec_last_index() == last_after_remove(
                        old(self).spec_holes(),
                        old(self).spec_values(),
                        old(self).spec_last_index(),
                        p,
                    )
                }
                &&& !present && !inside ==> *final(self) == *old(self)
                &&& !present && inside ==> {
                    let h = old(self).spec_holes();
                    &&& final(self).spec_values() == old(self).spec_values()
                    &&& final(self).spec_last_index() == old(self).spec_last_index()
                    &&& exists|j: int|
                        0 <= j < h.len() && h[j].0 < p < h[j].0 + h[j].1 - 1
                            && final(self).spec_holes() == h.update(j, (h[j].0, (p - h[j].0) as usize))
                }
            }),
    {
        self.mutate(index.position(), Mutation::Remove)
    }

    /// A vector made of its parts: its last index, its holes and its values,
    /// when they form a valid vector (non-empty holes, sorted and apart, all
    /// before the last index, and as many values as positions up to the last
    /// index outside the holes); none otherwise.
    pub fn from_parts(
        last_index: Option<usize>,
        holes: Vec<(usize, usize)>,
        values: Vec<V>,
    ) -> (res: Option<Self>)
        ensures
            res is Some <==> rep_wf(holes@, values@, last_index),
            res matches Some(v) ==> {
                &&& v.wf()
                &&& v.spec_holes() == holes@
                &&& v.spec_values() == values@
                &&& v.spec_last_index() == last_index
            },
    {
        let l = match last_index {
            None => {
                if holes.len() == 0 && values.len() == 0 {
                    return Some(SparsedVec { last_index, holes, values, index_type: PhantomData });
                }
                return None;
            },
            Some(l) => l,
        };
        let ghost h = holes@;
        let mut total: usize = 0;
        let mut i: usize = 0;
        while i < holes.len()
            invariant
                h == holes@,
                last_index == Some(l),
                0 <= i <= h.len(),
                forall|j: int| 0 <= j < i ==> #[trigger] h[j].1 >= 1,
                forall|j: int| 0 <= j < i ==> #[trigger] h[j].0 + h[j].1 <= l,
                forall|j: int| 0 <= j < i - 1 ==> #[trigger] h[j].0 + h[j].1 < h[j + 1].0,
                total == holes_size(h.take(i as int)),
                total <= l,
            decreases h.len() - i,
        {
            let (start, size) = holes[i];
            proof {
                lemma_holes_size_take(h, i as int);
            }
            if size == 0 || start > l || size > l - start {
                proof {
                    if rep_wf(h, values@, last_index) {
                        assert(holes_wf(h));
                        assert(h[i as int].1 >= 1);
                        assert(h[i as int].0 + h[i as int].1 <= l);
                        assert(false);
                    }
                }
                return None;
            }
            if i > 0 {
                let (previous_start, previous_size) = holes[i - 1];
                if previous_start + previous_size >= start {
                    proof {
                        assert(!holes_wf(h)) by {
                            assert(h[i - 1].0 + h[i - 1].1 >= h[i as int].0);
                        }
                    }
                    return None;
                }
            }
            proof {
                if i > 0 {
                    assert(h[i - 1].0 + h[i - 1].1 < h[i as int].0);
                    lemma_holes_size_monotone_le(h, i as int, l as int);
                }
            }
            total = total + size;
            i += 1;
        }
        proof {
            assert(h.take(h.len() as int) =~= h);
            lemma_holes_wf_from_neighbours(h);
            lemma_offset_all(h, l + 1);
        }
        if values.len() == 0 || l - total != values.len() - 1 {
            return None;
        }
        Some(SparsedVec { last_index, holes, values, index_type: PhantomData })
    }

    /// The holes `(start, size)` between stored values, in increasing order.
    pub fn holes(&self) -> (res: &Vec<(usize, usize)>)
        ensures
            res@ == self.spec_holes(),
    {
        &self.holes
    }

    /// The stored values, in index order.
    pub fn values(&self) -> (res: &Vec<V>)
        ensures
            res@ == self.spec_values(),
    {
        &self.values
    }

    /// The largest index that holds a value.
    pub fn last_index(&self) -> (res: Option<usize>)
        ensures
            res == self.spec_last_index(),
    {
        self.last_index
    }
}

impl<K: SparseIndex, V: Copy> Default for SparsedVec<K, V> {
    /// An empty vector.
    fn default() -> (res: Self)
        ensures
            res.wf(),
            res@ == Map::<usize, V>::empty(),
            res.spec_last_index() is None,
            res.spec_holes().len() == 0,
            res.spec_values().len() == 0,
    {
        let res = SparsedVec {
            last_index: None,
            holes: Vec::new(),
            values: Vec::new(),
            index_type: PhantomData,
        };
        assert(res@ =~= Map::<usize, V>::empty());
        res
    }
}

/// Reading an index of a vector after storing a value there gives that
/// value; reading another index gives what it gave before.
pub proof fn lemma_get_after_insert<K: SparseIndex, V: Copy>(
    v: SparsedVec<K, V>,
    written: usize,
    value: V,
    read: usize,
)
    ensures
        v@.insert(written, value).contains_key(read) == (read == written || v@.contains_key(read)),
        read == written ==> v@.insert(written, value)[read] == value,
        read != written && v@.contains_key(read) ==> v@.insert(written, value)[read] == v@[read],
{
}

/// In a vector indexed by `u32`, writing at one index leaves what any other
/// index holds as it was.
pub proof fn lemma_u32_write_keeps_other_indexes<V: Copy>(
    v: SparsedVec<u32, V>,
    written: u32,
    value: V,
    read: u32,
)
    requires
        written != read,
    ensures
        v@.insert(written.spec_position(), value).contains_key(read.spec_position())
            == v@.contains_key(read.spec_position()),
        v@.contains_key(read.spec_position()) ==> v@.insert(written.spec_position(), value)[
            read.spec_position()] == v@[read.spec_position()],
{
}

/// Reading an index of a vector after removing it (not from strictly inside
/// a hole) gives nothing; reading another index gives what it gave before.
pub proof fn lemma_get_after_remove<K: SparseIndex, V: Copy>(
    v: SparsedVec<K, V>,
    removed: usize,
    read: usize,
)
    ensures
        v@.remove(removed).contains_key(read) == (read != removed && v@.contains_key(read)),
        read != removed && v@.contains_key(read) ==> v@.remove(removed)[read] == v@[read],
{
}

/// The last index is the largest index that holds a value; there is none
/// exactly when the vector is empty.
pub proof fn lemma_last_index_is_largest<K: SparseIndex, V: Copy>(v: SparsedVec<K, V>)
    requires
        v.wf(),
    ensures
        match v.spec_last_index() {
            None => v@ == Map::<usize, V>::empty(),
            Some(l) => v@.contains_key(l) && forall|p: usize| #[trigger] v@.contains_key(p) ==> p <= l,
        },
{
    let h = v.spec_holes();
    match v.spec_last_index() {
        None => {
            assert(v@ =~= Map::<usize, V>::empty());
        },
        Some(l) => {
            assert forall|j: int| 0 <= j < h.len() implies !#[trigger] hole_covers(h[j], l as int) by {}
        },
    }
}

/// An index that holds a value is in no hole, so in particular not strictly
/// inside one.
pub proof fn lemma_present_not_in_hole<K: SparseIndex, V: Copy>(v: SparsedVec<K, V>, p: usize)
    requires
        v.wf(),
        v@.contains_key(p),
    ensures
        !in_some_hole(v.spec_holes(), p as int),
        !strictly_inside_hole(v.spec_holes(), p as int),
{
    let h = v.spec_holes();
    if strictly_inside_hole(h, p as int) {
        let j = choose|j: int| 0 <= j < h.len() && #[trigger] h[j].0 < p < h[j].0 + h[j].1 - 1;
        assert(hole_covers(h[j], p as int));
    }
}

/// The holes are exactly the maximal gaps below the last index: they are
/// non-empty, sorted and apart, every position up to the last index is in a
/// hole exactly when it holds no value, and a hole is bounded on both sides
/// by values (or starts at zero).
pub proof fn lemma_holes_are_gaps<K: SparseIndex, V: Copy>(v: SparsedVec<K, V>)
    requires
        v.wf(),
        v.spec_last_index() is Some,
    ensures
        ({
            let h = v.spec_holes();
            let l = v.spec_last_index().unwrap();
            &&& forall|j: int| 0 <= j < h.len() ==> #[trigger] h[j].1 >= 1
            &&& forall|i: int, j: int|
                #![trigger h[i], h[j]]
                0 <= i < j < h.len() ==> h[i].0 + h[i].1 < h[j].0
            &&& forall|j: int| 0 <= j < h.len() ==> #[trigger] h[j].0 + h[j].1 <= l
            &&& forall|p: usize| p <= l ==> (#[trigger] v@.contains_key(p) <==> !in_some_hole(h, p as int))
            &&& forall|j: int|
                0 <= j < h.len() ==> #[trigger] v@.contains_key((h[j].0 + h[j].1) as usize)
            &&& forall|j: int|
                0 <= j < h.len() && h[j].0 > 0 ==> #[trigger] v@.contains_key((h[j].0 - 1) as usize)
        }),
{
    let h = v.spec_holes();
    let l = v.spec_last_index().unwrap();
    assert forall|j: int| 0 <= j < h.len() implies #[trigger] v@.contains_key(
        (h[j].0 + h[j].1) as usize,
    ) by {
        let e = (h[j].0 + h[j].1) as int;
        assert forall|i: int| 0 <= i < h.len() implies !#[trigger] hole_covers(h[i], e) by {
            if i < j {
                assert(h[i].0 + h[i].1 < h[j].0);
            } else if i > j {
                assert(h[j].0 + h[j].1 < h[i].0);
            }
        }
    }
    assert forall|j: int| 0 <= j < h.len() && h[j].0 > 0 implies #[trigger] v@.contains_key(
        (h[j].0 - 1) as usize,
    ) by {
        let b = h[j].0 - 1;
        assert forall|i: int| 0 <= i < h.len() implies !#[trigger] hole_covers(h[i], b) by {
            if i < j {
                assert(h[i].0 + h[i].1 < h[j].0);
            } else if i > j {
                assert(h[j].0 + h[j].1 < h[i].0);
            }
        }
    }
}

/// The values are those of the stored indexes, in increasing index order:
/// the value of index `p` sits at place `slot_of(holes, p)`, places grow
/// with the indexes, and the last index takes the last place.
pub proof fn lemma_values_in_index_order<K: SparseIndex, V: Copy>(v: SparsedVec<K, V>)
    requires
        v.wf(),
    ensures
        ({
            let h = v.spec_holes();
            let vs = v.spec_values();
            &&& forall|p: usize|
                #[trigger] v@.contains_key(p) ==> 0 <= slot_of(h, p as int) < vs.len() && vs[slot_of(
                    h,
                    p as int,
                )] == v@[p]
            &&& forall|p: usize, q: usize|
                #![trigger v@.contains_key(p), v@.contains_key(q)]
                v@.contains_key(p) && v@.contains_key(q) && p < q ==> slot_of(h, p as int)
                    < slot_of(h, q as int)
            &&& v.spec_last_index() matches Some(l) ==> slot_of(h, l as int) == vs.len() - 1
        }),
{
    let h = v.spec_holes();
    let vs = v.spec_values();
    let l = v.spec_last_index();
    assert forall|p: usize| #[trigger] v@.contains_key(p) implies 0 <= slot_of(h, p as int) < vs.len()
        && vs[slot_of(h, p as int)] == v@[p] by {
        lemma_slot_bounds(h, vs, l, p as int);
    }
    assert forall|p: usize, q: usize|
        #![trigger v@.contains_key(p), v@.contains_key(q)]
        v@.contains_key(p) && v@.contains_key(q) && p < q implies slot_of(h, p as int) < slot_of(
            h,
            q as int,
        ) by {
        lemma_slot_strict(h, vs, l, p as int, q as int);
    }
    if l is Some {
        lemma_last_index_is_largest(v);
        lemma_slot_last(h, vs, l, l.unwrap() as int);
    }
}

/// Sorted holes ending by `l` add up to less than `l` once a new one starts
/// after the last of them.
proof fn lemma_holes_size_monotone_le(h: Seq<(usize, usize)>, i: int, l: int)
    requires
        0 < i < h.len(),
        forall|j: int| 0 <= j < i ==> #[trigger] h[j].1 >= 1,
        forall|j: int| 0 <= j < i - 1 ==> #[trigger] h[j].0 + h[j].1 < h[j + 1].0,
        h[i - 1].0 + h[i - 1].1 < h[i].0,
        h[i].0 + h[i].1 <= l,
    ensures
        holes_size(h.take(i)) + h[i].1 <= l,
{
    lemma_holes_size_below(h, i);
}

/// The holes before hole `i` fit before its start.
proof fn lemma_holes_size_below(h: Seq<(usize, usize)>, i: int)
    requires
        0 < i < h.len(),
        forall|j: int| 0 <= j < i - 1 ==> #[trigger] h[j].0 + h[j].1 < h[j + 1].0,
        h[i - 1].0 + h[i - 1].1 < h[i].0,
    ensures
        holes_size(h.take(i)) <= h[i - 1].0 + h[i - 1].1,
    decreases i,
{
    lemma_holes_size_take(h, i - 1);
    if i > 1 {
        lemma_holes_size_below(h, i - 1);
    } else {
        assert(h.take(0) =~= Seq::<(usize, usize)>::empty());
    }
}

} // verus!
