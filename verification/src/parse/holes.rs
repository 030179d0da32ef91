//! The holes of a sparse vector: the gaps `(start, size)` between stored
//! positions, how they shift positions onto slots of the value list, and what
//! the edits of a sparse vector do to them.
use vstd::prelude::*;

verus! {

/// Whether the hole `h` covers position `p`.
pub open spec fn hole_covers(h: (usize, usize), p: int) -> bool {
    h.0 <= p < h.0 + h.1
}

/// Whether one of the holes covers position `p`.
pub open spec fn in_some_hole(holes: Seq<(usize, usize)>, p: int) -> bool {
    exists|j: int| 0 <= j < holes.len() && #[trigger] hole_covers(holes[j], p)
}

/// Total size of the holes that start before position `p`.
pub open spec fn hole_offset(holes: Seq<(usize, usize)>, p: int) -> int
    decreases holes.len(),
{
    if holes.len() == 0 {
        0
    } else {
        hole_offset(holes.drop_last(), p) + if holes.last().0 < p {
            holes.last().1 as int
        } else {
            0
        }
    }
}

/// Holes are non-empty, sorted, and separated by at least one value.
pub open spec fn holes_wf(holes: Seq<(usize, usize)>) -> bool {
    &&& forall|j: int| 0 <= j < holes.len() ==> #[trigger] holes[j].1 >= 1
    &&& forall|i: int, j: int|
        #![trigger holes[i], holes[j]]
        0 <= i < j < holes.len() ==> holes[i].0 + holes[i].1 < holes[j].0
}

/// Well-formedness of a representation `(holes, values, last_index)`.
pub open spec fn rep_wf<V>(holes: Seq<(usize, usize)>, values: Seq<V>, last: Option<usize>) -> bool {
    &&& holes_wf(holes)
    &&& match last {
        None => values.len() == 0 && holes.len() == 0,
        Some(l) => {
            &&& values.len() > 0
            &&& forall|j: int| 0 <= j < holes.len() ==> #[trigger] holes[j].0 + holes[j].1 <= l
            &&& values.len() + hole_offset(holes, l + 1) == l + 1
        },
    }
}

/// Whether position `p` holds a value in the representation.
pub open spec fn rep_present(holes: Seq<(usize, usize)>, last: Option<usize>, p: int) -> bool {
    &&& last is Some
    &&& 0 <= p <= last.unwrap()
    &&& !in_some_hole(holes, p)
}

/// The map from positions to values that a representation stands for.
pub open spec fn rep_map<V>(holes: Seq<(usize, usize)>, values: Seq<V>, last: Option<usize>) -> Map<
    usize,
    V,
> {
    Map::new(
        |p: usize| rep_present(holes, last, p as int),
        |p: usize| values[p - hole_offset(holes, p as int)],
    )
}


/// What hole `h` adds to the offset of position `p`.
pub open spec fn start_weight(h: (usize, usize), p: int) -> int {
    if h.0 < p {
        h.1 as int
    } else {
        0
    }
}

pub proof fn lemma_offset_push(s: Seq<(usize, usize)>, h: (usize, usize), p: int)
    ensures
        hole_offset(s.push(h), p) == hole_offset(s, p) + start_weight(h, p),
{
    assert(s.push(h).drop_last() =~= s);
}

pub proof fn lemma_offset_update(s: Seq<(usize, usize)>, k: int, h: (usize, usize), p: int)
    requires
        0 <= k < s.len(),
    ensures
        hole_offset(s.update(k, h), p) == hole_offset(s, p) - start_weight(s[k], p) + start_weight(
            h,
            p,
        ),
    decreases s.len(),
{
    let t = s.update(k, h);
    if k == s.len() - 1 {
        assert(t.drop_last() =~= s.drop_last());
    } else {
        assert(t.drop_last() =~= s.drop_last().update(k, h));
        lemma_offset_update(s.drop_last(), k, h, p);
    }
}

pub proof fn lemma_offset_insert(s: Seq<(usize, usize)>, k: int, h: (usize, usize), p: int)
    requires
        0 <= k <= s.len(),
    ensures
        hole_offset(s.insert(k, h), p) == hole_offset(s, p) + start_weight(h, p),
    decreases s.len(),
{
    let t = s.insert(k, h);
    if k == s.len() {
        assert(t =~= s.push(h));
        lemma_offset_push(s, h, p);
    } else {
        assert(t.drop_last() =~= s.drop_last().insert(k, h));
        lemma_offset_insert(s.drop_last(), k, h, p);
    }
}

pub proof fn lemma_offset_remove(s: Seq<(usize, usize)>, k: int, p: int)
    requires
        0 <= k < s.len(),
    ensures
        hole_offset(s.remove(k), p) == hole_offset(s, p) - start_weight(s[k], p),
    decreases s.len(),
{
    let t = s.remove(k);
    if k == s.len() - 1 {
        assert(t =~= s.drop_last());
    } else {
        assert(t.drop_last() =~= s.drop_last().remove(k));
        lemma_offset_remove(s.drop_last(), k, p);
    }
}

pub proof fn lemma_offset_take(s: Seq<(usize, usize)>, i: int, p: int)
    requires
        0 <= i < s.len(),
    ensures
        hole_offset(s.take(i + 1), p) == hole_offset(s.take(i), p) + start_weight(s[i], p),
{
    assert(s.take(i + 1).drop_last() =~= s.take(i));
}

/// Holes that start at or after `p` add nothing to its offset.
pub proof fn lemma_offset_after(s: Seq<(usize, usize)>, i: int, p: int)
    requires
        0 <= i <= s.len(),
        forall|j: int| i <= j < s.len() ==> #[trigger] s[j].0 >= p,
    ensures
        hole_offset(s, p) == hole_offset(s.take(i), p),
    decreases s.len() - i,
{
    if i < s.len() {
        lemma_offset_after(s, i + 1, p);
        lemma_offset_take(s, i, p);
    } else {
        assert(s.take(i) =~= s);
    }
}

/// The offset only changes at positions where a hole starts.
pub proof fn lemma_offset_same(s: Seq<(usize, usize)>, x: int, y: int)
    requires
        x <= y,
        forall|j: int| 0 <= j < s.len() ==> !(x <= #[trigger] s[j].0 < y),
    ensures
        hole_offset(s, x) == hole_offset(s, y),
    decreases s.len(),
{
    if s.len() > 0 {
        assert(!(x <= s[s.len() - 1].0 < y));
        lemma_offset_same(s.drop_last(), x, y);
    }
}

pub proof fn lemma_offset_monotone(s: Seq<(usize, usize)>, x: int, y: int)
    requires
        x <= y,
    ensures
        0 <= hole_offset(s, x) <= hole_offset(s, y),
    decreases s.len(),
{
    if s.len() > 0 {
        lemma_offset_monotone(s.drop_last(), x, y);
    }
}

pub proof fn lemma_offset_zero(s: Seq<(usize, usize)>)
    ensures
        hole_offset(s, 0) == 0,
    decreases s.len(),
{
    if s.len() > 0 {
        lemma_offset_zero(s.drop_last());
    }
}

/// Separated holes that end before `b` cover at most the room between `a` and `b`.
pub proof fn lemma_offset_span(s: Seq<(usize, usize)>, a: int, b: int)
    requires
        holes_wf(s),
        a <= b,
        forall|j: int| 0 <= j < s.len() && #[trigger] s[j].0 < b ==> s[j].0 + s[j].1 <= b,
    ensures
        hole_offset(s, b) - hole_offset(s, a) <= b - a,
    decreases s.len(),
{
    if s.len() > 0 {
        let n = s.len() - 1;
        let t = s[n];
        let d = s.drop_last();
        assert(holes_wf(d)) by {
            assert forall|i: int, j: int| 0 <= i < j < d.len() implies d[i].0 + d[i].1 < d[j].0 by {
                assert(d[i] == s[i] && d[j] == s[j]);
            }
        }
        if t.0 < a {
            lemma_offset_span(d, a, b);
        } else if t.0 < b {
            assert forall|j: int| 0 <= j < d.len() && #[trigger] d[j].0 < t.0 implies d[j].0 + d[j].1
                <= t.0 by {
                assert(s[j].0 + s[j].1 < s[n].0);
            }
            lemma_offset_span(d, a, t.0 as int);
            assert forall|j: int| 0 <= j < d.len() implies !(t.0 <= #[trigger] d[j].0 < b) by {
                assert(s[j].0 + s[j].1 < s[n].0);
            }
            lemma_offset_same(d, t.0 as int, b);
        } else {
            lemma_offset_span(d, a, b);
        }
    }
}

pub proof fn lemma_holes_wf_take(s: Seq<(usize, usize)>, k: int)
    requires
        holes_wf(s),
        0 <= k <= s.len(),
    ensures
        holes_wf(s.take(k)),
{
    let t = s.take(k);
    assert forall|i: int, j: int| 0 <= i < j < t.len() implies t[i].0 + t[i].1 < t[j].0 by {
        assert(t[i] == s[i] && t[j] == s[j]);
    }
    assert forall|j: int| 0 <= j < t.len() implies #[trigger] t[j].1 >= 1 by {
        assert(t[j] == s[j]);
    }
}

/// The position of a present index in the value list is in bounds.
pub proof fn lemma_slot_bounds<V>(
    holes: Seq<(usize, usize)>,
    values: Seq<V>,
    last: Option<usize>,
    p: int,
)
    requires
        rep_wf(holes, values, last),
        rep_present(holes, last, p),
    ensures
        0 <= p - hole_offset(holes, p) < values.len(),
{
    let l = last.unwrap();
    assert forall|j: int| 0 <= j < holes.len() && #[trigger] holes[j].0 < p implies holes[j].0
        + holes[j].1 <= p by {
        if holes[j].0 + holes[j].1 > p {
            assert(hole_covers(holes[j], p));
        }
    }
    lemma_offset_span(holes, 0, p);
    lemma_offset_zero(holes);
    assert forall|j: int| 0 <= j < holes.len() implies !(p <= #[trigger] holes[j].0 < p + 1) by {
        if holes[j].0 == p {
            assert(hole_covers(holes[j], p));
        }
    }
    lemma_offset_same(holes, p, p + 1);
    lemma_offset_span(holes, p + 1, l + 1);
}

/// Present positions keep their order in the value list.
pub proof fn lemma_slot_strict<V>(
    holes: Seq<(usize, usize)>,
    values: Seq<V>,
    last: Option<usize>,
    q: int,
    p: int,
)
    requires
        rep_wf(holes, values, last),
        rep_present(holes, last, q),
        rep_present(holes, last, p),
        q < p,
    ensures
        q - hole_offset(holes, q) < p - hole_offset(holes, p),
{
    assert forall|j: int| 0 <= j < holes.len() && #[trigger] holes[j].0 < p implies holes[j].0
        + holes[j].1 <= p by {
        if holes[j].0 + holes[j].1 > p {
            assert(hole_covers(holes[j], p));
        }
    }
    assert forall|j: int| 0 <= j < holes.len() implies !(q <= #[trigger] holes[j].0 < q + 1) by {
        if holes[j].0 == q {
            assert(hole_covers(holes[j], q));
        }
    }
    lemma_offset_same(holes, q, q + 1);
    lemma_offset_span(holes, q + 1, p);
}

/// Writing the value of a present position changes that entry of the map only.
pub proof fn lemma_rep_map_update<V>(
    holes: Seq<(usize, usize)>,
    values: Seq<V>,
    last: Option<usize>,
    p: usize,
)
    requires
        rep_wf(holes, values, last),
        rep_present(holes, last, p as int),
    ensures
        forall|v: V|
            #![trigger values.update(p - hole_offset(holes, p as int), v)]
            rep_map(holes, values.update(p - hole_offset(holes, p as int), v), last) == rep_map(
                holes,
                values,
                last,
            ).insert(p, v),
{
    let r = p - hole_offset(holes, p as int);
    lemma_slot_bounds(holes, values, last, p as int);
    assert forall|v: V| #[trigger]
        rep_map(holes, values.update(r, v), last) == rep_map(holes, values, last).insert(p, v) by {
        let m1 = rep_map(holes, values.update(r, v), last);
        let m2 = rep_map(holes, values, last).insert(p, v);
        assert forall|q: usize| #[trigger] m1.contains_key(q) implies m1[q] == m2[q] by {
            if q != p {
                lemma_slot_bounds(holes, values, last, q as int);
                if q < p {
                    lemma_slot_strict(holes, values, last, q as int, p as int);
                } else {
                    lemma_slot_strict(holes, values, last, p as int, q as int);
                }
            }
        }
        assert(m1 =~= m2);
    }
}


/// The position in the value list that position `p` maps to.
pub open spec fn slot_of(holes: Seq<(usize, usize)>, p: int) -> int {
    p - hole_offset(holes, p)
}

/// Separation of neighbouring holes is enough for separation of every pair.
pub proof fn lemma_holes_wf_from_neighbours(s: Seq<(usize, usize)>)
    requires
        forall|j: int| 0 <= j < s.len() ==> #[trigger] s[j].1 >= 1,
        forall|j: int| 0 <= j < s.len() - 1 ==> #[trigger] s[j].0 + s[j].1 < s[j + 1].0,
    ensures
        holes_wf(s),
{
    assert forall|i: int, j: int| 0 <= i < j < s.len() implies s[i].0 + s[i].1 < s[j].0 by {
        lemma_neighbours_chain(s, i, j);
    }
}

pub proof fn lemma_neighbours_chain(s: Seq<(usize, usize)>, i: int, j: int)
    requires
        0 <= i < j < s.len(),
        forall|j: int| 0 <= j < s.len() ==> #[trigger] s[j].1 >= 1,
        forall|j: int| 0 <= j < s.len() - 1 ==> #[trigger] s[j].0 + s[j].1 < s[j + 1].0,
    ensures
        s[i].0 + s[i].1 < s[j].0,
    decreases j - i,
{
    if j > i + 1 {
        lemma_neighbours_chain(s, i, j - 1);
        assert(s[j - 1].0 + s[j - 1].1 < s[j].0);
    } else {
        assert(s[i].0 + s[i].1 < s[i + 1].0);
    }
}

/// A new position gets a value: the map gains that entry.
pub proof fn lemma_map_after_insert<V>(
    h: Seq<(usize, usize)>,
    vs: Seq<V>,
    l: Option<usize>,
    h2: Seq<(usize, usize)>,
    vs2: Seq<V>,
    l2: Option<usize>,
    index: usize,
    r: int,
    v: V,
)
    requires
        rep_wf(h, vs, l),
        rep_wf(h2, vs2, l2),
        0 <= r <= vs.len(),
        vs2 == vs.insert(r, v),
        forall|q: int| #[trigger]
            rep_present(h2, l2, q) <==> (rep_present(h, l, q) || q == index),
        slot_of(h2, index as int) == r,
        forall|q: int|
            rep_present(h, l, q) && q < index ==> #[trigger] slot_of(h2, q) == slot_of(h, q),
        forall|q: int|
            rep_present(h, l, q) && q > index ==> #[trigger] slot_of(h2, q) == slot_of(h, q)
                + 1,
    ensures
        rep_map(h2, vs2, l2) == rep_map(h, vs, l).insert(index, v),
{
    let m1 = rep_map(h2, vs2, l2);
    let m2 = rep_map(h, vs, l).insert(index, v);
    assert forall|q: usize| #[trigger] m1.contains_key(q) implies m1[q] == m2[q] by {
        if q != index {
            assert(rep_present(h, l, q as int));
            lemma_slot_bounds(h, vs, l, q as int);
            lemma_slot_bounds(h2, vs2, l2, q as int);
            let rq = slot_of(h, q as int);
            if q < index {
                lemma_slot_strict(h2, vs2, l2, q as int, index as int);
                assert(slot_of(h2, q as int) == rq);
                assert(vs2[rq] == vs[rq]);
            } else {
                lemma_slot_strict(h2, vs2, l2, index as int, q as int);
                assert(slot_of(h2, q as int) == rq + 1);
                assert(vs2[rq + 1] == vs[rq]);
            }
        } else {
            assert(vs2[r] == v);
        }
    }
    assert(m1 =~= m2);
}

/// A present position loses its value: the map loses that entry.
pub proof fn lemma_map_after_remove<V>(
    h: Seq<(usize, usize)>,
    vs: Seq<V>,
    l: Option<usize>,
    h2: Seq<(usize, usize)>,
    vs2: Seq<V>,
    l2: Option<usize>,
    index: usize,
)
    requires
        rep_wf(h, vs, l),
        rep_present(h, l, index as int),
        vs2 == vs.remove(slot_of(h, index as int)),
        forall|q: int| #[trigger]
            rep_present(h2, l2, q) <==> (rep_present(h, l, q) && q != index),
        forall|q: int|
            rep_present(h, l, q) && q < index ==> #[trigger] slot_of(h2, q) == slot_of(h, q),
        forall|q: int|
            rep_present(h, l, q) && q > index ==> #[trigger] slot_of(h2, q) == slot_of(h, q)
                - 1,
    ensures
        rep_map(h2, vs2, l2) == rep_map(h, vs, l).remove(index),
{
    let m1 = rep_map(h2, vs2, l2);
    let m2 = rep_map(h, vs, l).remove(index);
    lemma_slot_bounds(h, vs, l, index as int);
    assert forall|q: usize| #[trigger] m1.contains_key(q) implies m1[q] == m2[q] by {
        assert(rep_present(h, l, q as int));
        lemma_slot_bounds(h, vs, l, q as int);
        let rq = slot_of(h, q as int);
        let ri = slot_of(h, index as int);
        if q < index {
            lemma_slot_strict(h, vs, l, q as int, index as int);
            assert(slot_of(h2, q as int) == rq);
            assert(vs2[rq] == vs[rq]);
        } else {
            lemma_slot_strict(h, vs, l, index as int, q as int);
            assert(slot_of(h2, q as int) == rq - 1);
            assert(vs2[rq - 1] == vs[rq]);
        }
    }
    assert(m1 =~= m2);
}


/// The first `k` holes end at or before `index`, and hole `k`, if any, ends after it.
pub open spec fn scanned_up_to(h: Seq<(usize, usize)>, index: int, k: int) -> bool {
    &&& 0 <= index
    &&& 0 <= k <= h.len()
    &&& forall|j: int| 0 <= j < k ==> #[trigger] h[j].0 + h[j].1 <= index
    &&& k < h.len() ==> h[k].0 + h[k].1 > index
}

/// What a scan up to hole `k` tells about the offset and the coverage of `index`.
pub proof fn lemma_scan(h: Seq<(usize, usize)>, index: int, k: int)
    requires
        holes_wf(h),
        scanned_up_to(h, index, k),
    ensures
        hole_offset(h, index) == hole_offset(h.take(k), index) + if k < h.len() && h[k].0 < index {
            h[k].1 as int
        } else {
            0
        },
        0 <= hole_offset(h.take(k), index) <= index,
        forall|j: int| 0 <= j < h.len() && j != k ==> !#[trigger] hole_covers(h[j], index),
        k < h.len() ==> (hole_covers(h[k], index) <==> h[k].0 <= index),
        in_some_hole(h, index) <==> (k < h.len() && h[k].0 <= index),
{
    let t = h.take(k);
    lemma_holes_wf_take(h, k);
    assert forall|j: int| 0 <= j < t.len() && #[trigger] t[j].0 < index implies t[j].0 + t[j].1
        <= index by {
        assert(t[j] == h[j]);
    }
    lemma_offset_span(t, 0, index);
    lemma_offset_zero(t);
    lemma_offset_monotone(t, 0, index);
    if k < h.len() {
        assert forall|j: int| k + 1 <= j < h.len() implies #[trigger] h[j].0 >= index by {
            assert(h[k].0 + h[k].1 < h[j].0);
        }
        lemma_offset_after(h, k + 1, index);
        lemma_offset_take(h, k, index);
    } else {
        lemma_offset_after(h, k, index);
    }
    assert forall|j: int| 0 <= j < h.len() && j != k implies !#[trigger] hole_covers(h[j], index) by {
        if j > k {
            assert(h[k].0 + h[k].1 < h[j].0);
        }
    }
    if k < h.len() && h[k].0 <= index {
        assert(hole_covers(h[k], index));
    }
}

/// Where no hole straddles `p`, the slot of `p` lies within the value list.
pub proof fn lemma_slot_range<V>(h: Seq<(usize, usize)>, vs: Seq<V>, l: Option<usize>, p: int)
    requires
        rep_wf(h, vs, l),
        l is Some,
        0 <= p <= l.unwrap() + 1,
        forall|j: int| 0 <= j < h.len() && #[trigger] h[j].0 < p ==> h[j].0 + h[j].1 <= p,
    ensures
        0 <= slot_of(h, p) <= vs.len(),
        p <= l.unwrap() ==> slot_of(h, p) < vs.len(),
{
    let last = l.unwrap() as int;
    lemma_offset_span(h, 0, p);
    lemma_offset_zero(h);
    lemma_offset_span(h, p, last + 1);
    if p <= last {
        lemma_offset_span(h, p, last);
        assert forall|j: int| 0 <= j < h.len() implies !(last <= #[trigger] h[j].0 < last + 1) by {}
        lemma_offset_same(h, last, last + 1);
    }
}

/// The last stored position is the one whose slot is the last of the value list.
pub proof fn lemma_slot_last<V>(h: Seq<(usize, usize)>, vs: Seq<V>, l: Option<usize>, p: int)
    requires
        rep_wf(h, vs, l),
        rep_present(h, l, p),
    ensures
        rep_present(h, l, l.unwrap() as int),
        slot_of(h, l.unwrap() as int) == vs.len() - 1,
        slot_of(h, p) == vs.len() - 1 <==> p == l.unwrap(),
{
    let last = l.unwrap() as int;
    assert forall|j: int| 0 <= j < h.len() implies !#[trigger] hole_covers(h[j], last) by {}
    assert forall|j: int| 0 <= j < h.len() implies !(last <= #[trigger] h[j].0 < last + 1) by {}
    lemma_offset_same(h, last, last + 1);
    if p < last {
        lemma_slot_strict(h, vs, l, p, last);
    }
}

/// Splitting the hole that holds `index` stores a value there.
pub proof fn lemma_insert_split<V>(
    h: Seq<(usize, usize)>,
    vs: Seq<V>,
    l: Option<usize>,
    index: usize,
    k: int,
    v: V,
)
    requires
        rep_wf(h, vs, l),
        scanned_up_to(h, index as int, k),
        k < h.len(),
        h[k].0 < index,
        h[k].0 + h[k].1 - 1 > index,
    ensures
        ({
            let s = h[k].0;
            let sz = h[k].1;
            let n1 = (index - s) as usize;
            let h2 = h.update(k, (s, n1)).insert(k + 1, ((index + 1) as usize, (sz - n1 - 1) as usize));
            let r = index - hole_offset(h.take(k), index as int) - n1;
            &&& 0 <= r <= vs.len()
            &&& rep_wf(h2, vs.insert(r, v), l)
            &&& rep_map(h2, vs.insert(r, v), l) == rep_map(h, vs, l).insert(index, v)
            &&& !rep_present(h, l, index as int)
        }),
{
    let s = h[k].0;
    let sz = h[k].1;
    let n1 = (index - s) as usize;
    let new1 = (s, n1);
    let new2 = ((index + 1) as usize, (sz - n1 - 1) as usize);
    let h1 = h.update(k, new1);
    let h2 = h1.insert(k + 1, new2);
    let r = index - hole_offset(h.take(k), index as int) - n1;
    let vs2 = vs.insert(r, v);
    let last = l.unwrap();
    lemma_scan(h, index as int, k);
    h1.insert_ensures(k + 1, new2);
    assert forall|j: int| 0 <= j < h2.len() implies #[trigger] h2[j] == if j < k {
        h[j]
    } else if j == k {
        new1
    } else if j == k + 1 {
        new2
    } else {
        h[j - 1]
    } by {}
    // the holes stay well formed
    assert forall|j: int| 0 <= j < h2.len() - 1 implies #[trigger] h2[j].0 + h2[j].1 < h2[j + 1].0 by {
        if j + 1 < k {
            assert(h[j].0 + h[j].1 < h[j + 1].0);
        } else if j + 1 == k {
            assert(h[j].0 + h[j].1 < h[k].0);
        } else if j > k + 1 {
            assert(h[j - 1].0 + h[j - 1].1 < h[j].0);
        } else if j == k + 1 {
            assert(h[k].0 + h[k].1 < h[k + 1].0);
        }
    }
    assert forall|j: int| 0 <= j < h2.len() implies #[trigger] h2[j].1 >= 1 by {}
    lemma_holes_wf_from_neighbours(h2);
    assert forall|j: int| 0 <= j < h2.len() implies #[trigger] h2[j].0 + h2[j].1 <= last by {}
    // offsets
    assert forall|q: int| #[trigger]
        hole_offset(h2, q) == hole_offset(h, q) - start_weight(h[k], q) + start_weight(new1, q)
            + start_weight(new2, q) by {
        lemma_offset_update(h, k, new1, q);
        lemma_offset_insert(h1, k + 1, new2, q);
    }
    assert(hole_offset(h2, last + 1) == hole_offset(h, last + 1) - 1);
    // the slot of index
    assert forall|j: int| 0 <= j < h.len() && #[trigger] h[j].0 < s implies h[j].0 + h[j].1 <= s by {
        if j > k {
            assert(h[k].0 + h[k].1 < h[j].0);
        } else if j < k {
            assert(h[j].0 + h[j].1 < h[k].0);
        }
    }
    lemma_slot_range(h, vs, l, s as int);
    assert forall|j: int| k <= j < h.len() implies #[trigger] h[j].0 >= s by {
        if j > k {
            assert(h[k].0 + h[k].1 < h[j].0);
        }
    }
    lemma_offset_after(h, k, s as int);
    lemma_holes_wf_take(h, k);
    assert forall|j: int| 0 <= j < h.take(k).len() implies !(s <= #[trigger] h.take(k)[j].0 < index) by {
        assert(h[j].0 + h[j].1 < h[k].0);
    }
    lemma_offset_same(h.take(k), s as int, index as int);
    assert(r == slot_of(h, s as int));
    // coverage
    assert forall|q: int| #[trigger]
        rep_present(h2, l, q) <==> (rep_present(h, l, q) || q == index) by {
        if in_some_hole(h, q) && q != index {
            let j = choose|j: int| 0 <= j < h.len() && #[trigger] hole_covers(h[j], q);
            if j < k {
                assert(hole_covers(h2[j], q));
            } else if j > k {
                assert(hole_covers(h2[j + 1], q));
            } else if q < index {
                assert(hole_covers(h2[k], q));
            } else {
                assert(hole_covers(h2[k + 1], q));
            }
        }
        if in_some_hole(h2, q) {
            let j = choose|j: int| 0 <= j < h2.len() && #[trigger] hole_covers(h2[j], q);
            if j < k {
                assert(hole_covers(h[j], q));
            } else if j > k + 1 {
                assert(hole_covers(h[j - 1], q));
            } else {
                assert(hole_covers(h[k], q));
            }
        }
    }
    assert forall|q: int| rep_present(h, l, q) && q < index implies #[trigger] slot_of(h2, q)
        == slot_of(h, q) by {
        if q >= s {
            assert(hole_covers(h[k], q));
        }
    }
    assert forall|q: int| rep_present(h, l, q) && q > index implies #[trigger] slot_of(h2, q)
        == slot_of(h, q) + 1 by {
        if q < s + sz {
            assert(hole_covers(h[k], q));
        }
    }
    assert(rep_wf(h2, vs2, l));
    lemma_map_after_insert(h, vs, l, h2, vs2, l, index, r, v);
}

proof fn lemma_hole_neighbourhood_all(h: Seq<(usize, usize)>)
    requires
        holes_wf(h),
    ensures
        forall|j: int| 0 <= j < h.len() - 1 ==> #[trigger] h[j].0 + h[j].1 < h[j + 1].0,
{
    assert forall|j: int| 0 <= j < h.len() - 1 implies #[trigger] h[j].0 + h[j].1 < h[j + 1].0 by {
        assert(h[j].0 + h[j].1 < h[j + 1].0);
    }
}

/// Facts shared by the edits of the hole at `k`: where the holes around it lie.
pub proof fn lemma_hole_neighbourhood(h: Seq<(usize, usize)>, k: int)
    requires
        holes_wf(h),
        0 <= k < h.len(),
    ensures
        forall|j: int| 0 <= j < k ==> #[trigger] h[j].0 + h[j].1 < h[k].0,
        forall|j: int| k < j < h.len() ==> h[k].0 + h[k].1 < #[trigger] h[j].0,
{
    assert forall|j: int| 0 <= j < k implies #[trigger] h[j].0 + h[j].1 < h[k].0 by {}
    assert forall|j: int| k < j < h.len() implies h[k].0 + h[k].1 < #[trigger] h[j].0 by {}
}

/// The slot of the start of hole `k` counts the values stored before that hole.
pub proof fn lemma_slot_of_hole_start<V>(
    h: Seq<(usize, usize)>,
    vs: Seq<V>,
    l: Option<usize>,
    index: usize,
    k: int,
)
    requires
        rep_wf(h, vs, l),
        scanned_up_to(h, index as int, k),
        k < h.len(),
        h[k].0 <= index,
    ensures
        slot_of(h, h[k].0 as int) == h[k].0 - hole_offset(h.take(k), index as int),
        0 <= slot_of(h, h[k].0 as int) < vs.len(),
{
    let s = h[k].0;
    lemma_hole_neighbourhood(h, k);
    assert forall|j: int| 0 <= j < h.len() && #[trigger] h[j].0 < s implies h[j].0 + h[j].1 <= s by {
        if j > k {
            assert(h[k].0 + h[k].1 < h[j].0);
        }
    }
    lemma_slot_range(h, vs, l, s as int);
    assert forall|j: int| k <= j < h.len() implies #[trigger] h[j].0 >= s by {
        if j > k {
            assert(h[k].0 + h[k].1 < h[j].0);
        }
    }
    lemma_offset_after(h, k, s as int);
    lemma_holes_wf_take(h, k);
    assert forall|j: int| 0 <= j < h.take(k).len() implies !(s <= #[trigger] h.take(k)[j].0 < index) by {
        assert(h[j].0 + h[j].1 < h[k].0);
    }
    lemma_offset_same(h.take(k), s as int, index as int);
}

/// Shrinking hole `k` by its last position stores a value there.
pub proof fn lemma_insert_hole_end<V>(
    h: Seq<(usize, usize)>,
    vs: Seq<V>,
    l: Option<usize>,
    index: usize,
    k: int,
    v: V,
)
    requires
        rep_wf(h, vs, l),
        scanned_up_to(h, index as int, k),
        k < h.len(),
        h[k].0 < index,
        h[k].0 + h[k].1 - 1 == index,
    ensures
        ({
            let h2 = h.update(k, (h[k].0, (h[k].1 - 1) as usize));
            let r = index - hole_offset(h.take(k), index as int) - (h[k].1 - 1);
            &&& 0 <= r <= vs.len()
            &&& rep_wf(h2, vs.insert(r, v), l)
            &&& rep_map(h2, vs.insert(r, v), l) == rep_map(h, vs, l).insert(index, v)
            &&& !rep_present(h, l, index as int)
        }),
{
    let s = h[k].0;
    let sz = h[k].1;
    let nh = (s, (sz - 1) as usize);
    let h2 = h.update(k, nh);
    let r = index - hole_offset(h.take(k), index as int) - (sz - 1);
    let vs2 = vs.insert(r, v);
    let last = l.unwrap();
    lemma_scan(h, index as int, k);
    lemma_hole_neighbourhood(h, k);
    lemma_slot_of_hole_start(h, vs, l, index, k);
    assert forall|i: int, j: int| 0 <= i < j < h2.len() implies h2[i].0 + h2[i].1 < h2[j].0 by {
        assert(h[i].0 + h[i].1 < h[j].0);
    }
    assert forall|j: int| 0 <= j < h2.len() implies #[trigger] h2[j].0 + h2[j].1 <= last by {}
    assert forall|q: int| #[trigger]
        hole_offset(h2, q) == hole_offset(h, q) - start_weight(h[k], q) + start_weight(nh, q) by {
        lemma_offset_update(h, k, nh, q);
    }
    assert forall|q: int| #[trigger]
        rep_present(h2, l, q) <==> (rep_present(h, l, q) || q == index) by {
        if in_some_hole(h, q) && q != index {
            let j = choose|j: int| 0 <= j < h.len() && #[trigger] hole_covers(h[j], q);
            assert(hole_covers(h2[j], q));
        }
        if in_some_hole(h2, q) {
            let j = choose|j: int| 0 <= j < h2.len() && #[trigger] hole_covers(h2[j], q);
            assert(hole_covers(h[j], q));
        }
    }
    assert forall|q: int| rep_present(h, l, q) && q < index implies #[trigger] slot_of(h2, q)
        == slot_of(h, q) by {
        if q >= s {
            assert(hole_covers(h[k], q));
        }
    }
    assert forall|q: int| rep_present(h, l, q) && q > index implies #[trigger] slot_of(h2, q)
        == slot_of(h, q) + 1 by {}
    assert(rep_wf(h2, vs2, l));
    lemma_map_after_insert(h, vs, l, h2, vs2, l, index, r, v);
}

/// Shrinking hole `k` by its first position stores a value there.
pub proof fn lemma_insert_hole_start<V>(
    h: Seq<(usize, usize)>,
    vs: Seq<V>,
    l: Option<usize>,
    index: usize,
    k: int,
    v: V,
)
    requires
        rep_wf(h, vs, l),
        scanned_up_to(h, index as int, k),
        k < h.len(),
        h[k].0 == index,
    ensures
        ({
            let h2 = if h[k].1 > 1 {
                h.update(k, ((h[k].0 + 1) as usize, (h[k].1 - 1) as usize))
            } else {
                h.remove(k)
            };
            let r = index - hole_offset(h.take(k), index as int);
            &&& 0 <= r <= vs.len()
            &&& rep_wf(h2, vs.insert(r, v), l)
            &&& rep_map(h2, vs.insert(r, v), l) == rep_map(h, vs, l).insert(index, v)
            &&& !rep_present(h, l, index as int)
        }),
{
    let s = h[k].0;
    let sz = h[k].1;
    let nh = ((s + 1) as usize, (sz - 1) as usize);
    let h2 = if sz > 1 {
        h.update(k, nh)
    } else {
        h.remove(k)
    };
    let r = index - hole_offset(h.take(k), index as int);
    let vs2 = vs.insert(r, v);
    let last = l.unwrap();
    lemma_scan(h, index as int, k);
    lemma_hole_neighbourhood(h, k);
    lemma_slot_of_hole_start(h, vs, l, index, k);
    if sz > 1 {
        assert forall|i: int, j: int| 0 <= i < j < h2.len() implies h2[i].0 + h2[i].1 < h2[j].0 by {
            assert(h[i].0 + h[i].1 < h[j].0);
        }
        assert forall|q: int| #[trigger]
            hole_offset(h2, q) == hole_offset(h, q) - start_weight(h[k], q) + start_weight(nh, q) by {
            lemma_offset_update(h, k, nh, q);
        }
    } else {
        h.remove_ensures(k);
        assert forall|j: int| 0 <= j < h2.len() implies #[trigger] h2[j] == if j < k {
            h[j]
        } else {
            h[j + 1]
        } by {}
        assert forall|i: int, j: int| 0 <= i < j < h2.len() implies h2[i].0 + h2[i].1 < h2[j].0 by {
            let i0 = if i < k { i } else { i + 1 };
            let j0 = if j < k { j } else { j + 1 };
            assert(h[i0].0 + h[i0].1 < h[j0].0);
        }
        assert forall|q: int| #[trigger]
            hole_offset(h2, q) == hole_offset(h, q) - start_weight(h[k], q) by {
            lemma_offset_remove(h, k, q);
        }
    }
    assert forall|j: int| 0 <= j < h2.len() implies #[trigger] h2[j].1 >= 1 by {}
    assert forall|j: int| 0 <= j < h2.len() implies #[trigger] h2[j].0 + h2[j].1 <= last by {}
    assert forall|q: int| #[trigger]
        rep_present(h2, l, q) <==> (rep_present(h, l, q) || q == index) by {
        if in_some_hole(h, q) && q != index {
            let j = choose|j: int| 0 <= j < h.len() && #[trigger] hole_covers(h[j], q);
            if sz > 1 || j < k {
                assert(hole_covers(h2[j], q));
            } else {
                assert(j != k);
                assert(hole_covers(h2[j - 1], q));
            }
        }
        if in_some_hole(h2, q) {
            let j = choose|j: int| 0 <= j < h2.len() && #[trigger] hole_covers(h2[j], q);
            if sz > 1 || j < k {
                assert(hole_covers(h[j], q));
            } else {
                assert(hole_covers(h[j + 1], q));
            }
        }
    }
    assert forall|q: int| rep_present(h, l, q) && q < index implies #[trigger] slot_of(h2, q)
        == slot_of(h, q) by {}
    assert forall|q: int| rep_present(h, l, q) && q > index implies #[trigger] slot_of(h2, q)
        == slot_of(h, q) + 1 by {
        if q < s + sz {
            assert(hole_covers(h[k], q));
        }
    }
    assert(rep_wf(h2, vs2, l));
    lemma_map_after_insert(h, vs, l, h2, vs2, l, index, r, v);
}

/// Storing a value after the last position: the gap, if any, becomes a hole.
pub proof fn lemma_insert_append<V>(
    h: Seq<(usize, usize)>,
    vs: Seq<V>,
    l: Option<usize>,
    index: usize,
    v: V,
)
    requires
        rep_wf(h, vs, l),
        l is None || l.unwrap() < index,
    ensures
        ({
            let r = index - hole_offset(h, index as int);
            let gap = r - vs.len();
            let h2 = if gap > 0 {
                h.push(((index - gap) as usize, gap as usize))
            } else {
                h
            };
            &&& r >= vs.len()
            &&& rep_wf(h2, vs.push(v), Some(index))
            &&& rep_map(h2, vs.push(v), Some(index)) == rep_map(h, vs, l).insert(index, v)
            &&& !rep_present(h, l, index as int)
        }),
{
    let r = index - hole_offset(h, index as int);
    let gap = r - vs.len();
    let nh = ((index - gap) as usize, gap as usize);
    let h2 = if gap > 0 {
        h.push(nh)
    } else {
        h
    };
    let vs2 = vs.push(v);
    let l2 = Some(index);
    match l {
        None => {
            assert(h.len() == 0);
            assert(hole_offset(h, index as int) == 0);
        },
        Some(last) => {
            assert forall|j: int| 0 <= j < h.len() implies !(last + 1 <= #[trigger] h[j].0 < index
                + 1) by {}
            lemma_offset_same(h, last + 1, index as int);
            lemma_offset_same(h, last + 1, index + 1);
        },
    }
    assert(gap == if l is Some { index - l.unwrap() - 1 } else { index as int });
    assert forall|q: int| #[trigger]
        hole_offset(h2, q) == hole_offset(h, q) + if gap > 0 {
            start_weight(nh, q)
        } else {
            0
        } by {
        if gap > 0 {
            lemma_offset_push(h, nh, q);
        }
    }
    if gap > 0 {
        assert forall|j: int| 0 <= j < h2.len() implies #[trigger] h2[j].1 >= 1 by {}
        assert forall|i: int, j: int| 0 <= i < j < h2.len() implies h2[i].0 + h2[i].1 < h2[j].0 by {
            if j < h.len() {
                assert(h[i].0 + h[i].1 < h[j].0);
            }
        }
    }
    assert forall|j: int| 0 <= j < h2.len() implies #[trigger] h2[j].0 + h2[j].1 <= index by {}
    assert(vs2.len() + hole_offset(h2, index + 1) == index + 1);
    assert(rep_wf(h2, vs2, l2));
    assert forall|q: int| #[trigger]
        rep_present(h2, l2, q) <==> (rep_present(h, l, q) || q == index) by {
        if in_some_hole(h, q) {
            let j = choose|j: int| 0 <= j < h.len() && #[trigger] hole_covers(h[j], q);
            assert(hole_covers(h2[j], q));
        }
        if in_some_hole(h2, q) {
            let j = choose|j: int| 0 <= j < h2.len() && #[trigger] hole_covers(h2[j], q);
            if j < h.len() {
                assert(hole_covers(h[j], q));
            }
        }
        if rep_present(h2, l2, q) && !rep_present(h, l, q) && q < index {
            if gap > 0 {
                assert(hole_covers(h2[h.len() as int], q));
            }
        }
    }
    assert forall|q: int| rep_present(h, l, q) && q < index implies #[trigger] slot_of(h2, q)
        == slot_of(h, q) by {}
    assert(vs2 =~= vs.insert(vs.len() as int, v));
    lemma_map_after_insert(h, vs, l, h2, vs2, l2, index, vs.len() as int, v);
}

/// Removing the last stored value when a hole ends right before it: the hole goes too.
pub proof fn lemma_remove_last_after_hole<V>(
    h: Seq<(usize, usize)>,
    vs: Seq<V>,
    l: Option<usize>,
    index: usize,
    k: int,
)
    requires
        rep_wf(h, vs, l),
        scanned_up_to(h, index as int, k),
        rep_present(h, l, index as int),
        index == l.unwrap(),
        k >= 1,
        h[k - 1].0 + h[k - 1].1 == index,
    ensures
        k == h.len(),
        vs.len() > 1 ==> index >= 1 + h[k - 1].1,
        ({
            let h2 = h.remove(k - 1);
            let l2 = if vs.len() > 1 {
                Some((index - 1 - h[k - 1].1) as usize)
            } else {
                None
            };
            &&& rep_wf(h2, vs.remove(vs.len() - 1), l2)
            &&& rep_map(h2, vs.remove(vs.len() - 1), l2) == rep_map(h, vs, l).remove(index)
        }),
{
    let n = h.len() as int;
    let s = h[k - 1].0;
    let sz = h[k - 1].1;
    let h2 = h.remove(k - 1);
    let vs2 = vs.remove(vs.len() - 1);
    let l2 = if vs.len() > 1 {
        Some((index - 1 - sz) as usize)
    } else {
        None
    };
    if k < n {
        assert(h[k].0 + h[k].1 <= index);
    }
    assert(k == n);
    assert(h2 =~= h.drop_last());
    lemma_scan(h, index as int, k);
    lemma_slot_last(h, vs, l, index as int);
    lemma_hole_neighbourhood(h, k - 1);
    // offsets: the last hole starts at s
    assert forall|j: int| 0 <= j < h.len() implies !(s + 1 <= #[trigger] h[j].0 < index + 1) by {}
    lemma_offset_same(h, s + 1, index + 1);
    assert(hole_offset(h, s + 1) == hole_offset(h2, s + 1) + sz);
    assert forall|j: int| 0 <= j < h2.len() implies !(s <= #[trigger] h2[j].0 < s + 1) by {
        assert(h[j].0 + h[j].1 < h[k - 1].0);
    }
    lemma_offset_same(h2, s as int, s + 1);
    assert(hole_offset(h, index + 1) == hole_offset(h2, s as int) + sz);
    assert forall|q: int| #[trigger] hole_offset(h2, q) == hole_offset(h, q) - start_weight(h[k - 1], q) by {
        lemma_offset_remove(h, k - 1, q);
    }
    if k >= 2 {
        let e = h[k - 2].0 + h[k - 2].1;
        assert forall|j: int| 0 <= j < h2.len() && #[trigger] h2[j].0 < e implies h2[j].0 + h2[j].1 <= e by {
            if j < k - 2 {
                assert(h[j].0 + h[j].1 < h[k - 2].0);
            }
        }
        lemma_holes_wf_take(h, k - 1);
        assert(h2 =~= h.take(k - 1));
        lemma_offset_span(h2, 0, e);
        lemma_offset_zero(h2);
        assert forall|j: int| 0 <= j < h2.len() implies !(e <= #[trigger] h2[j].0 < s) by {
            if j < k - 2 {
                assert(h[j].0 + h[j].1 < h[k - 2].0);
            }
        }
        lemma_offset_same(h2, e, s as int);
        assert(hole_offset(h2, s as int) <= e);
        assert(e < s);
    } else {
        assert(h2.len() == 0);
    }
    if vs.len() == 1 {
        assert(k == 1);
        assert(h2.len() == 0);
        assert(rep_wf(h2, vs2, l2));
        assert forall|q: int| #[trigger]
            rep_present(h2, l2, q) <==> (rep_present(h, l, q) && q != index) by {
            if rep_present(h, l, q) && q != index {
                assert(hole_covers(h[0], q));
            }
        }
    } else {
        let l2v = (index - 1 - sz) as usize;
        assert(s >= 1);
        assert forall|j: int| 0 <= j < h2.len() implies #[trigger] h2[j].0 + h2[j].1 <= l2v by {
            assert(h[j].0 + h[j].1 < h[k - 1].0);
        }
        lemma_holes_wf_take(h, k - 1);
        assert(h2 =~= h.take(k - 1));
        assert(rep_wf(h2, vs2, l2));
        assert forall|q: int| #[trigger]
            rep_present(h2, l2, q) <==> (rep_present(h, l, q) && q != index) by {
            if in_some_hole(h2, q) {
                let j = choose|j: int| 0 <= j < h2.len() && #[trigger] hole_covers(h2[j], q);
                assert(hole_covers(h[j], q));
            }
            if rep_present(h, l, q) && q != index {
                if q >= s {
                    assert(hole_covers(h[k - 1], q));
                }
            }
            if rep_present(h2, l2, q) {
                if in_some_hole(h, q) {
                    let j = choose|j: int| 0 <= j < h.len() && #[trigger] hole_covers(h[j], q);
                    if j < k - 1 {
                        assert(hole_covers(h2[j], q));
                    }
                }
            }
        }
    }
    assert forall|q: int| rep_present(h, l, q) && q < index implies #[trigger] slot_of(h2, q)
        == slot_of(h, q) by {
        if q >= s {
            assert(hole_covers(h[k - 1], q));
        }
    }
    lemma_map_after_remove(h, vs, l, h2, vs2, l2, index);
}

/// Removing the last stored value when the position before it is stored too.
pub proof fn lemma_remove_last<V>(
    h: Seq<(usize, usize)>,
    vs: Seq<V>,
    l: Option<usize>,
    index: usize,
    k: int,
)
    requires
        rep_wf(h, vs, l),
        scanned_up_to(h, index as int, k),
        rep_present(h, l, index as int),
        index == l.unwrap(),
        k == 0 || h[k - 1].0 + h[k - 1].1 != index,
    ensures
        vs.len() > 1 ==> index >= 1,
        ({
            let l2 = if vs.len() > 1 {
                Some((index - 1) as usize)
            } else {
                None
            };
            &&& rep_wf(h, vs.remove(vs.len() - 1), l2)
            &&& rep_map(h, vs.remove(vs.len() - 1), l2) == rep_map(h, vs, l).remove(index)
        }),
{
    let n = h.len() as int;
    let vs2 = vs.remove(vs.len() - 1);
    let l2 = if vs.len() > 1 {
        Some((index - 1) as usize)
    } else {
        None
    };
    if k < n {
        assert(h[k].0 + h[k].1 <= index);
    }
    assert(k == n);
    lemma_slot_last(h, vs, l, index as int);
    assert forall|j: int| 0 <= j < h.len() implies #[trigger] h[j].0 + h[j].1 < index by {
        if j < n - 1 {
            assert(h[j].0 + h[j].1 < h[n - 1].0);
        }
    }
    assert forall|j: int| 0 <= j < h.len() implies !(index as int <= #[trigger] h[j].0 < index + 1) by {}
    lemma_offset_same(h, index as int, index + 1);
    if vs.len() == 1 {
        if n > 0 {
            let e = h[n - 1].0 + h[n - 1].1;
            lemma_offset_span(h, 0, e);
            lemma_offset_zero(h);
            assert forall|j: int| 0 <= j < h.len() implies !(e <= #[trigger] h[j].0 < index + 1) by {}
            lemma_offset_same(h, e, index + 1);
        }
        assert(h.len() == 0);
        assert(rep_wf(h, vs2, l2));
    } else {
        if index == 0 {
            lemma_offset_zero(h);
        }
        assert(index >= 1);
        assert(rep_wf(h, vs2, l2));
    }
    assert forall|q: int| #[trigger]
        rep_present(h, l2, q) <==> (rep_present(h, l, q) && q != index) by {}
    lemma_map_after_remove(h, vs, l, h, vs2, l2, index);
}

/// Conditions shared by the removals of a stored value that is not the last one.
pub open spec fn inner_removal<V>(
    h: Seq<(usize, usize)>,
    vs: Seq<V>,
    l: Option<usize>,
    index: usize,
    k: int,
) -> bool {
    &&& rep_wf(h, vs, l)
    &&& scanned_up_to(h, index as int, k)
    &&& rep_present(h, l, index as int)
    &&& index < l.unwrap()
}

/// Removing a value between two holes merges them.
pub proof fn lemma_remove_merge<V>(
    h: Seq<(usize, usize)>,
    vs: Seq<V>,
    l: Option<usize>,
    index: usize,
    k: int,
)
    requires
        inner_removal(h, vs, l, index, k),
        k >= 1,
        h[k - 1].0 + h[k - 1].1 == index,
        k < h.len(),
        h[k].0 == index + 1,
    ensures
        ({
            let h2 = h.update(k - 1, (h[k - 1].0, (h[k - 1].1 + 1 + h[k].1) as usize)).remove(k);
            let vs2 = vs.remove(slot_of(h, index as int));
            &&& slot_of(h, index as int) == index - hole_offset(h.take(k), index as int)
            &&& rep_wf(h2, vs2, l)
            &&& rep_map(h2, vs2, l) == rep_map(h, vs, l).remove(index)
        }),
{
    let s1 = h[k - 1].0;
    let sz1 = h[k - 1].1;
    let sz = h[k].1;
    let nh = (s1, (sz1 + 1 + sz) as usize);
    let h1 = h.update(k - 1, nh);
    let h2 = h1.remove(k);
    let vs2 = vs.remove(slot_of(h, index as int));
    let last = l.unwrap();
    lemma_scan(h, index as int, k);
    lemma_hole_neighbourhood(h, k);
    lemma_hole_neighbourhood(h, k - 1);
    h1.remove_ensures(k);
    assert forall|j: int| 0 <= j < h2.len() implies #[trigger] h2[j] == if j < k - 1 {
        h[j]
    } else if j == k - 1 {
        nh
    } else {
        h[j + 1]
    } by {}
    assert forall|i: int, j: int| 0 <= i < j < h2.len() implies h2[i].0 + h2[i].1 < h2[j].0 by {
        if j > k - 1 {
            assert(h[k].0 + h[k].1 < h[j + 1].0);
            if i < k - 1 {
                assert(h[i].0 + h[i].1 < h[k - 1].0);
            }
        } else {
            assert(h[i].0 + h[i].1 < h[j].0);
        }
    }
    assert forall|j: int| 0 <= j < h2.len() implies #[trigger] h2[j].1 >= 1 by {}
    assert forall|j: int| 0 <= j < h2.len() implies #[trigger] h2[j].0 + h2[j].1 <= last by {
        if j == k - 1 {
            assert(h[k].0 + h[k].1 <= last);
        }
    }
    assert forall|q: int| #[trigger]
        hole_offset(h2, q) == hole_offset(h, q) - start_weight(h[k - 1], q) + start_weight(nh, q)
            - start_weight(h[k], q) by {
        lemma_offset_update(h, k - 1, nh, q);
        lemma_offset_remove(h1, k, q);
    }
    lemma_slot_bounds(h, vs, l, index as int);
    assert(hole_offset(h2, last + 1) == hole_offset(h, last + 1) + 1);
    lemma_slot_last(h, vs, l, index as int);
    assert(vs2.len() + hole_offset(h2, last + 1) == last + 1);
    assert(rep_wf(h2, vs2, l));
    assert forall|q: int| #[trigger]
        rep_present(h2, l, q) <==> (rep_present(h, l, q) && q != index) by {
        if in_some_hole(h, q) {
            let j = choose|j: int| 0 <= j < h.len() && #[trigger] hole_covers(h[j], q);
            if j < k - 1 {
                assert(hole_covers(h2[j], q));
            } else if j <= k {
                assert(hole_covers(h2[k - 1], q));
            } else {
                assert(hole_covers(h2[j - 1], q));
            }
        }
        if in_some_hole(h2, q) && q != index {
            let j = choose|j: int| 0 <= j < h2.len() && #[trigger] hole_covers(h2[j], q);
            if j < k - 1 {
                assert(hole_covers(h[j], q));
            } else if j > k - 1 {
                assert(hole_covers(h[j + 1], q));
            } else if q < index {
                assert(hole_covers(h[k - 1], q));
            } else {
                assert(hole_covers(h[k], q));
            }
        }
        if q == index {
            assert(hole_covers(h2[k - 1], q));
        }
    }
    assert forall|q: int| rep_present(h, l, q) && q < index implies #[trigger] slot_of(h2, q)
        == slot_of(h, q) by {
        if q >= s1 {
            assert(hole_covers(h[k - 1], q));
        }
    }
    assert forall|q: int| rep_present(h, l, q) && q > index implies #[trigger] slot_of(h2, q)
        == slot_of(h, q) - 1 by {
        if q < index + 1 + sz {
            assert(hole_covers(h[k], q));
        }
    }
    lemma_map_after_remove(h, vs, l, h2, vs2, l, index);
}

/// Removing a value right after a hole extends that hole.
pub proof fn lemma_remove_extend_previous<V>(
    h: Seq<(usize, usize)>,
    vs: Seq<V>,
    l: Option<usize>,
    index: usize,
    k: int,
)
    requires
        inner_removal(h, vs, l, index, k),
        k >= 1,
        h[k - 1].0 + h[k - 1].1 == index,
        k == h.len() || h[k].0 > index + 1,
    ensures
        ({
            let h2 = h.update(k - 1, (h[k - 1].0, (h[k - 1].1 + 1) as usize));
            let vs2 = vs.remove(slot_of(h, index as int));
            &&& slot_of(h, index as int) == index - hole_offset(h.take(k), index as int)
            &&& rep_wf(h2, vs2, l)
            &&& rep_map(h2, vs2, l) == rep_map(h, vs, l).remove(index)
        }),
{
    let s1 = h[k - 1].0;
    let sz1 = h[k - 1].1;
    let nh = (s1, (sz1 + 1) as usize);
    let h2 = h.update(k - 1, nh);
    let vs2 = vs.remove(slot_of(h, index as int));
    let last = l.unwrap();
    lemma_scan(h, index as int, k);
    lemma_hole_neighbourhood(h, k - 1);
    assert forall|i: int, j: int| 0 <= i < j < h2.len() implies h2[i].0 + h2[i].1 < h2[j].0 by {
        if i == k - 1 && j > k {
            assert(h[k].0 + h[k].1 < h[j].0);
        } else {
            assert(h[i].0 + h[i].1 < h[j].0);
        }
    }
    assert forall|j: int| 0 <= j < h2.len() implies #[trigger] h2[j].0 + h2[j].1 <= last by {}
    assert forall|q: int| #[trigger]
        hole_offset(h2, q) == hole_offset(h, q) - start_weight(h[k - 1], q) + start_weight(nh, q) by {
        lemma_offset_update(h, k - 1, nh, q);
    }
    lemma_slot_bounds(h, vs, l, index as int);
    assert(hole_offset(h2, last + 1) == hole_offset(h, last + 1) + 1);
    lemma_slot_last(h, vs, l, index as int);
    assert(vs2.len() + hole_offset(h2, last + 1) == last + 1);
    assert(rep_wf(h2, vs2, l));
    assert forall|q: int| #[trigger]
        rep_present(h2, l, q) <==> (rep_present(h, l, q) && q != index) by {
        if in_some_hole(h, q) {
            let j = choose|j: int| 0 <= j < h.len() && #[trigger] hole_covers(h[j], q);
            assert(hole_covers(h2[j], q));
        }
        if in_some_hole(h2, q) && q != index {
            let j = choose|j: int| 0 <= j < h2.len() && #[trigger] hole_covers(h2[j], q);
            assert(hole_covers(h[j], q));
        }
        if q == index {
            assert(hole_covers(h2[k - 1], q));
        }
    }
    assert forall|q: int| rep_present(h, l, q) && q < index implies #[trigger] slot_of(h2, q)
        == slot_of(h, q) by {
        if q >= s1 {
            assert(hole_covers(h[k - 1], q));
        }
    }
    assert forall|q: int| rep_present(h, l, q) && q > index implies #[trigger] slot_of(h2, q)
        == slot_of(h, q) - 1 by {}
    lemma_map_after_remove(h, vs, l, h2, vs2, l, index);
}

/// Removing a value right before a hole extends that hole.
pub proof fn lemma_remove_extend_next<V>(
    h: Seq<(usize, usize)>,
    vs: Seq<V>,
    l: Option<usize>,
    index: usize,
    k: int,
)
    requires
        inner_removal(h, vs, l, index, k),
        k == 0 || h[k - 1].0 + h[k - 1].1 != index,
        k < h.len(),
        h[k].0 == index + 1,
    ensures
        ({
            let h2 = h.update(k, (index, (h[k].1 + 1) as usize));
            let vs2 = vs.remove(slot_of(h, index as int));
            &&& slot_of(h, index as int) == index - hole_offset(h.take(k), index as int)
            &&& rep_wf(h2, vs2, l)
            &&& rep_map(h2, vs2, l) == rep_map(h, vs, l).remove(index)
        }),
{
    let sz = h[k].1;
    let nh = (index, (sz + 1) as usize);
    let h2 = h.update(k, nh);
    let vs2 = vs.remove(slot_of(h, index as int));
    let last = l.unwrap();
    lemma_scan(h, index as int, k);
    lemma_hole_neighbourhood(h, k);
    assert forall|i: int, j: int| 0 <= i < j < h2.len() implies h2[i].0 + h2[i].1 < h2[j].0 by {
        assert(h[i].0 + h[i].1 < h[j].0);
        if j == k && i == k - 1 {
            assert(h[k - 1].0 + h[k - 1].1 <= index);
        }
    }
    assert forall|j: int| 0 <= j < h2.len() implies #[trigger] h2[j].0 + h2[j].1 <= last by {}
    assert forall|q: int| #[trigger]
        hole_offset(h2, q) == hole_offset(h, q) - start_weight(h[k], q) + start_weight(nh, q) by {
        lemma_offset_update(h, k, nh, q);
    }
    lemma_slot_bounds(h, vs, l, index as int);
    assert(hole_offset(h2, last + 1) == hole_offset(h, last + 1) + 1);
    lemma_slot_last(h, vs, l, index as int);
    assert(vs2.len() + hole_offset(h2, last + 1) == last + 1);
    assert(rep_wf(h2, vs2, l));
    assert forall|q: int| #[trigger]
        rep_present(h2, l, q) <==> (rep_present(h, l, q) && q != index) by {
        if in_some_hole(h, q) {
            let j = choose|j: int| 0 <= j < h.len() && #[trigger] hole_covers(h[j], q);
            assert(hole_covers(h2[j], q));
        }
        if in_some_hole(h2, q) && q != index {
            let j = choose|j: int| 0 <= j < h2.len() && #[trigger] hole_covers(h2[j], q);
            assert(hole_covers(h[j], q));
        }
        if q == index {
            assert(hole_covers(h2[k], q));
        }
    }
    assert forall|q: int| rep_present(h, l, q) && q < index implies #[trigger] slot_of(h2, q)
        == slot_of(h, q) by {}
    assert forall|q: int| rep_present(h, l, q) && q > index implies #[trigger] slot_of(h2, q)
        == slot_of(h, q) - 1 by {
        if q < index + 1 + sz {
            assert(hole_covers(h[k], q));
        }
    }
    lemma_map_after_remove(h, vs, l, h2, vs2, l, index);
}

/// Removing a value between two stored values opens a hole of size one.
#[verifier::spinoff_prover]
#[verifier::rlimit(40)]
pub proof fn lemma_remove_new_hole<V>(
    h: Seq<(usize, usize)>,
    vs: Seq<V>,
    l: Option<usize>,
    index: usize,
    k: int,
)
    requires
        inner_removal(h, vs, l, index, k),
        k == 0 || h[k - 1].0 + h[k - 1].1 != index,
        k == h.len() || h[k].0 > index + 1,
    ensures
        ({
            let h2 = h.insert(k, (index, 1usize));
            let vs2 = vs.remove(slot_of(h, index as int));
            &&& slot_of(h, index as int) == index - hole_offset(h.take(k), index as int)
            &&& rep_wf(h2, vs2, l)
            &&& rep_map(h2, vs2, l) == rep_map(h, vs, l).remove(index)
        }),
{
    let nh = (index, 1usize);
    let h2 = h.insert(k, nh);
    let vs2 = vs.remove(slot_of(h, index as int));
    let last = l.unwrap();
    lemma_scan(h, index as int, k);
    h.insert_ensures(k, nh);
    assert forall|j: int| 0 <= j < h2.len() implies #[trigger] h2[j] == if j < k {
        h[j]
    } else if j == k {
        nh
    } else {
        h[j - 1]
    } by {}
    lemma_hole_neighbourhood_all(h);
    assert forall|j: int| 0 <= j < h2.len() - 1 implies #[trigger] h2[j].0 + h2[j].1 < h2[j + 1].0 by {
        if j + 1 < k {
            assert(h[j].0 + h[j].1 < h[j + 1].0);
        } else if j + 1 == k {
            assert(h[j].0 + h[j].1 <= index);
        } else if j > k {
            assert(h[j - 1].0 + h[j - 1].1 < h[j].0);
        }
    }
    assert forall|j: int| 0 <= j < h2.len() implies #[trigger] h2[j].1 >= 1 by {}
    lemma_holes_wf_from_neighbours(h2);
    assert forall|j: int| 0 <= j < h2.len() implies #[trigger] h2[j].1 >= 1 by {}
    assert forall|j: int| 0 <= j < h2.len() implies #[trigger] h2[j].0 + h2[j].1 <= last by {}
    assert forall|q: int| #[trigger] hole_offset(h2, q) == hole_offset(h, q) + start_weight(nh, q) by {
        lemma_offset_insert(h, k, nh, q);
    }
    lemma_slot_bounds(h, vs, l, index as int);
    assert(hole_offset(h2, last + 1) == hole_offset(h, last + 1) + 1);
    lemma_slot_last(h, vs, l, index as int);
    assert(vs2.len() + hole_offset(h2, last + 1) == last + 1);
    assert(rep_wf(h2, vs2, l));
    assert forall|q: int| #[trigger]
        rep_present(h2, l, q) <==> (rep_present(h, l, q) && q != index) by {
        if in_some_hole(h, q) {
            let j = choose|j: int| 0 <= j < h.len() && #[trigger] hole_covers(h[j], q);
            if j < k {
                assert(hole_covers(h2[j], q));
            } else {
                assert(hole_covers(h2[j + 1], q));
            }
        }
        if in_some_hole(h2, q) && q != index {
            let j = choose|j: int| 0 <= j < h2.len() && #[trigger] hole_covers(h2[j], q);
            if j < k {
                assert(hole_covers(h[j], q));
            } else if j > k {
                assert(hole_covers(h[j - 1], q));
            }
        }
        if q == index {
            assert(hole_covers(h2[k], q));
        }
    }
    assert forall|q: int| rep_present(h, l, q) && q < index implies #[trigger] slot_of(h2, q)
        == slot_of(h, q) by {}
    assert forall|q: int| rep_present(h, l, q) && q > index implies #[trigger] slot_of(h2, q)
        == slot_of(h, q) - 1 by {}
    lemma_map_after_remove(h, vs, l, h2, vs2, l, index);
}

/// One more hole that ends at or before `index` adds its whole size to the offset.
pub proof fn lemma_scan_step(h: Seq<(usize, usize)>, index: int, i: int)
    requires
        holes_wf(h),
        0 <= i < h.len(),
        0 <= index,
        forall|j: int| 0 <= j <= i ==> #[trigger] h[j].0 + h[j].1 <= index,
    ensures
        hole_offset(h.take(i + 1), index) == hole_offset(h.take(i), index) + h[i].1,
        hole_offset(h.take(i + 1), index) <= index,
{
    let t = h.take(i + 1);
    lemma_offset_take(h, i, index);
    lemma_holes_wf_take(h, i + 1);
    assert forall|j: int| 0 <= j < t.len() && #[trigger] t[j].0 < index implies t[j].0 + t[j].1
        <= index by {
        assert(t[j] == h[j]);
    }
    lemma_offset_span(t, 0, index);
    lemma_offset_zero(t);
}

/// Position `p` lies in a hole, after its first position and before its last one.
pub open spec fn strictly_inside_hole(holes: Seq<(usize, usize)>, p: int) -> bool {
    exists|j: int| 0 <= j < holes.len() && #[trigger] holes[j].0 < p < holes[j].0 + holes[j].1 - 1
}

/// The total size of the holes.
pub open spec fn holes_size(s: Seq<(usize, usize)>) -> int
    decreases s.len(),
{
    if s.len() == 0 {
        0
    } else {
        holes_size(s.drop_last()) + s.last().1
    }
}

/// The slot of the value that follows hole `j`: how many values come before it.
pub open spec fn hole_slot(h: Seq<(usize, usize)>, j: int) -> int {
    h[j].0 - holes_size(h.take(j))
}

/// How far the holes among the first `j` ones move the value of slot `t`.
pub open spec fn slot_shift(h: Seq<(usize, usize)>, j: int, t: int) -> int
    decreases j,
{
    if j <= 0 {
        0
    } else {
        slot_shift(h, j - 1, t) + if hole_slot(h, j - 1) <= t {
            h[j - 1].1 as int
        } else {
            0
        }
    }
}

pub proof fn lemma_holes_size_take(s: Seq<(usize, usize)>, i: int)
    requires
        0 <= i < s.len(),
    ensures
        holes_size(s.take(i + 1)) == holes_size(s.take(i)) + s[i].1,
{
    assert(s.take(i + 1).drop_last() =~= s.take(i));
}

pub proof fn lemma_holes_size_monotone(s: Seq<(usize, usize)>, i: int, j: int)
    requires
        0 <= i <= j <= s.len(),
    ensures
        0 <= holes_size(s.take(i)) <= holes_size(s.take(j)),
    decreases j - i,
{
    if i < j {
        lemma_holes_size_monotone(s, i, j - 1);
        lemma_holes_size_take(s, j - 1);
    } else {
        lemma_holes_size_nonneg(s.take(i));
    }
}

pub proof fn lemma_holes_size_nonneg(s: Seq<(usize, usize)>)
    ensures
        holes_size(s) >= 0,
    decreases s.len(),
{
    if s.len() > 0 {
        lemma_holes_size_nonneg(s.drop_last());
    }
}

/// Where every hole starts before `x`, the offset of `x` is the total size.
pub proof fn lemma_offset_all(s: Seq<(usize, usize)>, x: int)
    requires
        forall|j: int| 0 <= j < s.len() ==> #[trigger] s[j].0 < x,
    ensures
        hole_offset(s, x) == holes_size(s),
    decreases s.len(),
{
    if s.len() > 0 {
        lemma_offset_all(s.drop_last(), x);
    }
}

/// Hole slots grow with the holes, and stay within the value list.
pub proof fn lemma_hole_slots<V>(h: Seq<(usize, usize)>, vs: Seq<V>, l: Option<usize>)
    requires
        rep_wf(h, vs, l),
    ensures
        forall|j: int| 0 <= j < h.len() ==> 0 <= #[trigger] hole_slot(h, j) < vs.len(),
        forall|i: int, j: int|
            #![trigger hole_slot(h, i), hole_slot(h, j)]
            0 <= i < j < h.len() ==> hole_slot(h, i) < hole_slot(h, j),
        h.len() > 0 ==> holes_size(h) == hole_offset(h, l.unwrap() + 1),
        h.len() > 0 ==> l.unwrap() + 1 == vs.len() + holes_size(h),
{
    assert forall|j: int| 0 <= j < h.len() implies 0 <= #[trigger] hole_slot(h, j) < vs.len() by {
        lemma_hole_neighbourhood(h, j);
        assert forall|i: int| 0 <= i < h.take(j).len() implies #[trigger] h.take(j)[i].0 < h[j].0 by {
            assert(h[i].0 + h[i].1 < h[j].0);
        }
        lemma_offset_all(h.take(j), h[j].0 as int);
        assert forall|i: int| j <= i < h.len() implies #[trigger] h[i].0 >= h[j].0 by {
            if i > j {
                assert(h[j].0 + h[j].1 < h[i].0);
            }
        }
        lemma_offset_after(h, j, h[j].0 as int);
        assert forall|i: int| 0 <= i < h.len() && #[trigger] h[i].0 < h[j].0 implies h[i].0 + h[i].1
            <= h[j].0 by {
            if i > j {
                assert(h[j].0 + h[j].1 < h[i].0);
            } else if i < j {
                assert(h[i].0 + h[i].1 < h[j].0);
            }
        }
        lemma_slot_range(h, vs, l, h[j].0 as int);
    }
    assert forall|i: int, j: int|
        #![trigger hole_slot(h, i), hole_slot(h, j)]
        0 <= i < j < h.len() implies hole_slot(h, i) < hole_slot(h, j) by {
        lemma_hole_slots_step(h, i, j);
    }
    if h.len() > 0 {
        lemma_offset_all(h, l.unwrap() + 1);
    }
}

proof fn lemma_hole_slots_step(h: Seq<(usize, usize)>, i: int, j: int)
    requires
        holes_wf(h),
        0 <= i < j < h.len(),
    ensures
        hole_slot(h, i) < hole_slot(h, j),
    decreases j - i,
{
    if j > i + 1 {
        lemma_hole_slots_step(h, i, j - 1);
    }
    assert(h[j - 1].0 + h[j - 1].1 < h[j].0);
    lemma_holes_size_take(h, j - 1);
}

/// The holes among the first `j` whose slot is at most `t` are a prefix of them.
pub proof fn lemma_slot_shift_prefix<V>(
    h: Seq<(usize, usize)>,
    vs: Seq<V>,
    l: Option<usize>,
    j: int,
    t: int,
) -> (m: int)
    requires
        rep_wf(h, vs, l),
        0 <= j <= h.len(),
    ensures
        0 <= m <= j,
        forall|i: int| 0 <= i < m ==> #[trigger] hole_slot(h, i) <= t,
        forall|i: int| m <= i < j ==> #[trigger] hole_slot(h, i) > t,
        slot_shift(h, j, t) == holes_size(h.take(m)),
    decreases j,
{
    lemma_hole_slots(h, vs, l);
    if j == 0 {
        assert(h.take(0).len() == 0);
        0
    } else {
        let m0 = lemma_slot_shift_prefix(h, vs, l, j - 1, t);
        if hole_slot(h, j - 1) <= t {
            assert forall|i: int| 0 <= i < j - 1 implies #[trigger] hole_slot(h, i) <= t by {
                assert(hole_slot(h, i) < hole_slot(h, j - 1));
            }
            if m0 < j - 1 {
                assert(hole_slot(h, m0) > t);
                assert(hole_slot(h, m0) < hole_slot(h, j - 1));
            }
            lemma_holes_size_take(h, j - 1);
            j
        } else {
            m0
        }
    }
}

/// The value of slot `t` is stored at `t` moved by all the holes before it.
pub proof fn lemma_slot_position<V>(h: Seq<(usize, usize)>, vs: Seq<V>, l: Option<usize>, t: int)
    requires
        rep_wf(h, vs, l),
        0 <= t < vs.len(),
    ensures
        rep_present(h, l, t + slot_shift(h, h.len() as int, t)),
        slot_of(h, t + slot_shift(h, h.len() as int, t)) == t,
        0 <= slot_shift(h, h.len() as int, t),
        t + slot_shift(h, h.len() as int, t) <= l.unwrap(),
{
    let n = h.len() as int;
    let m = lemma_slot_shift_prefix(h, vs, l, n, t);
    let p = t + holes_size(h.take(m));
    lemma_hole_slots(h, vs, l);
    lemma_holes_size_monotone(h, m, n);
    assert forall|i: int| 0 <= i < m implies #[trigger] h[i].0 + h[i].1 <= p by {
        assert(hole_slot(h, i) <= t);
        lemma_holes_size_take(h, i);
        lemma_holes_size_monotone(h, i + 1, m);
    }
    assert forall|i: int| m <= i < n implies #[trigger] h[i].0 > p by {
        assert(hole_slot(h, i) > t);
        lemma_holes_size_monotone(h, m, i);
    }
    assert forall|j: int| 0 <= j < h.len() implies !#[trigger] hole_covers(h[j], p) by {
        if j < m {
            assert(h[j].0 + h[j].1 <= p);
        } else {
            assert(h[j].0 > p);
        }
    }
    assert forall|i: int| m <= i < h.len() implies #[trigger] h[i].0 >= p by {}
    lemma_offset_after(h, m, p);
    assert forall|i: int| 0 <= i < h.take(m).len() implies #[trigger] h.take(m)[i].0 < p by {
        assert(h[i].0 + h[i].1 <= p);
    }
    lemma_offset_all(h.take(m), p);
    assert(h.take(n) =~= h);
    if l is None {
        assert(false);
    }
}

pub proof fn lemma_slot_shift_monotone(h: Seq<(usize, usize)>, i: int, j: int, t: int)
    requires
        0 <= i <= j,
    ensures
        0 <= slot_shift(h, i, t) <= slot_shift(h, j, t),
    decreases j - i,
{
    if i < j {
        lemma_slot_shift_monotone(h, i, j - 1, t);
    } else {
        lemma_slot_shift_nonneg(h, i, t);
    }
}

proof fn lemma_slot_shift_nonneg(h: Seq<(usize, usize)>, j: int, t: int)
    ensures
        0 <= slot_shift(h, j, t),
    decreases j,
{
    if j > 0 {
        lemma_slot_shift_nonneg(h, j - 1, t);
    }
}

} // verus!
