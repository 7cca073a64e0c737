//! Stable ordering of sequences.
use vstd::prelude::*;

verus! {

/// `s` with `x` put in behind every element that it need not precede: just before the run of
/// elements at the end of `s` that must all come after `x`.
pub open spec fn place<T>(s: Seq<T>, x: T, before: spec_fn(T, T) -> bool) -> Seq<T>
    decreases s.len(),
{
    if s.len() > 0 && before(x, s.last()) {
        place(s.drop_last(), x, before).push(s.last())
    } else {
        s.push(x)
    }
}

/// The elements of `s` in the order `before`; those that it does not tell apart stay in the
/// order in which they stand.
pub open spec fn arranged<T>(s: Seq<T>, before: spec_fn(T, T) -> bool) -> Seq<T>
    decreases s.len(),
{
    if s.len() == 0 {
        s
    } else {
        place(arranged(s.drop_last(), before), s.last(), before)
    }
}

/// Whether `before` is an order in which elements may tie.
pub open spec fn is_order<T>(before: spec_fn(T, T) -> bool) -> bool {
    &&& forall|a: T, b: T| #[trigger] before(a, b) ==> !before(b, a)
    &&& forall|a: T, b: T, c: T|
        !(#[trigger] before(a, b)) && !(#[trigger] before(b, c)) ==> !before(a, c)
}

/// Whether no element comes before one that stands in front of it.
pub open spec fn in_order<T>(s: Seq<T>, before: spec_fn(T, T) -> bool) -> bool {
    forall|i: int, j: int| 0 <= i < j < s.len() ==> !before(#[trigger] s[j], #[trigger] s[i])
}

/// Whether `before` does not tell two elements apart.
pub open spec fn ties<T>(a: T, before: spec_fn(T, T) -> bool) -> spec_fn(T) -> bool {
    |b: T| !before(a, b) && !before(b, a)
}

proof fn lemma_place<T>(s: Seq<T>, x: T, before: spec_fn(T, T) -> bool)
    requires
        is_order(before),
        in_order(s, before),
    ensures
        in_order(place(s, x, before), before),
        place(s, x, before).to_multiset() == s.to_multiset().insert(x),
        place(s, x, before).len() == s.len() + 1,
    decreases s.len(),
{
    broadcast use vstd::seq_lib::group_to_multiset_ensures;

    let r = place(s, x, before);
    if s.len() > 0 && before(x, s.last()) {
        let t = s.drop_last();
        lemma_place(t, x, before);
        let p = place(t, x, before);
        assert(s =~= t.push(s.last()));
        assert(r.to_multiset() =~= s.to_multiset().insert(x));
        assert forall|i: int, j: int| 0 <= i < j < r.len() implies !before(
            #[trigger] r[j],
            #[trigger] r[i],
        ) by {
            if j < p.len() {
                assert(r[j] == p[j] && r[i] == p[i]);
            } else {
                assert(r[i] == p[i]);
                assert(p.contains(p[i]));
                assert(p.to_multiset().contains(p[i]));
                if p[i] != x {
                    assert(t.to_multiset().contains(p[i]));
                    assert(t.contains(p[i]));
                    let k = choose|k: int| 0 <= k < t.len() && t[k] == p[i];
                    assert(s[k] == p[i]);
                    assert(!before(s[s.len() - 1], s[k]));
                }
            }
        }
    } else {
        assert forall|i: int, j: int| 0 <= i < j < r.len() implies !before(
            #[trigger] r[j],
            #[trigger] r[i],
        ) by {
            if j < s.len() {
                assert(r[j] == s[j] && r[i] == s[i]);
            } else {
                assert(r[i] == s[i]);
                if i < s.len() - 1 {
                    assert(!before(s[s.len() - 1], s[i]));
                    assert(!before(x, s[s.len() - 1]));
                }
            }
        }
    }
}

proof fn lemma_place_stable<T>(s: Seq<T>, x: T, e: T, before: spec_fn(T, T) -> bool)
    requires
        is_order(before),
    ensures
        place(s, x, before).filter(ties(e, before)) == s.push(x).filter(ties(e, before)),
    decreases s.len(),
{
    broadcast use Seq::lemma_filter_push;

    let p = ties(e, before);
    if s.len() > 0 && before(x, s.last()) {
        let t = s.drop_last();
        let y = s.last();
        lemma_place_stable(t, x, e, before);
        assert(s =~= t.push(y));
        assert(!(p(x) && p(y)));
    }
}

/// What `arranged` gives is in order, and holds the same elements as often as before.
pub proof fn law_arranged_is_in_order<T>(s: Seq<T>, before: spec_fn(T, T) -> bool)
    requires
        is_order(before),
    ensures
        in_order(arranged(s, before), before),
        arranged(s, before).to_multiset() == s.to_multiset(),
        arranged(s, before).len() == s.len(),
    decreases s.len(),
{
    broadcast use vstd::seq_lib::group_to_multiset_ensures;

    if s.len() > 0 {
        law_arranged_is_in_order(s.drop_last(), before);
        lemma_place(arranged(s.drop_last(), before), s.last(), before);
        assert(s =~= s.drop_last().push(s.last()));
    }
}

/// Elements that the order does not tell apart keep their places among themselves.
pub proof fn law_arranged_is_stable<T>(s: Seq<T>, e: T, before: spec_fn(T, T) -> bool)
    requires
        is_order(before),
    ensures
        arranged(s, before).filter(ties(e, before)) == s.filter(ties(e, before)),
    decreases s.len(),
{
    broadcast use Seq::lemma_filter_push;

    if s.len() > 0 {
        let t = s.drop_last();
        law_arranged_is_stable(t, e, before);
        lemma_place_stable(arranged(t, before), s.last(), e, before);
        assert(s =~= t.push(s.last()));
    }
}

/// Where `place` puts an element.
pub proof fn lemma_place_at<T>(s: Seq<T>, x: T, j: int, before: spec_fn(T, T) -> bool)
    requires
        0 <= j <= s.len(),
        forall|k: int| j <= k < s.len() ==> before(x, #[trigger] s[k]),
        j > 0 ==> !before(x, s[j - 1]),
    ensures
        place(s, x, before) == s.insert(j, x),
    decreases s.len(),
{
    if j < s.len() {
        lemma_place_at(s.drop_last(), x, j, before);
        assert(s.drop_last().insert(j, x).push(s.last()) =~= s.insert(j, x));
    } else {
        assert(s.insert(j, x) =~= s.push(x));
    }
}

/// A list of names with a number each.
pub open spec fn pairs(s: Seq<(String, u64)>) -> Seq<(Seq<char>, u64)> {
    s.map_values(|p: (String, u64)| (p.0@, p.1))
}

pub proof fn lemma_pairs_push(s: Seq<(String, u64)>, x: (String, u64))
    ensures
        pairs(s.push(x)) == pairs(s).push((x.0@, x.1)),
{
    assert(pairs(s.push(x)) =~= pairs(s).push((x.0@, x.1)));
}

/// A copy of a list of names with a number each.
pub fn copy_pairs(v: &Vec<(String, u64)>) -> (r: Vec<(String, u64)>)
    ensures
        pairs(r@) == pairs(v@),
{
    let mut out: Vec<(String, u64)> = Vec::new();
    for i in 0..v.len()
        invariant
            pairs(out@) == pairs(v@).take(i as int),
    {
        let x = (v[i].0.clone(), v[i].1);
        proof {
            lemma_pairs_push(out@, x);
            assert(pairs(v@).take(i + 1) =~= pairs(v@).take(i as int).push(pairs(v@)[i as int]));
        }
        out.push(x);
    }
    assert(pairs(v@).take(v@.len() as int) =~= pairs(v@));
    out
}

/// The order in which larger numbers come first.
pub open spec fn larger_first() -> spec_fn((Seq<char>, u64), (Seq<char>, u64)) -> bool {
    |a: (Seq<char>, u64), b: (Seq<char>, u64)| a.1 > b.1
}

/// One step of an insertion sort: with the elements before `i` arranged already, moving the
/// element at `i` to `j` arranges one more.
pub proof fn lemma_step<T>(
    given: Seq<T>,
    now: Seq<T>,
    i: int,
    j: int,
    before: spec_fn(T, T) -> bool,
)
    requires
        0 <= j <= i < now.len(),
        now.len() == given.len(),
        now == arranged(given.take(i), before) + given.skip(i),
        arranged(given.take(i), before).len() == i,
        forall|k: int| j <= k < i ==> before(now[i], #[trigger] now[k]),
        j > 0 ==> !before(now[i], now[j - 1]),
    ensures
        now.remove(i).insert(j, now[i]) == arranged(given.take(i + 1), before) + given.skip(i + 1),
        arranged(given.take(i + 1), before).len() == i + 1,
{
    let done = arranged(given.take(i), before);
    assert(now[i] == given[i]);
    assert forall|k: int| j <= k < done.len() implies before(now[i], #[trigger] done[k]) by {
        assert(now[k] == done[k]);
    }
    assert(j > 0 ==> now[j - 1] == done[j - 1]);
    lemma_place_at(done, now[i], j, before);
    assert(given.take(i + 1).drop_last() =~= given.take(i));
    assert(given.take(i + 1).last() == given[i]);
    assert(now.remove(i).insert(j, now[i]) =~= done.insert(j, now[i]) + given.skip(i + 1));
}

/// Sorts by the number, largest first.
pub fn sort_larger_first(v: &mut Vec<(String, u64)>)
    ensures
        pairs(final(v)@) == arranged(pairs(old(v)@), larger_first()),
{
    let ghost given = pairs(v@);
    let n = v.len();
    assert(given.skip(0) =~= given);
    assert(given.take(0) =~= Seq::empty());
    assert(Seq::<(Seq<char>, u64)>::empty() + given =~= given);
    for i in 0..n
        invariant
            n == v@.len() == given.len(),
            pairs(v@) == arranged(given.take(i as int), larger_first()) + given.skip(i as int),
            arranged(given.take(i as int), larger_first()).len() == i,
    {
        let mut j: usize = i;
        while j > 0 && v[j - 1].1 < v[i].1
            invariant
                j <= i < v@.len(),
                forall|k: int| j <= k < i ==> v@[k].1 < v@[i as int].1,
            decreases j,
        {
            j = j - 1;
        }
        proof {
            lemma_step(given, pairs(v@), i as int, j as int, larger_first());
        }
        let ghost moved = pairs(v@).remove(i as int).insert(j as int, pairs(v@)[i as int]);
        let x = v.remove(i);
        v.insert(j, x);
        assert(pairs(v@) =~= moved);
    }
    assert(given.take(n as int) =~= given);
    assert(pairs(v@) =~= arranged(given, larger_first()));
}

/// The order by number is an order.
pub proof fn law_larger_first_is_order()
    ensures
        is_order(larger_first()),
{
}

} // verus!
