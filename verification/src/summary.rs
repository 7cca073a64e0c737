//! All subscriptions taken together.
use crate::ollama;
use crate::ollama::{ranks_before, Usage, UsageView};
use crate::order;
use crate::text;
use vstd::prelude::*;

verus! {

/// The models of all usages with their numbers of requests, one after the other.
pub open spec fn all_models(usages: Seq<UsageView>) -> Seq<(Seq<char>, u64)>
    decreases usages.len(),
{
    if usages.len() == 0 {
        Seq::empty()
    } else {
        all_models(usages.drop_last()) + usages.last().models
    }
}

/// The requests to the model `name` in a list, added up.
pub open spec fn total(counts: Seq<(Seq<char>, u64)>, name: Seq<char>) -> nat
    decreases counts.len(),
{
    if counts.len() == 0 {
        0
    } else {
        total(counts.drop_last(), name) + if counts.last().0 == name {
            counts.last().1 as nat
        } else {
            0
        }
    }
}

/// Whether a list names a model.
pub open spec fn names_model(counts: Seq<(Seq<char>, u64)>, name: Seq<char>) -> bool {
    exists|i: int| 0 <= i < counts.len() && (#[trigger] counts[i]).0 == name
}

/// Whether the total of each model fits in 64 bits.
pub open spec fn totals_fit(counts: Seq<(Seq<char>, u64)>) -> bool {
    forall|name: Seq<char>| #[trigger] total(counts, name) <= u64::MAX
}

/// Whether `sums` lists each model of `counts` once, with its total.
pub open spec fn sums_up(sums: Seq<(Seq<char>, u64)>, counts: Seq<(Seq<char>, u64)>) -> bool {
    &&& forall|i: int, j: int|
        0 <= i < j < sums.len() ==> (#[trigger] sums[i]).0 != (#[trigger] sums[j]).0
    &&& forall|i: int| 0 <= i < sums.len() ==> (#[trigger] sums[i]).1 == total(counts, sums[i].0)
    &&& forall|name: Seq<char>| #[trigger]
        names_model(sums, name) <==> names_model(counts, name)
}

proof fn lemma_total_grows(counts: Seq<(Seq<char>, u64)>, n: int, name: Seq<char>)
    requires
        0 <= n <= counts.len(),
    ensures
        total(counts.take(n), name) <= total(counts, name),
    decreases counts.len() - n,
{
    if n < counts.len() {
        lemma_total_grows(counts, n + 1, name);
        assert(counts.take(n + 1).drop_last() =~= counts.take(n));
    } else {
        assert(counts.take(n) =~= counts);
    }
}

proof fn lemma_total_absent(counts: Seq<(Seq<char>, u64)>, name: Seq<char>)
    requires
        !names_model(counts, name),
    ensures
        total(counts, name) == 0,
    decreases counts.len(),
{
    if counts.len() > 0 {
        let t = counts.drop_last();
        assert forall|i: int| 0 <= i < t.len() implies (#[trigger] t[i]).0 != name by {
            assert(counts[i].0 != name);
        }
        lemma_total_absent(t, name);
        assert(counts[counts.len() - 1].0 != name);
    }
}

/// Adds `n` requests to the model `name`; reports whether the total still fits.
fn count_in(sums: &mut Vec<(String, u64)>, name: &str, n: u64) -> (r: bool)
    ensures
        forall|counts: Seq<(Seq<char>, u64)>| #[trigger]
            sums_up(order::pairs(old(sums)@), counts) ==> {
                &&& r == (total(counts.push((name@, n)), name@) <= u64::MAX)
                &&& r ==> sums_up(order::pairs(final(sums)@), counts.push((name@, n)))
            },
{
    let ghost was = order::pairs(sums@);
    let mut i: usize = 0;
    while i < sums.len() && !text::same(sums[i].0.as_str(), name)
        invariant
            i <= sums@.len(),
            was == order::pairs(sums@),
            sums == old(sums),
            forall|k: int| 0 <= k < i ==> (#[trigger] was[k]).0 != name@,
        decreases sums@.len() - i,
    {
        i = i + 1;
    }
    if i == sums.len() {
        let x = (name.to_owned(), n);
        proof {
            order::lemma_pairs_push(sums@, x);
        }
        sums.push(x);
        let ghost is = order::pairs(sums@);
        proof {
            assert forall|counts: Seq<(Seq<char>, u64)>| #[trigger]
                sums_up(was, counts) implies {
                &&& total(counts.push((name@, n)), name@) <= u64::MAX
                &&& sums_up(is, counts.push((name@, n)))
            } by {
                lemma_count_new(was, counts, name@, n);
            }
        }
        true
    } else {
        match sums[i].1.checked_add(n) {
            Some(sum) => {
                let label = sums[i].0.clone();
                sums.set(i, (label, sum));
                let ghost is = order::pairs(sums@);
                proof {
                    assert(is =~= was.update(i as int, (name@, sum)));
                    assert forall|counts: Seq<(Seq<char>, u64)>| #[trigger]
                        sums_up(was, counts) implies {
                        &&& total(counts.push((name@, n)), name@) <= u64::MAX
                        &&& sums_up(is, counts.push((name@, n)))
                    } by {
                        lemma_count_more(was, counts, i as int, n);
                    }
                }
                true
            },
            None => {
                proof {
                    assert forall|counts: Seq<(Seq<char>, u64)>| #[trigger]
                        sums_up(was, counts) implies total(counts.push((name@, n)), name@)
                        > u64::MAX by {
                        assert(was[i as int].1 == total(counts, was[i as int].0));
                        assert(counts.push((name@, n)).drop_last() =~= counts);
                    }
                }
                false
            },
        }
    }
}

proof fn lemma_total_push(
    counts: Seq<(Seq<char>, u64)>,
    x: (Seq<char>, u64),
    name: Seq<char>,
)
    ensures
        total(counts.push(x), name) == total(counts, name) + if x.0 == name {
            x.1 as nat
        } else {
            0
        },
        names_model(counts.push(x), name) <==> names_model(counts, name) || x.0 == name,
{
    let p = counts.push(x);
    assert(p.drop_last() =~= counts);
    if names_model(counts, name) {
        let i = choose|i: int| 0 <= i < counts.len() && (#[trigger] counts[i]).0 == name;
        assert(p[i].0 == name);
    }
    if x.0 == name {
        assert(p[counts.len() as int].0 == name);
    }
    if names_model(p, name) && x.0 != name {
        let i = choose|i: int| 0 <= i < p.len() && (#[trigger] p[i]).0 == name;
        assert(counts[i].0 == name);
    }
}

proof fn lemma_count_new(
    sums: Seq<(Seq<char>, u64)>,
    counts: Seq<(Seq<char>, u64)>,
    name: Seq<char>,
    n: u64,
)
    requires
        sums_up(sums, counts),
        forall|k: int| 0 <= k < sums.len() ==> (#[trigger] sums[k]).0 != name,
    ensures
        total(counts.push((name, n)), name) == n,
        sums_up(sums.push((name, n)), counts.push((name, n))),
{
    let (s, c) = (sums.push((name, n)), counts.push((name, n)));
    assert(!names_model(sums, name));
    lemma_total_absent(counts, name);
    lemma_total_push(counts, (name, n), name);
    assert forall|i: int| 0 <= i < s.len() implies (#[trigger] s[i]).1 == total(c, s[i].0) by {
        lemma_total_push(counts, (name, n), s[i].0);
        if i < sums.len() {
            assert(s[i] == sums[i]);
        }
    }
    assert forall|other: Seq<char>| #[trigger] names_model(s, other) <==> names_model(c, other) by {
        lemma_total_push(sums, (name, n), other);
        lemma_total_push(counts, (name, n), other);
        assert(names_model(sums, other) <==> names_model(counts, other));
    }
}

proof fn lemma_count_more(
    sums: Seq<(Seq<char>, u64)>,
    counts: Seq<(Seq<char>, u64)>,
    i: int,
    n: u64,
)
    requires
        sums_up(sums, counts),
        0 <= i < sums.len(),
        sums[i].1 + n <= u64::MAX,
    ensures
        total(counts.push((sums[i].0, n)), sums[i].0) == sums[i].1 + n,
        sums_up(
            sums.update(i, (sums[i].0, (sums[i].1 + n) as u64)),
            counts.push((sums[i].0, n)),
        ),
{
    let name = sums[i].0;
    let s = sums.update(i, (name, (sums[i].1 + n) as u64));
    let c = counts.push((name, n));
    lemma_total_push(counts, (name, n), name);
    assert forall|k: int| 0 <= k < s.len() implies (#[trigger] s[k]).1 == total(c, s[k].0) by {
        lemma_total_push(counts, (name, n), s[k].0);
        assert(s[k].0 == sums[k].0);
        if k != i {
            assert(sums[k].0 != name);
        }
    }
    assert forall|k: int, l: int| 0 <= k < l < s.len() implies (#[trigger] s[k]).0 != (
    #[trigger] s[l]).0 by {
        assert(s[k].0 == sums[k].0 && s[l].0 == sums[l].0);
    }
    assert forall|other: Seq<char>| #[trigger] names_model(s, other) <==> names_model(c, other) by {
        lemma_total_push(counts, (name, n), other);
        assert(names_model(sums, other) <==> names_model(counts, other));
        if names_model(s, other) {
            let k = choose|k: int| 0 <= k < s.len() && (#[trigger] s[k]).0 == other;
            assert(sums[k].0 == other);
        }
        if names_model(sums, other) {
            let k = choose|k: int| 0 <= k < sums.len() && (#[trigger] sums[k]).0 == other;
            assert(s[k].0 == other);
        }
        if other == name {
            assert(s[i].0 == other);
        }
    }
}

/// Whether `sums` adds up the requests of all usages, the most requested model first. The order of
/// models with equally many requests is left open.
pub open spec fn is_aggregate(sums: Seq<(Seq<char>, u64)>, usages: Seq<UsageView>) -> bool {
    sums_up(sums, all_models(usages)) && order::in_order(sums, order::larger_first())
}

/// The requests of all usages added up by model; none where the total of some model does not fit
/// in 64 bits.
pub fn checked_aggregate_models(usages: &Vec<Usage>) -> (r: Option<Vec<(String, u64)>>)
    ensures
        r is Some <==> totals_fit(all_models(ollama::usage_views(usages@))),
        r matches Some(sums) ==> is_aggregate(order::pairs(sums@), ollama::usage_views(usages@)),
{
    let ghost views = ollama::usage_views(usages@);
    let ghost everything = all_models(views);
    let mut sums: Vec<(String, u64)> = Vec::new();
    let ghost mut counts: Seq<(Seq<char>, u64)> = Seq::empty();
    assert(order::pairs(sums@) =~= Seq::empty());
    assert(sums_up(order::pairs(sums@), counts));
    assert(views.take(0) =~= Seq::empty());
    for i in 0..usages.len()
        invariant
            views == ollama::usage_views(usages@),
            everything == all_models(views),
            counts == all_models(views.take(i as int)),
            sums_up(order::pairs(sums@), counts),
    {
        let models = &usages[i].models;
        let ghost listed = order::pairs(models@);
        assert(views.take(i + 1).drop_last() =~= views.take(i as int));
        assert(views.take(i + 1).last() == usages@[i as int]@);
        assert(all_models(views.take(i + 1)) == counts + listed);
        assert(counts + listed.take(0) =~= counts);
        for j in 0..models.len()
            invariant
                listed == order::pairs(models@),
                i < usages@.len(),
                views == ollama::usage_views(usages@),
                everything == all_models(views),
                all_models(views.take(i + 1)) == counts + listed,
                sums_up(order::pairs(sums@), counts + listed.take(j as int)),
        {
            let ghost so_far = counts + listed.take(j as int);
            let ghost x = listed[j as int];
            let fits = count_in(&mut sums, models[j].0.as_str(), models[j].1);
            assert(so_far.push(x) =~= counts + listed.take(j + 1));
            if !fits {
                proof {
                    let upto = counts + listed;
                    assert(so_far.push(x) =~= upto.take(so_far.len() as int + 1));
                    lemma_total_grows(upto, so_far.len() as int + 1, x.0);
                    lemma_all_models_prefix(views, i + 1);
                    lemma_total_grows(everything, upto.len() as int, x.0);
                    assert(total(everything, x.0) > u64::MAX);
                }
                return None;
            }
        }
        proof {
            assert(listed.take(models@.len() as int) =~= listed);
            counts = counts + listed;
        }
    }
    assert(views.take(views.len() as int) =~= views);
    proof {
        assert forall|name: Seq<char>| #[trigger] total(everything, name) <= u64::MAX by {
            let s = order::pairs(sums@);
            if names_model(everything, name) {
                assert(names_model(s, name));
                let i = choose|i: int| 0 <= i < s.len() && (#[trigger] s[i]).0 == name;
                assert(s[i].1 == total(everything, s[i].0));
            } else {
                lemma_total_absent(everything, name);
            }
        }
        order::law_larger_first_is_order();
        order::law_arranged_is_in_order(order::pairs(sums@), order::larger_first());
        lemma_sums_up_rearranged(
            order::pairs(sums@),
            order::arranged(order::pairs(sums@), order::larger_first()),
            everything,
        );
    }
    order::sort_larger_first(&mut sums);
    Some(sums)
}

proof fn lemma_all_models_prefix(usages: Seq<UsageView>, n: int)
    requires
        0 <= n <= usages.len(),
    ensures
        all_models(usages.take(n)).len() <= all_models(usages).len(),
        all_models(usages.take(n)) == all_models(usages).take(
            all_models(usages.take(n)).len() as int,
        ),
    decreases usages.len(),
{
    let m = all_models(usages.take(n));
    if n < usages.len() {
        let t = usages.drop_last();
        lemma_all_models_prefix(t, n);
        assert(t.take(n) =~= usages.take(n));
        assert(m =~= all_models(usages).take(m.len() as int));
    } else {
        assert(usages.take(n) =~= usages);
        assert(m =~= all_models(usages).take(m.len() as int));
    }
}

proof fn lemma_sums_up_rearranged(
    a: Seq<(Seq<char>, u64)>,
    b: Seq<(Seq<char>, u64)>,
    counts: Seq<(Seq<char>, u64)>,
)
    requires
        sums_up(a, counts),
        a.to_multiset() == b.to_multiset(),
    ensures
        sums_up(b, counts),
{
    broadcast use vstd::seq_lib::group_to_multiset_ensures;

    assert forall|x: (Seq<char>, u64)| a.contains(x) <==> b.contains(x) by {
        a.to_multiset_ensures();
        b.to_multiset_ensures();
        assert(a.contains(x) <==> a.to_multiset().count(x) > 0);
        assert(b.contains(x) <==> b.to_multiset().count(x) > 0);
    }
    assert forall|i: int| 0 <= i < b.len() implies (#[trigger] b[i]).1 == total(
        counts,
        b[i].0,
    ) by {
        assert(b.contains(b[i]));
        let k = choose|k: int| 0 <= k < a.len() && a[k] == b[i];
        assert(a[k].1 == total(counts, a[k].0));
    }
    assert forall|i: int, j: int| 0 <= i < j < b.len() implies (#[trigger] b[i]).0 != (
    #[trigger] b[j]).0 by {
        if b[i].0 == b[j].0 {
            assert(b[i].1 == total(counts, b[i].0));
            assert(b[j].1 == total(counts, b[j].0));
            assert(b[i] == b[j]);
            let x = b[i];
            lemma_twice(b, i, j);
            assert(a.to_multiset().count(x) >= 2);
            lemma_once(a, x);
        }
    }
    assert forall|name: Seq<char>| #[trigger] names_model(b, name) <==> names_model(
        counts,
        name,
    ) by {
        assert(names_model(a, name) <==> names_model(counts, name));
        if names_model(a, name) {
            let i = choose|i: int| 0 <= i < a.len() && (#[trigger] a[i]).0 == name;
            assert(a.contains(a[i]));
            let k = choose|k: int| 0 <= k < b.len() && b[k] == a[i];
            assert(b[k].0 == name);
        }
        if names_model(b, name) {
            let i = choose|i: int| 0 <= i < b.len() && (#[trigger] b[i]).0 == name;
            assert(b.contains(b[i]));
            let k = choose|k: int| 0 <= k < a.len() && a[k] == b[i];
            assert(a[k].0 == name);
        }
    }
}

/// An element that stands at two places is counted at least twice.
proof fn lemma_twice<T>(s: Seq<T>, i: int, j: int)
    requires
        0 <= i < j < s.len(),
        s[i] == s[j],
    ensures
        s.to_multiset().count(s[i]) >= 2,
{
    broadcast use vstd::seq_lib::group_to_multiset_ensures;

    let t = s.remove(j);
    assert(t[i] == s[i]);
    assert(t.contains(s[i]));
    assert(t.to_multiset().count(s[i]) >= 1);
    assert(s =~= t.insert(j, s[j]));
    assert(s.to_multiset() =~= t.to_multiset().insert(s[j]));
}

/// An element of a list of different names is counted at most once.
proof fn lemma_once(s: Seq<(Seq<char>, u64)>, x: (Seq<char>, u64))
    requires
        forall|i: int, j: int|
            0 <= i < j < s.len() ==> (#[trigger] s[i]).0 != (#[trigger] s[j]).0,
    ensures
        s.to_multiset().count(x) <= 1,
    decreases s.len(),
{
    broadcast use vstd::seq_lib::group_to_multiset_ensures;

    if s.len() > 0 {
        let t = s.drop_last();
        lemma_once(t, x);
        assert(s =~= t.push(s.last()));
        if s.last() == x && t.contains(x) {
            let k = choose|k: int| 0 <= k < t.len() && t[k] == x;
            assert(s[k].0 != s[s.len() - 1].0);
        }
        if !t.contains(x) {
            assert(t.to_multiset().count(x) == 0);
        }
    }
}

/// Adds up the requests of all usages by model, the most requested first.
pub fn aggregate_models(usages: &Vec<Usage>) -> (r: Vec<(String, u64)>)
    requires
        totals_fit(all_models(ollama::usage_views(usages@))),
    ensures
        is_aggregate(order::pairs(r@), ollama::usage_views(usages@)),
{
    checked_aggregate_models(usages).unwrap()
}

/// The names of the windows of all usages, one after the other.
pub open spec fn all_window_names(usages: Seq<UsageView>) -> Seq<Seq<char>>
    decreases usages.len(),
{
    if usages.len() == 0 {
        Seq::empty()
    } else {
        all_window_names(usages.drop_last()) + usages.last().windows.map_values(
            |w: (Seq<char>, u64)| w.0,
        )
    }
}

/// `s` with only the first of equal elements left.
pub open spec fn distinct(s: Seq<Seq<char>>) -> Seq<Seq<char>>
    decreases s.len(),
{
    if s.len() == 0 {
        s
    } else {
        with_name(distinct(s.drop_last()), s.last())
    }
}

/// `s` with `x` behind it, unless it stands there already.
pub open spec fn with_name(s: Seq<Seq<char>>, x: Seq<char>) -> Seq<Seq<char>> {
    if s.contains(x) {
        s
    } else {
        s.push(x)
    }
}

/// The names of the windows of all usages, each once, in the canonical order.
pub open spec fn window_names(usages: Seq<UsageView>) -> Seq<Seq<char>> {
    order::arranged(distinct(all_window_names(usages)), ollama::names_by_rank())
}

/// What several texts say.
pub open spec fn texts(s: Seq<String>) -> Seq<Seq<char>> {
    s.map_values(|t: String| t@)
}

fn add_name(names: &mut Vec<String>, name: &str)
    ensures
        texts(final(names)@) == with_name(texts(old(names)@), name@),
{
    let ghost was = texts(names@);
    for i in 0..names.len()
        invariant
            was == texts(names@),
            names == old(names),
            forall|k: int| 0 <= k < i ==> #[trigger] was[k] != name@,
    {
        if text::same(names[i].as_str(), name) {
            assert(was[i as int] == name@);
            assert(was.contains(name@));
            return;
        }
    }
    names.push(name.to_owned());
    assert(texts(names@) =~= was.push(name@));
}

fn sort_names(v: &mut Vec<String>)
    ensures
        texts(final(v)@) == order::arranged(texts(old(v)@), ollama::names_by_rank()),
{
    let ghost given = texts(v@);
    let n = v.len();
    assert(given.skip(0) =~= given);
    assert(given.take(0) =~= Seq::empty());
    assert(Seq::<Seq<char>>::empty() + given =~= given);
    for i in 0..n
        invariant
            n == v@.len() == given.len(),
            texts(v@) == order::arranged(given.take(i as int), ollama::names_by_rank()) + given.skip(
                i as int,
            ),
            order::arranged(given.take(i as int), ollama::names_by_rank()).len() == i,
    {
        let mut j: usize = i;
        while j > 0 && ranks_before(v[i].as_str(), v[j - 1].as_str())
            invariant
                j <= i < v@.len(),
                forall|k: int| j <= k < i ==> ollama::rank_lt(v@[i as int]@, (#[trigger] v@[k])@),
            decreases j,
        {
            j = j - 1;
        }
        let ghost now = texts(v@);
        proof {
            assert forall|k: int| j <= k < i implies ollama::names_by_rank()(
                now[i as int],
                #[trigger] now[k],
            ) by {
                assert(ollama::rank_lt(v@[i as int]@, v@[k]@));
            }
            order::lemma_step(given, now, i as int, j as int, ollama::names_by_rank());
        }
        let ghost moved = now.remove(i as int).insert(j as int, now[i as int]);
        let x = v.remove(i);
        v.insert(j, x);
        assert(texts(v@) =~= moved);
    }
    assert(given.take(n as int) =~= given);
    assert(texts(v@) =~= order::arranged(given, ollama::names_by_rank()));
}

/// The names of the windows of all usages, each once, in the canonical order.
pub fn all_windows(usages: &Vec<Usage>) -> (r: Vec<String>)
    ensures
        texts(r@) == window_names(ollama::usage_views(usages@)),
{
    let ghost views = ollama::usage_views(usages@);
    let mut names: Vec<String> = Vec::new();
    let ghost mut listed: Seq<Seq<char>> = Seq::empty();
    assert(texts(names@) =~= Seq::empty());
    assert(views.take(0) =~= Seq::empty());
    for i in 0..usages.len()
        invariant
            views == ollama::usage_views(usages@),
            listed == all_window_names(views.take(i as int)),
            texts(names@) == distinct(listed),
    {
        let windows = &usages[i].windows;
        let ghost more = order::pairs(windows@).map_values(|w: (Seq<char>, u64)| w.0);
        assert(views.take(i + 1).drop_last() =~= views.take(i as int));
        assert(views.take(i + 1).last() == usages@[i as int]@);
        assert(all_window_names(views.take(i + 1)) == listed + more);
        assert(listed + more.take(0) =~= listed);
        for j in 0..windows.len()
            invariant
                more == order::pairs(windows@).map_values(|w: (Seq<char>, u64)| w.0),
                texts(names@) == distinct(listed + more.take(j as int)),
        {
            add_name(&mut names, windows[j].0.as_str());
            assert((listed + more.take(j + 1)).drop_last() =~= listed + more.take(j as int));
            assert((listed + more.take(j + 1)).last() == windows@[j as int].0@);
        }
        proof {
            assert(more.take(windows@.len() as int) =~= more);
            listed = listed + more;
        }
    }
    assert(views.take(views.len() as int) =~= views);
    sort_names(&mut names);
    names
}

/// The names of the windows are those of all usages, each once, in the canonical order.
pub proof fn law_window_names(usages: Seq<UsageView>)
    ensures
        forall|name: Seq<char>| #[trigger]
            window_names(usages).contains(name) <==> all_window_names(usages).contains(name),
        forall|i: int, j: int|
            0 <= i < j < window_names(usages).len() ==> ollama::rank_lt(
                #[trigger] window_names(usages)[i],
                #[trigger] window_names(usages)[j],
            ),
{
    broadcast use vstd::seq_lib::group_to_multiset_ensures;

    let all = all_window_names(usages);
    let d = distinct(all);
    let r = window_names(usages);
    lemma_distinct(all);
    ollama::law_by_rank_is_order();
    order::law_arranged_is_in_order(d, ollama::names_by_rank());
    d.to_multiset_ensures();
    r.to_multiset_ensures();
    assert forall|name: Seq<char>| #[trigger] r.contains(name) <==> all.contains(name) by {
        assert(d.contains(name) <==> d.to_multiset().count(name) > 0);
        assert(r.contains(name) <==> r.to_multiset().count(name) > 0);
    }
    assert forall|i: int, j: int| 0 <= i < j < r.len() implies ollama::rank_lt(
        #[trigger] r[i],
        #[trigger] r[j],
    ) by {
        assert(!ollama::names_by_rank()(r[j], r[i]));
        ollama::law_rank_order(r[i], r[j], r[i]);
        if r[i] == r[j] {
            lemma_twice(r, i, j);
            d.lemma_multiset_has_no_duplicates();
            assert(d.to_multiset().contains(r[i]));
        }
    }
}

proof fn lemma_distinct(s: Seq<Seq<char>>)
    ensures
        distinct(s).no_duplicates(),
        forall|x: Seq<char>| #[trigger] distinct(s).contains(x) <==> s.contains(x),
    decreases s.len(),
{
    if s.len() > 0 {
        let t = s.drop_last();
        lemma_distinct(t);
        let d = distinct(t);
        let r = distinct(s);
        assert forall|x: Seq<char>| #[trigger] r.contains(x) <==> s.contains(x) by {
            assert(d.contains(x) <==> t.contains(x));
            if s.contains(x) {
                let i = choose|i: int| 0 <= i < s.len() && s[i] == x;
                if i < t.len() {
                    assert(t[i] == x);
                    let k = choose|k: int| 0 <= k < d.len() && d[k] == x;
                    assert(r[k] == x);
                } else if !d.contains(x) {
                    assert(r[d.len() as int] == x);
                }
            }
            if r.contains(x) {
                let k = choose|k: int| 0 <= k < r.len() && r[k] == x;
                if d.contains(x) {
                    let i = choose|i: int| 0 <= i < t.len() && t[i] == x;
                    assert(s[i] == x);
                } else {
                    assert(k < d.len() ==> d[k] == x);
                    assert(s[s.len() - 1] == x);
                }
            }
        }
    }
}

/// The requests in a list, added up over all models.
pub open spec fn grand_total(counts: Seq<(Seq<char>, u64)>) -> nat
    decreases counts.len(),
{
    if counts.len() == 0 {
        0
    } else {
        grand_total(counts.drop_last()) + counts.last().1 as nat
    }
}

/// No request is lost and none is counted twice: added up over all models, an aggregate has as many
/// requests as the usages that it was made from.
pub proof fn law_aggregate_keeps_the_total(
    sums: Seq<(Seq<char>, u64)>,
    usages: Seq<UsageView>,
)
    requires
        is_aggregate(sums, usages),
    ensures
        grand_total(sums) == grand_total(all_models(usages)),
{
    lemma_sums_keep_total(sums, all_models(usages));
}

/// `counts` without the entries for the model `name`.
spec fn without(counts: Seq<(Seq<char>, u64)>, name: Seq<char>) -> Seq<(Seq<char>, u64)> {
    counts.filter(|x: (Seq<char>, u64)| x.0 != name)
}

proof fn lemma_without(counts: Seq<(Seq<char>, u64)>, name: Seq<char>, other: Seq<char>)
    ensures
        grand_total(counts) == total(counts, name) + grand_total(without(counts, name)),
        total(without(counts, name), other) == if other == name {
            0
        } else {
            total(counts, other)
        },
        names_model(without(counts, name), other) <==> other != name && names_model(counts, other),
        without(counts, name).len() <= counts.len(),
    decreases counts.len(),
{
    broadcast use Seq::lemma_filter_push;

    if counts.len() > 0 {
        let t = counts.drop_last();
        let x = counts.last();
        lemma_without(t, name, other);
        assert(counts =~= t.push(x));
        lemma_total_push(t, x, other);
        let w = without(t, name);
        if x.0 != name {
            assert(without(counts, name) == w.push(x));
            lemma_total_push(w, x, other);
            assert(w.push(x).drop_last() =~= w);
        }
    }
}

proof fn lemma_sums_keep_total(sums: Seq<(Seq<char>, u64)>, counts: Seq<(Seq<char>, u64)>)
    requires
        sums_up(sums, counts),
    ensures
        grand_total(sums) == grand_total(counts),
    decreases sums.len(),
{
    if sums.len() == 0 {
        if counts.len() > 0 {
            assert(names_model(counts, counts[0].0));
            assert(names_model(sums, counts[0].0));
        }
    } else {
        let rest = sums.drop_last();
        let name = sums.last().0;
        let left = without(counts, name);
        assert(sums[sums.len() - 1].1 == total(counts, name));
        lemma_without(counts, name, name);
        assert forall|i: int| 0 <= i < rest.len() implies (#[trigger] rest[i]).1 == total(
            left,
            rest[i].0,
        ) by {
            lemma_without(counts, name, rest[i].0);
            assert(sums[i].0 != sums[sums.len() - 1].0);
            assert(sums[i].1 == total(counts, sums[i].0));
        }
        assert forall|i: int, j: int| 0 <= i < j < rest.len() implies (#[trigger] rest[i]).0 != (
        #[trigger] rest[j]).0 by {
            assert(sums[i].0 != sums[j].0);
        }
        assert forall|other: Seq<char>| #[trigger] names_model(rest, other) <==> names_model(
            left,
            other,
        ) by {
            lemma_without(counts, name, other);
            assert(names_model(sums, other) <==> names_model(counts, other));
            assert(sums =~= rest.push(sums.last()));
            lemma_total_push(rest, sums.last(), other);
            if names_model(rest, other) {
                let k = choose|k: int| 0 <= k < rest.len() && (#[trigger] rest[k]).0 == other;
                assert(sums[k].0 != sums[sums.len() - 1].0);
            }
        }
        lemma_sums_keep_total(rest, left);
    }
}

/// The models of all usages are the models of each, one usage after the other.
pub proof fn law_all_models_of_each(usages: Seq<UsageView>, more: Seq<UsageView>, u: UsageView)
    ensures
        all_models(seq![u]) == u.models,
        all_models(usages + more) == all_models(usages) + all_models(more),
    decreases more.len(),
{
    assert(seq![u].drop_last() =~= Seq::empty());
    assert(all_models(seq![u].drop_last()) =~= Seq::empty());
    assert(all_models(seq![u]) =~= u.models);
    if more.len() == 0 {
        assert(usages + more =~= usages);
        assert(all_models(usages + more) =~= all_models(usages) + all_models(more));
    } else {
        law_all_models_of_each(usages, more.drop_last(), u);
        assert((usages + more).drop_last() =~= usages + more.drop_last());
        assert(all_models(usages + more) =~= all_models(usages) + all_models(more));
    }
}

/// The total of a model adds up its entries and no others.
pub proof fn law_total_adds_up(
    counts: Seq<(Seq<char>, u64)>,
    more: Seq<(Seq<char>, u64)>,
    entry: (Seq<char>, u64),
    name: Seq<char>,
)
    ensures
        total(seq![entry], name) == if entry.0 == name {
            entry.1 as nat
        } else {
            0
        },
        total(counts + more, name) == total(counts, name) + total(more, name),
    decreases more.len(),
{
    assert(seq![entry].drop_last() =~= Seq::empty());
    assert(total(seq![entry].drop_last(), name) == 0);
    if more.len() == 0 {
        assert(counts + more =~= counts);
    } else {
        law_total_adds_up(counts, more.drop_last(), entry, name);
        assert((counts + more).drop_last() =~= counts + more.drop_last());
    }
}

proof fn lemma_model_is_among_all(usages: Seq<UsageView>, i: int, j: int)
    requires
        0 <= i < usages.len(),
        0 <= j < usages[i].models.len(),
    ensures
        names_model(all_models(usages), usages[i].models[j].0),
    decreases usages.len(),
{
    let rest = usages.drop_last();
    let before = all_models(rest);
    let all = all_models(usages);
    if i < rest.len() {
        lemma_model_is_among_all(rest, i, j);
        let k = choose|k: int| 0 <= k < before.len() && (#[trigger] before[k]).0
            == usages[i].models[j].0;
        assert(all[k] == before[k]);
    } else {
        assert(all[before.len() + j] == usages[i].models[j]);
    }
}

/// Every model of every usage stands in an aggregate, once, with all its requests; and the models stand
/// with the most requested first.
pub proof fn law_aggregate_lists_every_model(
    sums: Seq<(Seq<char>, u64)>,
    usages: Seq<UsageView>,
    i: int,
    j: int,
) -> (k: int)
    requires
        is_aggregate(sums, usages),
        0 <= i < usages.len(),
        0 <= j < usages[i].models.len(),
    ensures
        0 <= k < sums.len(),
        sums[k].0 == usages[i].models[j].0,
        sums[k].1 == total(all_models(usages), sums[k].0),
        forall|l: int| 0 <= l < sums.len() && l != k ==> (#[trigger] sums[l]).0 != sums[k].0,
        forall|a: int, b: int|
            0 <= a < b < sums.len() ==> (#[trigger] sums[a]).1 >= (#[trigger] sums[b]).1,
{
    let name = usages[i].models[j].0;
    lemma_model_is_among_all(usages, i, j);
    assert(names_model(sums, name));
    assert forall|a: int, b: int| 0 <= a < b < sums.len() implies (#[trigger] sums[a]).1 >= (
    #[trigger] sums[b]).1 by {
        assert(!order::larger_first()(sums[b], sums[a]));
    }
    choose|k: int| 0 <= k < sums.len() && (#[trigger] sums[k]).0 == name
}

proof fn lemma_name_is_among_all(usages: Seq<UsageView>, name: Seq<char>)
    ensures
        all_window_names(usages).contains(name) <==> exists|i: int, k: int|
            0 <= i < usages.len() && 0 <= k < usages[i].windows.len() && (
            #[trigger] usages[i].windows[k]).0 == name,
    decreases usages.len(),
{
    let all = all_window_names(usages);
    if usages.len() > 0 {
        let rest = usages.drop_last();
        let before = all_window_names(rest);
        let own = usages.last().windows.map_values(|w: (Seq<char>, u64)| w.0);
        lemma_name_is_among_all(rest, name);
        if all.contains(name) {
            let p = choose|p: int| 0 <= p < all.len() && all[p] == name;
            if p < before.len() {
                assert(before[p] == name);
                let (i, k) = choose|i: int, k: int|
                    0 <= i < rest.len() && 0 <= k < rest[i].windows.len() && (
                    #[trigger] rest[i].windows[k]).0 == name;
                assert(usages[i].windows[k].0 == name);
            } else {
                assert(own[p - before.len()] == name);
                assert(usages[usages.len() - 1].windows[p - before.len()].0 == name);
            }
        }
        if exists|i: int, k: int|
            0 <= i < usages.len() && 0 <= k < usages[i].windows.len() && (
            #[trigger] usages[i].windows[k]).0 == name {
            let (i, k) = choose|i: int, k: int|
                0 <= i < usages.len() && 0 <= k < usages[i].windows.len() && (
                #[trigger] usages[i].windows[k]).0 == name;
            if i < rest.len() {
                assert(rest[i].windows[k].0 == name);
                let p = choose|p: int| 0 <= p < before.len() && before[p] == name;
                assert(all[p] == name);
            } else {
                assert(own[k] == name);
                assert(all[before.len() + k] == name);
            }
        }
    }
}

/// A name stands among the names of the windows exactly if some usage has a window of that name.
pub proof fn law_window_is_named(usages: Seq<UsageView>, name: Seq<char>)
    ensures
        window_names(usages).contains(name) <==> exists|i: int, k: int|
            0 <= i < usages.len() && 0 <= k < usages[i].windows.len() && (
            #[trigger] usages[i].windows[k]).0 == name,
{
    law_window_names(usages);
    lemma_name_is_among_all(usages, name);
}

/// Where each model is named once, the totals fit, however many requests there are.
pub proof fn law_single_counts_fit(counts: Seq<(Seq<char>, u64)>)
    requires
        forall|i: int, j: int|
            0 <= i < j < counts.len() ==> (#[trigger] counts[i]).0 != (#[trigger] counts[j]).0,
    ensures
        totals_fit(counts),
{
    assert forall|name: Seq<char>| #[trigger] total(counts, name) <= u64::MAX by {
        lemma_single_total(counts, name);
    }
}

proof fn lemma_single_total(counts: Seq<(Seq<char>, u64)>, name: Seq<char>)
    requires
        forall|i: int, j: int|
            0 <= i < j < counts.len() ==> (#[trigger] counts[i]).0 != (#[trigger] counts[j]).0,
    ensures
        total(counts, name) <= u64::MAX,
        !names_model(counts, name) ==> total(counts, name) == 0,
    decreases counts.len(),
{
    if counts.len() > 0 {
        let rest = counts.drop_last();
        lemma_single_total(rest, name);
        if names_model(rest, name) {
            let k = choose|k: int| 0 <= k < rest.len() && (#[trigger] rest[k]).0 == name;
            assert(counts[k].0 == name);
            assert(counts[k].0 != counts[counts.len() - 1].0);
        }
        if !names_model(counts, name) {
            assert(counts[counts.len() - 1].0 != name);
        }
    }
}

/// The totals fit exactly where none is larger than the largest number of 64 bits.
pub proof fn law_totals_fit(counts: Seq<(Seq<char>, u64)>, name: Seq<char>)
    ensures
        total(counts, name) > 0xffff_ffff_ffff_ffff ==> !totals_fit(counts),
        (forall|n: Seq<char>| #[trigger] total(counts, n) <= 0xffff_ffff_ffff_ffff) ==> totals_fit(
            counts,
        ),
{
}

} // verus!
