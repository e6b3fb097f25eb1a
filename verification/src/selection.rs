use vstd::prelude::*;
use crate::order::{
    lemma_slot_bounds, lemma_sort_contains, lemma_sort_is_sorted, lemma_sort_len,
    lemma_sort_of_sorted, lemma_strictly_sorted_unique, slot, sort_by_speed, sort_fastest_first,
    sorted_by_speed, strictly_sorted,
};
use crate::types::{source_views, SourceResult, SourceView};

verus! {

broadcast use vstd::seq_lib::group_seq_properties;

// ── Choosing the sources to keep ───────────────────────────────────

pub open spec fn has_host(s: Seq<SourceView>, h: Seq<char>) -> bool {
    exists|i: int| 0 <= i < s.len() && s[i].host == h
}

/// `x` is of type `mt` and on a host that `taken` does not hold yet.
pub open spec fn eligible(x: SourceView, mt: Seq<char>, taken: Seq<SourceView>) -> bool {
    x.match_type == mt && !has_host(taken, x.host)
}

/// The first source of `s` that is eligible.
pub open spec fn first_of_type(s: Seq<SourceView>, mt: Seq<char>, taken: Seq<SourceView>) -> Option<
    SourceView,
>
    decreases s.len(),
{
    if s.len() == 0 {
        None
    } else if eligible(s[0], mt, taken) {
        Some(s[0])
    } else {
        first_of_type(s.drop_first(), mt, taken)
    }
}

/// The source types of which one source is kept whatever `top_n` is, in
/// the order in which they are served.
pub open spec fn guaranteed_types() -> Seq<Seq<char>> {
    seq!["txiptv"@, "hsmdtv"@, "zhgxtv"@, "jsmpeg"@]
}

/// For each type in turn, the first eligible source of `s`.
pub open spec fn pick_types(s: Seq<SourceView>, types: Seq<Seq<char>>) -> Seq<SourceView>
    decreases types.len(),
{
    if types.len() == 0 {
        Seq::<SourceView>::empty()
    } else {
        let prev = pick_types(s, types.drop_last());
        match first_of_type(s, types.last(), prev) {
            Some(x) => prev.push(x),
            None => prev,
        }
    }
}

/// `acc`, followed by the sources of `s` on hosts not yet held, in order,
/// until `n` sources are held.
pub open spec fn fill_hosts(s: Seq<SourceView>, acc: Seq<SourceView>, n: nat) -> Seq<SourceView>
    decreases s.len(),
{
    if s.len() == 0 || acc.len() >= n {
        acc
    } else if has_host(acc, s[0].host) {
        fill_hosts(s.drop_first(), acc, n)
    } else {
        fill_hosts(s.drop_first(), acc.push(s[0]), n)
    }
}

/// The sources kept out of `results`: the fastest of each guaranteed type,
/// then the fastest of the rest up to `top_n`, one per host, fastest first.
pub open spec fn select_top(results: Seq<SourceView>, top_n: nat) -> Seq<SourceView> {
    let sorted = sort_by_speed(results);
    sort_by_speed(fill_hosts(sorted, pick_types(sorted, guaranteed_types()), top_n))
}

fn contains_host(chosen: &Vec<SourceResult>, h: &String) -> (r: bool)
    ensures
        r == has_host(source_views(chosen@), h@),
{
    let mut i: usize = 0;
    while i < chosen.len()
        invariant
            i <= chosen.len(),
            forall|k: int| 0 <= k < i ==> chosen@[k].host@ != h@,
        decreases chosen.len() - i,
    {
        if chosen[i].host == *h {
            assert(source_views(chosen@)[i as int].host == h@);
            return true;
        }
        i += 1;
    }
    assert forall|k: int| 0 <= k < chosen.len() implies source_views(chosen@)[k].host != h@ by {
        assert(source_views(chosen@)[k] == chosen@[k]@);
    }
    false
}

proof fn lemma_first_of_type_at(s: Seq<SourceView>, mt: Seq<char>, taken: Seq<SourceView>, j: int)
    requires
        0 <= j <= s.len(),
        forall|k: int| 0 <= k < j ==> !eligible(s[k], mt, taken),
        j < s.len() ==> eligible(s[j], mt, taken),
    ensures
        first_of_type(s, mt, taken) == if j < s.len() {
            Some(s[j])
        } else {
            None
        },
    decreases j,
{
    if j > 0 {
        lemma_first_of_type_at(s.drop_first(), mt, taken, j - 1);
    }
}

fn first_of_type_index(s: &Vec<SourceResult>, mt: &String, chosen: &Vec<SourceResult>) -> (r:
    Option<usize>)
    ensures
        match r {
            Some(j) => j < s.len() && first_of_type(source_views(s@), mt@, source_views(chosen@))
                == Some(s@[j as int]@),
            None => first_of_type(source_views(s@), mt@, source_views(chosen@)) is None,
        },
{
    let ghost sv = source_views(s@);
    let ghost taken = source_views(chosen@);
    let mut j: usize = 0;
    while j < s.len()
        invariant
            j <= s.len(),
            sv == source_views(s@),
            taken == source_views(chosen@),
            forall|k: int| 0 <= k < j ==> !eligible(sv[k], mt@, taken),
        decreases s.len() - j,
    {
        if s[j].match_type == *mt && !contains_host(chosen, &s[j].host) {
            proof {
                lemma_first_of_type_at(sv, mt@, taken, j as int);
            }
            return Some(j);
        }
        j += 1;
    }
    proof {
        lemma_first_of_type_at(sv, mt@, taken, j as int);
    }
    None
}

/// Keeps the fastest source of each type (txiptv, hsmdtv, zhgxtv, jsmpeg),
/// then fills up to `top_n` sources with the fastest of the rest, at most
/// one per host, and returns them fastest first.
pub fn select_top_sources(results: Vec<SourceResult>, top_n: usize) -> (r: Vec<SourceResult>)
    ensures
        source_views(r@) == select_top(source_views(results@), top_n as nat),
{
    let sorted = sort_fastest_first(results);
    let ghost sv = source_views(sorted@);
    let types: Vec<String> = vec![
        String::from_str("txiptv"),
        String::from_str("hsmdtv"),
        String::from_str("zhgxtv"),
        String::from_str("jsmpeg"),
    ];
    let ghost tv = types@.map_values(|t: String| t@);
    assert(tv =~= guaranteed_types());
    let mut chosen: Vec<SourceResult> = Vec::new();
    let mut t: usize = 0;
    assert(tv.take(0) =~= Seq::<Seq<char>>::empty());
    while t < types.len()
        invariant
            t <= types.len() == 4,
            sv == source_views(sorted@),
            tv == types@.map_values(|t: String| t@),
            source_views(chosen@) == pick_types(sv, tv.take(t as int)),
        decreases types.len() - t,
    {
        let ghost prev = source_views(chosen@);
        assert(tv.take(t + 1).drop_last() =~= tv.take(t as int));
        assert(tv.take(t + 1).last() == types@[t as int]@);
        match first_of_type_index(&sorted, &types[t], &chosen) {
            Some(j) => {
                let x = sorted[j].duplicate();
                chosen.push(x);
                assert(source_views(chosen@) =~= prev.push(sv[j as int]));
            },
            None => {},
        }
        t += 1;
    }
    assert(tv.take(4) =~= tv);
    let ghost picked = source_views(chosen@);
    let mut k: usize = 0;
    assert(sv.skip(0) =~= sv);
    while k < sorted.len()
        invariant
            k <= sorted.len(),
            sv == source_views(sorted@),
            fill_hosts(sv, picked, top_n as nat) == fill_hosts(
                sv.skip(k as int),
                source_views(chosen@),
                top_n as nat,
            ),
        ensures
            k == sorted.len() || chosen.len() >= top_n,
            sv == source_views(sorted@),
            fill_hosts(sv, picked, top_n as nat) == fill_hosts(
                sv.skip(k as int),
                source_views(chosen@),
                top_n as nat,
            ),
        decreases sorted.len() - k,
    {
        if chosen.len() >= top_n {
            break;
        }
        assert(sv.skip(k as int).drop_first() =~= sv.skip(k + 1));
        assert(sv.skip(k as int)[0] == sorted@[k as int]@);
        if !contains_host(&chosen, &sorted[k].host) {
            let ghost prev = source_views(chosen@);
            let x = sorted[k].duplicate();
            chosen.push(x);
            assert(source_views(chosen@) =~= prev.push(sv[k as int]));
        }
        k += 1;
    }
    assert(fill_hosts(sv.skip(k as int), source_views(chosen@), top_n as nat) == source_views(
        chosen@,
    ));
    sort_fastest_first(chosen)
}

// ── Laws of the selection ──────────────────────────────────────────

/// No two sources of `s` are on the same host.
pub open spec fn distinct_hosts(s: Seq<SourceView>) -> bool {
    forall|i: int, j: int| 0 <= i < j < s.len() ==> s[i].host != s[j].host
}

/// Some source of `out` has the type of `y`, or is on the host of `y`.
pub open spec fn covers(out: Seq<SourceView>, y: SourceView) -> bool {
    exists|k: int|
        0 <= k < out.len() && (out[k].match_type == y.match_type || out[k].host == y.host)
}

proof fn lemma_covers_grow(a: Seq<SourceView>, b: Seq<SourceView>, y: SourceView)
    requires
        covers(a, y),
        forall|x: SourceView| a.contains(x) ==> b.contains(x),
    ensures
        covers(b, y),
{
    let k = choose|k: int|
        0 <= k < a.len() && (a[k].match_type == y.match_type || a[k].host == y.host);
    assert(a.contains(a[k]));
    let m = choose|m: int| 0 <= m < b.len() && b[m] == a[k];
    assert(0 <= m < b.len() && (b[m].match_type == y.match_type || b[m].host == y.host));
}

proof fn lemma_has_host_grow(a: Seq<SourceView>, b: Seq<SourceView>, h: Seq<char>)
    requires
        has_host(a, h),
        forall|x: SourceView| a.contains(x) ==> b.contains(x),
    ensures
        has_host(b, h),
{
    let k = choose|k: int| 0 <= k < a.len() && a[k].host == h;
    assert(a.contains(a[k]));
    let m = choose|m: int| 0 <= m < b.len() && b[m] == a[k];
    assert(0 <= m < b.len() && b[m].host == h);
}

/// Ordering by speed keeps sources on distinct hosts apart.
pub proof fn lemma_sort_distinct_hosts(s: Seq<SourceView>)
    requires
        distinct_hosts(s),
    ensures
        distinct_hosts(sort_by_speed(s)),
    decreases s.len(),
{
    if s.len() > 0 {
        let x = s.last();
        let d = s.drop_last();
        let r = sort_by_speed(d);
        lemma_sort_distinct_hosts(d);
        lemma_slot_bounds(r, x.speed);
        lemma_sort_len(d);
        assert forall|k: int| 0 <= k < r.len() implies r[k].host != x.host by {
            assert(r.contains(r[k]));
            lemma_sort_contains(d, r[k]);
            let m = choose|m: int| 0 <= m < d.len() && d[m] == r[k];
            assert(s[m] == d[m]);
        }
        let p = slot(r, x.speed);
        let out = r.insert(p, x);
        assert forall|i: int, j: int| 0 <= i < j < out.len() implies out[i].host
            != out[j].host by {
            if j < p {
            } else if j == p {
                assert(out[i] == r[i]);
            } else if i < p {
                assert(out[j] == r[j - 1]);
            } else if i == p {
                assert(out[j] == r[j - 1]);
            } else {
                assert(out[j] == r[j - 1]);
                assert(out[i] == r[i - 1]);
            }
        }
    }
}

proof fn lemma_first_of_type_found(s: Seq<SourceView>, mt: Seq<char>, taken: Seq<SourceView>)
    ensures
        first_of_type(s, mt, taken) matches Some(x) ==> s.contains(x) && eligible(x, mt, taken),
        (exists|i: int| 0 <= i < s.len() && eligible(s[i], mt, taken)) ==> first_of_type(
            s,
            mt,
            taken,
        ) is Some,
    decreases s.len(),
{
    if s.len() > 0 {
        lemma_first_of_type_found(s.drop_first(), mt, taken);
        if let Some(x) = first_of_type(s, mt, taken) {
            if !eligible(s[0], mt, taken) {
                let m = choose|m: int| 0 <= m < s.drop_first().len() && s.drop_first()[m] == x;
                assert(s[m + 1] == x);
            }
        }
        if exists|i: int| 0 <= i < s.len() && eligible(s[i], mt, taken) {
            let i = choose|i: int| 0 <= i < s.len() && eligible(s[i], mt, taken);
            if i > 0 && !eligible(s[0], mt, taken) {
                assert(eligible(s.drop_first()[i - 1], mt, taken));
            }
        }
    }
}

proof fn lemma_pick_types(s: Seq<SourceView>, types: Seq<Seq<char>>)
    ensures
        pick_types(s, types).len() <= types.len(),
        forall|x: SourceView| pick_types(s, types).contains(x) ==> s.contains(x),
        distinct_hosts(pick_types(s, types)),
        forall|i: int, y: SourceView|
            0 <= i < types.len() && s.contains(y) && y.match_type == types[i] ==> covers(
                pick_types(s, types),
                y,
            ),
    decreases types.len(),
{
    if types.len() > 0 {
        let prev = pick_types(s, types.drop_last());
        let t = types.last();
        lemma_pick_types(s, types.drop_last());
        lemma_first_of_type_found(s, t, prev);
        let out = pick_types(s, types);
        assert forall|x: SourceView| prev.contains(x) implies out.contains(x) by {
            let m = choose|m: int| 0 <= m < prev.len() && prev[m] == x;
            assert(out[m] == x);
        }
        if let Some(z) = first_of_type(s, t, prev) {
            assert forall|x: SourceView| out.contains(x) implies s.contains(x) by {
                let m = choose|m: int| 0 <= m < out.len() && out[m] == x;
                if m < prev.len() {
                    assert(prev.contains(x));
                }
            }
            assert forall|i: int, j: int| 0 <= i < j < out.len() implies out[i].host
                != out[j].host by {
                if j == prev.len() {
                    assert(!has_host(prev, z.host));
                    assert(out[i] == prev[i]);
                }
            }
            assert(out.contains(z));
        }
        assert forall|i: int, y: SourceView|
            0 <= i < types.len() && s.contains(y) && y.match_type == types[i] implies covers(
            out,
            y,
        ) by {
            if i < types.len() - 1 {
                assert(types.drop_last()[i] == types[i]);
                lemma_covers_grow(prev, out, y);
            } else if has_host(prev, y.host) {
                let k = choose|k: int| 0 <= k < prev.len() && prev[k].host == y.host;
                assert(covers(prev, y));
                lemma_covers_grow(prev, out, y);
            } else {
                let m = choose|m: int| 0 <= m < s.len() && s[m] == y;
                assert(eligible(s[m], t, prev));
                let z = first_of_type(s, t, prev)->0;
                assert(out[prev.len() as int] == z);
                assert(covers(out, y));
            }
        }
    }
}

proof fn lemma_fill_hosts(s: Seq<SourceView>, acc: Seq<SourceView>, n: nat)
    ensures
        ({
            let f = fill_hosts(s, acc, n);
            &&& acc.len() <= f.len()
            &&& f.take(acc.len() as int) == acc
            &&& forall|k: int| acc.len() <= k < f.len() ==> s.contains(#[trigger] f[k])
            &&& distinct_hosts(acc) ==> distinct_hosts(f)
            &&& f.len() <= if acc.len() >= n {
                acc.len() as int
            } else {
                n as int
            }
            &&& f.len() < n ==> forall|y: SourceView| s.contains(y) ==> has_host(f, y.host)
        }),
    decreases s.len(),
{
    let f = fill_hosts(s, acc, n);
    if s.len() == 0 || acc.len() >= n {
        assert(acc.take(acc.len() as int) =~= acc);
    } else {
        let t = s.drop_first();
        let acc2 = if has_host(acc, s[0].host) {
            acc
        } else {
            acc.push(s[0])
        };
        lemma_fill_hosts(t, acc2, n);
        assert(f == fill_hosts(t, acc2, n));
        assert(f.take(acc.len() as int) =~= acc) by {
            assert(f.take(acc2.len() as int) == acc2);
            assert forall|k: int| 0 <= k < acc.len() implies f[k] == acc[k] by {
                assert(f.take(acc2.len() as int)[k] == acc2[k]);
            }
        }
        assert forall|k: int| acc.len() <= k < f.len() implies s.contains(#[trigger] f[k]) by {
            if k < acc2.len() {
                assert(f.take(acc2.len() as int)[k] == acc2[k]);
                assert(f[k] == s[0]);
            } else {
                assert(t.contains(f[k]));
                let m = choose|m: int| 0 <= m < t.len() && t[m] == f[k];
                assert(s[m + 1] == f[k]);
            }
        }
        if distinct_hosts(acc) {
            assert(distinct_hosts(acc2));
        }
        if f.len() < n {
            assert forall|y: SourceView| s.contains(y) implies has_host(f, y.host) by {
                let m = choose|m: int| 0 <= m < s.len() && s[m] == y;
                if m > 0 {
                    assert(t[m - 1] == y);
                    assert(t.contains(y));
                } else if has_host(acc, s[0].host) {
                    let k = choose|k: int| 0 <= k < acc.len() && acc[k].host == s[0].host;
                    assert(f.take(acc.len() as int)[k] == acc[k]);
                    assert(f[k].host == y.host);
                } else {
                    assert(f.take(acc2.len() as int)[acc.len() as int] == acc2[acc.len() as int]);
                    assert(f[acc.len() as int].host == y.host);
                }
            }
        }
    }
}

/// The kept sources come fastest first.
pub proof fn law_selection_is_sorted(results: Seq<SourceView>, top_n: nat)
    ensures
        sorted_by_speed(select_top(results, top_n)),
{
    let sorted = sort_by_speed(results);
    lemma_sort_is_sorted(fill_hosts(sorted, pick_types(sorted, guaranteed_types()), top_n));
}

proof fn lemma_selection_parts(results: Seq<SourceView>, top_n: nat)
    ensures
        ({
            let sorted = sort_by_speed(results);
            let f = fill_hosts(sorted, pick_types(sorted, guaranteed_types()), top_n);
            &&& forall|x: SourceView| f.contains(x) ==> results.contains(x)
            &&& forall|x: SourceView| select_top(results, top_n).contains(x) <==> f.contains(x)
            &&& forall|x: SourceView| pick_types(sorted, guaranteed_types()).contains(x)
                ==> f.contains(x)
            &&& distinct_hosts(f)
            &&& select_top(results, top_n).len() == f.len()
        }),
{
    let sorted = sort_by_speed(results);
    let p = pick_types(sorted, guaranteed_types());
    let f = fill_hosts(sorted, p, top_n);
    lemma_pick_types(sorted, guaranteed_types());
    lemma_fill_hosts(sorted, p, top_n);
    lemma_sort_len(f);
    assert forall|x: SourceView| f.contains(x) implies results.contains(x) by {
        let k = choose|k: int| 0 <= k < f.len() && f[k] == x;
        if k < p.len() {
            assert(f.take(p.len() as int)[k] == p[k]);
            assert(p.contains(x));
        } else {
            assert(sorted.contains(f[k]));
        }
        lemma_sort_contains(results, x);
    }
    assert forall|x: SourceView| select_top(results, top_n).contains(x) <==> f.contains(x) by {
        lemma_sort_contains(f, x);
    }
    assert forall|x: SourceView| p.contains(x) implies f.contains(x) by {
        let k = choose|k: int| 0 <= k < p.len() && p[k] == x;
        assert(f.take(p.len() as int)[k] == p[k]);
        assert(f[k] == x);
    }
}

/// Every kept source is one of the sources given.
pub proof fn law_selection_keeps_given_sources(results: Seq<SourceView>, top_n: nat)
    ensures
        forall|x: SourceView| select_top(results, top_n).contains(x) ==> results.contains(x),
{
    lemma_selection_parts(results, top_n);
}

/// No two kept sources are on the same host.
pub proof fn law_selection_one_per_host(results: Seq<SourceView>, top_n: nat)
    ensures
        distinct_hosts(select_top(results, top_n)),
{
    let sorted = sort_by_speed(results);
    lemma_selection_parts(results, top_n);
    lemma_sort_distinct_hosts(fill_hosts(sorted, pick_types(sorted, guaranteed_types()), top_n));
}

/// Each guaranteed type is served: for every given source of such a type,
/// some kept source has that type or is on that source's host.
pub proof fn law_selection_serves_each_type(results: Seq<SourceView>, top_n: nat)
    ensures
        forall|y: SourceView|
            results.contains(y) && guaranteed_types().contains(y.match_type) ==> covers(
                select_top(results, top_n),
                y,
            ),
{
    let sorted = sort_by_speed(results);
    let p = pick_types(sorted, guaranteed_types());
    let f = fill_hosts(sorted, p, top_n);
    lemma_selection_parts(results, top_n);
    lemma_pick_types(sorted, guaranteed_types());
    assert forall|y: SourceView|
        results.contains(y) && guaranteed_types().contains(y.match_type) implies covers(
        select_top(results, top_n),
        y,
    ) by {
        lemma_sort_contains(results, y);
        let i = choose|i: int|
            0 <= i < guaranteed_types().len() && guaranteed_types()[i] == y.match_type;
        assert(covers(p, y));
        lemma_covers_grow(p, f, y);
        lemma_covers_grow(f, select_top(results, top_n), y);
    }
}

/// At most `top_n` sources are kept, or four if `top_n` is smaller; and
/// fewer than `top_n` only when every host of the input is already kept.
pub proof fn law_selection_size(results: Seq<SourceView>, top_n: nat)
    ensures
        select_top(results, top_n).len() <= if top_n >= 4 {
            top_n as int
        } else {
            4
        },
        select_top(results, top_n).len() < top_n ==> forall|y: SourceView|
            results.contains(y) ==> has_host(select_top(results, top_n), y.host),
{
    let sorted = sort_by_speed(results);
    let p = pick_types(sorted, guaranteed_types());
    let f = fill_hosts(sorted, p, top_n);
    lemma_selection_parts(results, top_n);
    lemma_pick_types(sorted, guaranteed_types());
    lemma_fill_hosts(sorted, p, top_n);
    if f.len() < top_n {
        assert forall|y: SourceView| results.contains(y) implies has_host(
            select_top(results, top_n),
            y.host,
        ) by {
            lemma_sort_contains(results, y);
            lemma_has_host_grow(f, select_top(results, top_n), y.host);
        }
    }
}

// ── Selecting twice ────────────────────────────────────────────────

/// No two sources of `s` share a speed.
pub open spec fn distinct_speeds(s: Seq<SourceView>) -> bool {
    forall|i: int, j: int| 0 <= i < j < s.len() ==> s[i].speed != s[j].speed
}

/// Each source of `s` is told apart from the others by its speed.
spec fn speed_identifies(s: Seq<SourceView>) -> bool {
    forall|x: SourceView, y: SourceView|
        s.contains(x) && s.contains(y) && x.speed == y.speed ==> x == y
}

proof fn lemma_speed_identifies(s: Seq<SourceView>)
    requires
        distinct_speeds(s),
    ensures
        speed_identifies(s),
{
    assert forall|x: SourceView, y: SourceView|
        s.contains(x) && s.contains(y) && x.speed == y.speed implies x == y by {
        let i = choose|i: int| 0 <= i < s.len() && s[i] == x;
        let j = choose|j: int| 0 <= j < s.len() && s[j] == y;
        if i < j {
        } else if j < i {
        }
    }
}

proof fn lemma_strictly_sorted(s: Seq<SourceView>, u: Seq<SourceView>)
    requires
        sorted_by_speed(s),
        distinct_hosts(s),
        speed_identifies(u),
        forall|x: SourceView| s.contains(x) ==> u.contains(x),
    ensures
        strictly_sorted(s),
{
    assert forall|i: int, j: int| 0 <= i < j < s.len() implies s[i].speed > s[j].speed by {
        assert(s.contains(s[i]) && s.contains(s[j]));
    }
}

/// In a sequence ordered fastest first, no eligible source is faster than
/// the first eligible one.
proof fn lemma_first_of_type_fastest(s: Seq<SourceView>, mt: Seq<char>, taken: Seq<SourceView>)
    requires
        sorted_by_speed(s),
    ensures
        first_of_type(s, mt, taken) matches Some(z) ==> forall|w: SourceView|
            s.contains(w) && eligible(w, mt, taken) ==> w.speed <= z.speed,
    decreases s.len(),
{
    if s.len() > 0 {
        let t = s.drop_first();
        assert forall|i: int, j: int| 0 <= i < j < t.len() implies t[i].speed >= t[j].speed by {
            assert(t[i] == s[i + 1] && t[j] == s[j + 1]);
        }
        lemma_first_of_type_fastest(t, mt, taken);
        if let Some(z) = first_of_type(s, mt, taken) {
            assert forall|w: SourceView| s.contains(w) && eligible(w, mt, taken) implies w.speed
                <= z.speed by {
                let m = choose|m: int| 0 <= m < s.len() && s[m] == w;
                if !eligible(s[0], mt, taken) {
                    assert(t[m - 1] == w);
                    assert(t.contains(w));
                } else if m > 0 {
                    assert(s[0].speed >= s[m].speed);
                }
            }
        }
    }
}

/// Looking in a part `t` of `s` that holds the source found in `s` finds
/// the same source.
proof fn lemma_first_of_type_within(
    s: Seq<SourceView>,
    t: Seq<SourceView>,
    mt: Seq<char>,
    taken: Seq<SourceView>,
)
    requires
        sorted_by_speed(s),
        sorted_by_speed(t),
        speed_identifies(s),
        forall|x: SourceView| t.contains(x) ==> s.contains(x),
        first_of_type(s, mt, taken) matches Some(z) ==> t.contains(z),
    ensures
        first_of_type(t, mt, taken) == first_of_type(s, mt, taken),
{
    lemma_first_of_type_found(s, mt, taken);
    lemma_first_of_type_found(t, mt, taken);
    lemma_first_of_type_fastest(s, mt, taken);
    lemma_first_of_type_fastest(t, mt, taken);
    match first_of_type(s, mt, taken) {
        Some(z) => {
            let k = choose|k: int| 0 <= k < t.len() && t[k] == z;
            assert(eligible(t[k], mt, taken));
            let w = first_of_type(t, mt, taken)->0;
            assert(s.contains(w));
            assert(w.speed <= z.speed);
            assert(z.speed <= w.speed);
        },
        None => {
            if let Some(w) = first_of_type(t, mt, taken) {
                assert(s.contains(w));
                let k = choose|k: int| 0 <= k < s.len() && s[k] == w;
                assert(eligible(s[k], mt, taken));
            }
        },
    }
}

/// Picking the guaranteed types from a part `t` of `s` that holds the
/// picks made from `s` makes the same picks.
proof fn lemma_pick_types_within(s: Seq<SourceView>, t: Seq<SourceView>, types: Seq<Seq<char>>)
    requires
        sorted_by_speed(s),
        sorted_by_speed(t),
        speed_identifies(s),
        forall|x: SourceView| t.contains(x) ==> s.contains(x),
        forall|x: SourceView| pick_types(s, types).contains(x) ==> t.contains(x),
    ensures
        pick_types(t, types) == pick_types(s, types),
    decreases types.len(),
{
    if types.len() > 0 {
        let prev = pick_types(s, types.drop_last());
        let out = pick_types(s, types);
        assert forall|x: SourceView| prev.contains(x) implies t.contains(x) by {
            let m = choose|m: int| 0 <= m < prev.len() && prev[m] == x;
            assert(out[m] == x);
            assert(out.contains(x));
        }
        lemma_pick_types_within(s, t, types.drop_last());
        if let Some(z) = first_of_type(s, types.last(), prev) {
            assert(out[prev.len() as int] == z);
            assert(out.contains(z));
        }
        lemma_first_of_type_within(s, t, types.last(), prev);
    }
}

/// Sources on distinct hosts are distinct sources.
proof fn lemma_distinct_hosts_no_duplicates(s: Seq<SourceView>)
    requires
        distinct_hosts(s),
    ensures
        s.no_duplicates(),
{
    assert forall|i: int, j: int| 0 <= i < s.len() && 0 <= j < s.len() && i != j implies s[i]
        != s[j] by {
        if i < j {
            assert(s[i].host != s[j].host);
        } else {
            assert(s[j].host != s[i].host);
        }
    }
}

/// A sequence of sources on distinct hosts that lies within another of no
/// greater length holds all of its sources.
proof fn lemma_within_fills(a: Seq<SourceView>, b: Seq<SourceView>)
    requires
        distinct_hosts(a),
        distinct_hosts(b),
        forall|x: SourceView| a.contains(x) ==> b.contains(x),
        b.len() <= a.len(),
    ensures
        forall|x: SourceView| b.contains(x) ==> a.contains(x),
{
    broadcast use vstd::seq_lib::seq_to_set_is_finite;

    lemma_distinct_hosts_no_duplicates(a);
    lemma_distinct_hosts_no_duplicates(b);
    a.unique_seq_to_set();
    b.unique_seq_to_set();
    assert(a.to_set().subset_of(b.to_set()));
    vstd::set_lib::lemma_len_subset(a.to_set(), b.to_set());
    vstd::set_lib::lemma_subset_equality(a.to_set(), b.to_set());
    assert forall|x: SourceView| b.contains(x) implies a.contains(x) by {
        assert(b.to_set().contains(x));
    }
}

/// Selecting again from the kept sources gives them back unchanged, when
/// no two given sources share a speed.
pub proof fn law_selection_is_idempotent(results: Seq<SourceView>, top_n: nat)
    requires
        distinct_speeds(results),
    ensures
        select_top(select_top(results, top_n), top_n) == select_top(results, top_n),
{
    let g = guaranteed_types();
    let sorted = sort_by_speed(results);
    let p = pick_types(sorted, g);
    let f = fill_hosts(sorted, p, top_n);
    let out = select_top(results, top_n);
    lemma_speed_identifies(results);
    lemma_selection_parts(results, top_n);
    lemma_pick_types(sorted, g);
    lemma_fill_hosts(sorted, p, top_n);
    lemma_sort_is_sorted(results);
    law_selection_is_sorted(results, top_n);
    law_selection_one_per_host(results, top_n);
    lemma_sort_of_sorted(out);
    assert forall|x: SourceView| sorted.contains(x) <==> results.contains(x) by {
        lemma_sort_contains(results, x);
    }
    assert(speed_identifies(sorted));
    assert forall|x: SourceView| p.contains(x) implies out.contains(x) by {
        assert(f.contains(x));
    }
    lemma_pick_types_within(sorted, out, g);
    let f2 = fill_hosts(out, p, top_n);
    assert(select_top(out, top_n) == sort_by_speed(f2));
    lemma_fill_hosts(out, p, top_n);
    assert forall|x: SourceView| f2.contains(x) implies f.contains(x) by {
        let k = choose|k: int| 0 <= k < f2.len() && f2[k] == x;
        if k < p.len() {
            assert(f2.take(p.len() as int)[k] == p[k]);
            assert(p.contains(x));
        } else {
            assert(out.contains(f2[k]));
        }
    }
    assert forall|x: SourceView| f.contains(x) implies f2.contains(x) by {
        if p.len() >= top_n {
            assert(f == p);
            assert(f2 == p);
        } else if f2.len() < top_n {
            assert(out.contains(x));
            let k = choose|k: int| 0 <= k < f2.len() && f2[k].host == x.host;
            assert(f2.contains(f2[k]));
            assert(f.contains(f2[k]));
            let i = choose|i: int| 0 <= i < f.len() && f[i] == x;
            let j = choose|j: int| 0 <= j < f.len() && f[j] == f2[k];
            if i < j {
            } else if j < i {
            }
            assert(f2[k] == x);
        } else {
            lemma_within_fills(f2, f);
        }
    }
    lemma_sort_is_sorted(f);
    lemma_sort_is_sorted(f2);
    lemma_sort_distinct_hosts(f2);
    assert forall|x: SourceView| sort_by_speed(f2).contains(x) <==> f2.contains(x) by {
        lemma_sort_contains(f2, x);
    }
    lemma_strictly_sorted(out, results);
    lemma_strictly_sorted(sort_by_speed(f2), results);
    assert forall|x: SourceView| sort_by_speed(f2).contains(x) <==> out.contains(x) by {
        if out.contains(x) {
            assert(f.contains(x));
        }
        if f2.contains(x) {
            assert(f.contains(x));
        }
    }
    lemma_strictly_sorted_unique(sort_by_speed(f2), out);
}

// ── Sources on distinct hosts ──────────────────────────────────────

/// Whether some source of `results` has the type `t`.
pub open spec fn type_present(results: Seq<SourceView>) -> spec_fn(Seq<char>) -> bool {
    |t: Seq<char>| exists|i: int| 0 <= i < results.len() && results[i].match_type == t
}

/// How many of the guaranteed types some source of `results` has.
pub open spec fn types_present(results: Seq<SourceView>) -> nat {
    guaranteed_types().filter(type_present(results)).len()
}

/// In `s`, whose sources are on distinct hosts, a source that `acc` (a
/// part of `s`) does not hold is on a host that `acc` does not hold.
proof fn lemma_host_free(s: Seq<SourceView>, acc: Seq<SourceView>, y: SourceView)
    requires
        distinct_hosts(s),
        forall|x: SourceView| acc.contains(x) ==> s.contains(x),
        s.contains(y),
        !acc.contains(y),
    ensures
        !has_host(acc, y.host),
{
    if has_host(acc, y.host) {
        let k = choose|k: int| 0 <= k < acc.len() && acc[k].host == y.host;
        assert(acc.contains(acc[k]));
        let a = choose|a: int| 0 <= a < s.len() && s[a] == acc[k];
        let b = choose|b: int| 0 <= b < s.len() && s[b] == y;
        if a < b {
        } else if b < a {
        }
    }
}

proof fn lemma_pick_types_typed(s: Seq<SourceView>, types: Seq<Seq<char>>)
    ensures
        forall|x: SourceView| pick_types(s, types).contains(x) ==> types.contains(x.match_type),
    decreases types.len(),
{
    if types.len() > 0 {
        let prev = pick_types(s, types.drop_last());
        lemma_pick_types_typed(s, types.drop_last());
        lemma_first_of_type_found(s, types.last(), prev);
        let out = pick_types(s, types);
        assert forall|x: SourceView| out.contains(x) implies types.contains(x.match_type) by {
            let m = choose|m: int| 0 <= m < out.len() && out[m] == x;
            if m < prev.len() {
                assert(prev.contains(x));
                let i = choose|i: int|
                    0 <= i < types.drop_last().len() && types.drop_last()[i] == x.match_type;
                assert(types[i] == x.match_type);
            } else {
                assert(types[types.len() - 1] == x.match_type);
            }
        }
    }
}

/// With sources on distinct hosts and no type listed twice, one source is
/// picked for each listed type that some source has.
proof fn lemma_pick_types_count(s: Seq<SourceView>, types: Seq<Seq<char>>)
    requires
        distinct_hosts(s),
        types.no_duplicates(),
    ensures
        pick_types(s, types).len() == types.filter(type_present(s)).len(),
    decreases types.len(),
{
    if types.len() > 0 {
        let d = types.drop_last();
        let t = types.last();
        let prev = pick_types(s, d);
        assert(d.no_duplicates());
        lemma_pick_types_count(s, d);
        lemma_pick_types(s, d);
        lemma_pick_types_typed(s, d);
        lemma_first_of_type_found(s, t, prev);
        assert(types.filter(type_present(s)) == if type_present(s)(t) {
            d.filter(type_present(s)).push(t)
        } else {
            d.filter(type_present(s))
        }) by {
            assert(d.push(t) =~= types);
            d.lemma_filter_push(t, type_present(s));
        }
        if type_present(s)(t) {
            let i = choose|i: int| 0 <= i < s.len() && s[i].match_type == t;
            let y = s[i];
            if prev.contains(y) {
                let j = choose|j: int| 0 <= j < d.len() && d[j] == y.match_type;
                assert(types[j] == types[types.len() - 1]);
            }
            lemma_host_free(s, prev, y);
            assert(eligible(s[i], t, prev));
        } else if let Some(z) = first_of_type(s, t, prev) {
            let m = choose|m: int| 0 <= m < s.len() && s[m] == z;
            assert(s[m].match_type == t);
        }
    }
}

/// With sources on distinct hosts, for each listed type, some source
/// picked has that type and is no slower than any source of that type.
proof fn lemma_pick_types_fastest(s: Seq<SourceView>, types: Seq<Seq<char>>)
    requires
        sorted_by_speed(s),
        distinct_hosts(s),
    ensures
        forall|i: int, y: SourceView|
            0 <= i < types.len() && s.contains(y) && y.match_type == types[i] ==> exists|k: int|
                0 <= k < pick_types(s, types).len() && pick_types(s, types)[k].match_type
                    == y.match_type && pick_types(s, types)[k].speed >= y.speed,
    decreases types.len(),
{
    if types.len() > 0 {
        let d = types.drop_last();
        let t = types.last();
        let prev = pick_types(s, d);
        let out = pick_types(s, types);
        lemma_pick_types_fastest(s, d);
        lemma_pick_types(s, d);
        lemma_first_of_type_found(s, t, prev);
        lemma_first_of_type_fastest(s, t, prev);
        assert forall|i: int, y: SourceView|
            0 <= i < types.len() && s.contains(y) && y.match_type == types[i] implies exists|k: int|
            0 <= k < out.len() && out[k].match_type == y.match_type && out[k].speed
                >= y.speed by {
            if i < types.len() - 1 {
                assert(d[i] == types[i]);
                let k = choose|k: int|
                    0 <= k < prev.len() && prev[k].match_type == y.match_type && prev[k].speed
                        >= y.speed;
                assert(out[k] == prev[k]);
            } else if prev.contains(y) {
                let k = choose|k: int| 0 <= k < prev.len() && prev[k] == y;
                assert(out[k] == prev[k]);
            } else {
                lemma_host_free(s, prev, y);
                let m = choose|m: int| 0 <= m < s.len() && s[m] == y;
                assert(eligible(s[m], t, prev));
                let z = first_of_type(s, t, prev)->0;
                assert(out[prev.len() as int] == z);
            }
        }
    }
}

proof fn lemma_guaranteed_types_distinct()
    ensures
        guaranteed_types().no_duplicates(),
{
    reveal_strlit("txiptv");
    reveal_strlit("hsmdtv");
    reveal_strlit("zhgxtv");
    reveal_strlit("jsmpeg");
    let g = guaranteed_types();
    assert(g[0][0] == 't' && g[1][0] == 'h' && g[2][0] == 'z' && g[3][0] == 'j');
}

/// When the given sources are on distinct hosts, the fastest source of
/// each guaranteed type that some source has is kept: a kept source has
/// that type and is no slower than any given source of it.
pub proof fn law_selection_keeps_fastest_of_each_type(results: Seq<SourceView>, top_n: nat)
    requires
        distinct_hosts(results),
    ensures
        forall|y: SourceView|
            results.contains(y) && guaranteed_types().contains(y.match_type) ==> exists|k: int|
                0 <= k < select_top(results, top_n).len() && select_top(results, top_n)[k].match_type
                    == y.match_type && select_top(results, top_n)[k].speed >= y.speed,
{
    let g = guaranteed_types();
    let sorted = sort_by_speed(results);
    let p = pick_types(sorted, g);
    let out = select_top(results, top_n);
    lemma_selection_parts(results, top_n);
    lemma_sort_is_sorted(results);
    lemma_sort_distinct_hosts(results);
    lemma_pick_types_fastest(sorted, g);
    assert forall|y: SourceView| results.contains(y) && g.contains(y.match_type) implies exists|k: int|
        0 <= k < out.len() && out[k].match_type == y.match_type && out[k].speed >= y.speed by {
        lemma_sort_contains(results, y);
        let i = choose|i: int| 0 <= i < g.len() && g[i] == y.match_type;
        let k = choose|k: int|
            0 <= k < p.len() && p[k].match_type == y.match_type && p[k].speed >= y.speed;
        assert(p.contains(p[k]));
        assert(fill_hosts(sorted, p, top_n).contains(p[k]));
        assert(out.contains(p[k]));
        let m = choose|m: int| 0 <= m < out.len() && out[m] == p[k];
        assert(out[m].match_type == y.match_type && out[m].speed >= y.speed);
    }
}

/// When the given sources are on distinct hosts, the number kept is
/// exact: one for each guaranteed type that some source has, or, when
/// that is fewer, `top_n`, or all the sources when there are fewer still.
pub proof fn law_selection_size_exact(results: Seq<SourceView>, top_n: nat)
    requires
        distinct_hosts(results),
    ensures
        select_top(results, top_n).len() == if types_present(results) >= top_n {
            types_present(results) as int
        } else if top_n <= results.len() {
            top_n as int
        } else {
            results.len() as int
        },
{
    broadcast use vstd::seq_lib::seq_to_set_is_finite;

    let g = guaranteed_types();
    let sorted = sort_by_speed(results);
    let p = pick_types(sorted, g);
    let f = fill_hosts(sorted, p, top_n);
    lemma_selection_parts(results, top_n);
    lemma_sort_distinct_hosts(results);
    lemma_guaranteed_types_distinct();
    lemma_pick_types_count(sorted, g);
    lemma_pick_types(sorted, g);
    lemma_fill_hosts(sorted, p, top_n);
    assert forall|x: SourceView| sorted.contains(x) <==> results.contains(x) by {
        lemma_sort_contains(results, x);
    }
    assert(type_present(sorted) =~= type_present(results)) by {
        assert forall|t: Seq<char>| #[trigger] type_present(sorted)(t) == type_present(results)(t) by {
            if type_present(sorted)(t) {
                let i = choose|i: int| 0 <= i < sorted.len() && sorted[i].match_type == t;
                assert(sorted.contains(sorted[i]));
                let j = choose|j: int| 0 <= j < results.len() && results[j] == sorted[i];
            }
            if type_present(results)(t) {
                let i = choose|i: int| 0 <= i < results.len() && results[i].match_type == t;
                assert(results.contains(results[i]));
                let j = choose|j: int| 0 <= j < sorted.len() && sorted[j] == results[i];
            }
        }
    }
    assert(p.len() == types_present(results));
    lemma_distinct_hosts_no_duplicates(f);
    lemma_distinct_hosts_no_duplicates(results);
    f.unique_seq_to_set();
    results.unique_seq_to_set();
    assert(f.to_set().subset_of(results.to_set()));
    vstd::set_lib::lemma_len_subset(f.to_set(), results.to_set());
    if p.len() < top_n && f.len() < top_n {
        assert forall|y: SourceView| results.contains(y) implies f.contains(y) by {
            assert(sorted.contains(y));
            let k = choose|k: int| 0 <= k < f.len() && f[k].host == y.host;
            assert(f.contains(f[k]));
            let a = choose|a: int| 0 <= a < results.len() && results[a] == f[k];
            let b = choose|b: int| 0 <= b < results.len() && results[b] == y;
            if a < b {
            } else if b < a {
            }
        }
        assert(results.to_set().subset_of(f.to_set()));
        vstd::set_lib::lemma_len_subset(results.to_set(), f.to_set());
    }
}

// ── The fill keeps the fastest of the rest ─────────────────────────

/// What the fill adds to `acc`, walking `s` fastest first: no added source
/// is on a host `acc` holds; each is at least as fast as any source of `s`
/// on its own host, and as any source of `s` on a host the result does
/// not hold.
proof fn lemma_fill_hosts_fastest(s: Seq<SourceView>, acc: Seq<SourceView>, n: nat)
    requires
        sorted_by_speed(s),
    ensures
        ({
            let f = fill_hosts(s, acc, n);
            &&& forall|k: int| acc.len() <= k < f.len() ==> !has_host(acc, #[trigger] f[k].host)
            &&& forall|k: int, x: SourceView|
                #![trigger f[k], s.contains(x)]
                acc.len() <= k < f.len() && s.contains(x) && x.host == f[k].host ==> f[k].speed
                    >= x.speed
            &&& forall|k: int, x: SourceView|
                #![trigger f[k], s.contains(x)]
                acc.len() <= k < f.len() && s.contains(x) && !has_host(f, x.host) ==> f[k].speed
                    >= x.speed
        }),
    decreases s.len(),
{
    let f = fill_hosts(s, acc, n);
    lemma_fill_hosts(s, acc, n);
    if s.len() == 0 || acc.len() >= n {
    } else {
        let t = s.drop_first();
        assert forall|i: int, j: int| 0 <= i < j < t.len() implies t[i].speed >= t[j].speed by {
            assert(t[i] == s[i + 1] && t[j] == s[j + 1]);
        }
        let grow = !has_host(acc, s[0].host);
        let acc2 = if grow {
            acc.push(s[0])
        } else {
            acc
        };
        lemma_fill_hosts_fastest(t, acc2, n);
        lemma_fill_hosts(t, acc2, n);
        assert(f == fill_hosts(t, acc2, n));
        assert(f.take(acc2.len() as int) == acc2);
        assert forall|x: SourceView| s.contains(x) && x != s[0] implies t.contains(x) by {
            let m = choose|m: int| 0 <= m < s.len() && s[m] == x;
            assert(t[m - 1] == x);
        }
        assert forall|x: SourceView| s.contains(x) implies s[0].speed >= x.speed by {
            let m = choose|m: int| 0 <= m < s.len() && s[m] == x;
        }
        assert forall|k: int| acc.len() <= k < f.len() implies !has_host(acc, #[trigger] f[k].host) by {
            if grow && k == acc.len() {
                assert(f.take(acc2.len() as int)[k] == acc2[k]);
            } else if has_host(acc, f[k].host) {
                let q = choose|q: int| 0 <= q < acc.len() && acc[q].host == f[k].host;
                assert(acc2[q] == acc[q]);
                assert(has_host(acc2, f[k].host));
            }
        }
        assert forall|k: int, x: SourceView|
            #![trigger f[k], s.contains(x)]
            acc.len() <= k < f.len() && s.contains(x) && x.host == f[k].host implies f[k].speed
                >= x.speed by {
            if grow && k == acc.len() {
                assert(f.take(acc2.len() as int)[k] == acc2[k]);
            } else if x == s[0] {
                if grow {
                    assert(acc2[acc.len() as int] == s[0]);
                    assert(has_host(acc2, f[k].host));
                } else {
                    assert(has_host(acc, f[k].host));
                }
            } else {
                assert(t.contains(x));
            }
        }
        assert forall|k: int, x: SourceView|
            #![trigger f[k], s.contains(x)]
            acc.len() <= k < f.len() && s.contains(x) && !has_host(f, x.host) implies f[k].speed
                >= x.speed by {
            if grow && k == acc.len() {
                assert(f.take(acc2.len() as int)[k] == acc2[k]);
            } else if x == s[0] {
                if grow {
                    assert(f.take(acc2.len() as int)[acc.len() as int] == acc2[acc.len() as int]);
                    assert(has_host(f, x.host));
                } else {
                    let q = choose|q: int| 0 <= q < acc.len() && acc[q].host == s[0].host;
                    assert(f.take(acc.len() as int)[q] == acc[q]);
                    assert(has_host(f, x.host));
                }
            } else {
                assert(t.contains(x));
            }
        }
    }
}

/// The sources the fill keeps, beyond the per-type picks, are the fastest
/// of the rest: a given source on a host that no kept source holds is no
/// faster than any of them.
pub proof fn law_fill_keeps_fastest_of_the_rest(results: Seq<SourceView>, top_n: nat)
    ensures
        forall|x: SourceView, y: SourceView|
            results.contains(x) && !has_host(select_top(results, top_n), x.host)
                && #[trigger] select_top(results, top_n).contains(y) && !pick_types(
                sort_by_speed(results),
                guaranteed_types(),
            ).contains(y) ==> y.speed >= #[trigger] x.speed,
{
    law_fill_fastest_parts(results, top_n);
}

/// A source the fill keeps, beyond the per-type picks, is the fastest given
/// source on its host.
pub proof fn law_fill_keeps_fastest_of_its_host(results: Seq<SourceView>, top_n: nat)
    ensures
        forall|x: SourceView, y: SourceView|
            #[trigger] results.contains(x) && #[trigger] select_top(results, top_n).contains(y)
                && !pick_types(sort_by_speed(results), guaranteed_types()).contains(y) && x.host
                == y.host ==> y.speed >= x.speed,
{
    law_fill_fastest_parts(results, top_n);
}

proof fn law_fill_fastest_parts(results: Seq<SourceView>, top_n: nat)
    ensures
        forall|x: SourceView, y: SourceView|
            results.contains(x) && !has_host(select_top(results, top_n), x.host)
                && #[trigger] select_top(results, top_n).contains(y) && !pick_types(
                sort_by_speed(results),
                guaranteed_types(),
            ).contains(y) ==> y.speed >= #[trigger] x.speed,
        forall|x: SourceView, y: SourceView|
            #[trigger] results.contains(x) && #[trigger] select_top(results, top_n).contains(y)
                && !pick_types(sort_by_speed(results), guaranteed_types()).contains(y) && x.host
                == y.host ==> y.speed >= x.speed,
{
    let sorted = sort_by_speed(results);
    let p = pick_types(sorted, guaranteed_types());
    let f = fill_hosts(sorted, p, top_n);
    let out = select_top(results, top_n);
    lemma_selection_parts(results, top_n);
    lemma_sort_is_sorted(results);
    lemma_fill_hosts(sorted, p, top_n);
    lemma_fill_hosts_fastest(sorted, p, top_n);
    assert forall|y: SourceView| out.contains(y) && !p.contains(y) implies exists|k: int|
        p.len() <= k < f.len() && f[k] == y by {
        assert(f.contains(y));
        let k = choose|k: int| 0 <= k < f.len() && f[k] == y;
        if k < p.len() {
            assert(f.take(p.len() as int)[k] == p[k]);
            assert(p.contains(y));
        }
    }
    assert forall|x: SourceView, y: SourceView|
        results.contains(x) && !has_host(out, x.host) && #[trigger] out.contains(y) && !p.contains(y)
            implies y.speed >= #[trigger] x.speed by {
        lemma_sort_contains(results, x);
        let k = choose|k: int| p.len() <= k < f.len() && f[k] == y;
        if has_host(f, x.host) {
            lemma_has_host_grow(f, out, x.host);
        }
        assert(f[k].speed >= x.speed);
    }
    assert forall|x: SourceView, y: SourceView|
        #[trigger] results.contains(x) && #[trigger] out.contains(y) && !p.contains(y) && x.host
            == y.host implies y.speed >= x.speed by {
        lemma_sort_contains(results, x);
        let k = choose|k: int| p.len() <= k < f.len() && f[k] == y;
        assert(f[k].speed >= x.speed);
    }
}

} // verus!
