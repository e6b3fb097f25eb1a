use vstd::prelude::*;
use crate::types::Speed;

verus! {

broadcast use vstd::seq_lib::group_seq_properties;

/// A value with a transfer rate, by which values are put in order.
pub trait Rated {
    spec fn rate(self) -> Speed;
}

/// A value whose view has a rate, which the value can tell.
pub trait Timed: View + Sized where Self::V: Rated {
    fn rate_value(&self) -> (r: Speed)
        ensures
            r == self@.rate(),
    ;
}

/// The views of the values of `s`, in order.
pub open spec fn views<T: View>(s: Seq<T>) -> Seq<T::V> {
    s.map_values(|t: T| t@)
}

// ── Ordering by speed ──────────────────────────────────────────────

/// The first position of `r` holding a value slower than `v`.
pub open spec fn slot<A: Rated>(r: Seq<A>, v: Speed) -> int
    decreases r.len(),
{
    if r.len() == 0 {
        0
    } else if r[0].rate() < v {
        0
    } else {
        1 + slot(r.drop_first(), v)
    }
}

/// `s` ordered from the fastest to the slowest value; values of equal
/// speed keep their order (a stable sort).
pub open spec fn sort_by_speed<A: Rated>(s: Seq<A>) -> Seq<A>
    decreases s.len(),
{
    if s.len() == 0 {
        s
    } else {
        let r = sort_by_speed(s.drop_last());
        r.insert(slot(r, s.last().rate()), s.last())
    }
}

pub open spec fn sorted_by_speed<A: Rated>(s: Seq<A>) -> bool {
    forall|i: int, j: int| 0 <= i < j < s.len() ==> s[i].rate() >= s[j].rate()
}

/// Each value of `s` is strictly faster than the ones after it.
pub open spec fn strictly_sorted<A: Rated>(s: Seq<A>) -> bool {
    forall|i: int, j: int| 0 <= i < j < s.len() ==> s[i].rate() > s[j].rate()
}

pub proof fn lemma_slot_bounds<A: Rated>(r: Seq<A>, v: Speed)
    ensures
        0 <= slot(r, v) <= r.len(),
        forall|k: int| 0 <= k < slot(r, v) ==> r[k].rate() >= v,
        slot(r, v) < r.len() ==> r[slot(r, v)].rate() < v,
    decreases r.len(),
{
    if r.len() > 0 && r[0].rate() >= v {
        lemma_slot_bounds(r.drop_first(), v);
        assert forall|k: int| 0 <= k < slot(r, v) implies r[k].rate() >= v by {
            if k > 0 {
                assert(r[k] == r.drop_first()[k - 1]);
            }
        }
    }
}

pub proof fn lemma_slot_at<A: Rated>(r: Seq<A>, v: Speed, j: int)
    requires
        0 <= j <= r.len(),
        forall|k: int| 0 <= k < j ==> r[k].rate() >= v,
        j < r.len() ==> r[j].rate() < v,
    ensures
        slot(r, v) == j,
    decreases j,
{
    if j > 0 {
        lemma_slot_at(r.drop_first(), v, j - 1);
    }
}

pub proof fn lemma_sort_len<A: Rated>(s: Seq<A>)
    ensures
        sort_by_speed(s).len() == s.len(),
    decreases s.len(),
{
    if s.len() > 0 {
        let r = sort_by_speed(s.drop_last());
        lemma_sort_len(s.drop_last());
        lemma_slot_bounds(r, s.last().rate());
    }
}

/// The order by speed: fastest first.
pub proof fn lemma_sort_is_sorted<A: Rated>(s: Seq<A>)
    ensures
        sorted_by_speed(sort_by_speed(s)),
    decreases s.len(),
{
    if s.len() > 0 {
        let x = s.last();
        let r = sort_by_speed(s.drop_last());
        lemma_sort_is_sorted(s.drop_last());
        lemma_slot_bounds(r, x.rate());
        let p = slot(r, x.rate());
        let out = r.insert(p, x);
        assert forall|i: int, j: int| 0 <= i < j < out.len() implies out[i].rate()
            >= out[j].rate() by {
            if j < p {
            } else if j == p {
            } else if i < p {
                assert(out[j] == r[j - 1]);
            } else if i == p {
                assert(out[j] == r[j - 1]);
                assert(r[p].rate() >= r[j - 1].rate());
            } else {
                assert(out[j] == r[j - 1]);
                assert(out[i] == r[i - 1]);
            }
        }
    }
}

/// Ordering by speed neither loses nor adds a value.
pub proof fn lemma_sort_permutes<A: Rated>(s: Seq<A>)
    ensures
        sort_by_speed(s).to_multiset() == s.to_multiset(),
    decreases s.len(),
{
    broadcast use vstd::seq_lib::to_multiset_insert, vstd::seq_lib::to_multiset_build;

    if s.len() > 0 {
        let r = sort_by_speed(s.drop_last());
        lemma_sort_permutes(s.drop_last());
        lemma_slot_bounds(r, s.last().rate());
        assert(s.drop_last().push(s.last()) =~= s);
    }
}

/// A value is in the ordered sequence exactly when it is in the input.
pub proof fn lemma_sort_contains<A: Rated>(s: Seq<A>, x: A)
    ensures
        sort_by_speed(s).contains(x) <==> s.contains(x),
{
    broadcast use vstd::multiset::group_multiset_axioms;

    lemma_sort_permutes(s);
    s.to_multiset_ensures();
    sort_by_speed(s).to_multiset_ensures();
    assert(s.contains(x) <==> s.to_multiset().count(x) > 0);
    assert(sort_by_speed(s).contains(x) <==> sort_by_speed(s).to_multiset().count(x) > 0);
}

/// Ordering by speed keeps the length and the values, and orders them.
pub proof fn lemma_sort_facts<A: Rated>(s: Seq<A>)
    ensures
        sorted_by_speed(sort_by_speed(s)),
        sort_by_speed(s).len() == s.len(),
        forall|x: A| sort_by_speed(s).contains(x) <==> s.contains(x),
{
    lemma_sort_is_sorted(s);
    lemma_sort_len(s);
    assert forall|x: A| sort_by_speed(s).contains(x) <==> s.contains(x) by {
        lemma_sort_contains(s, x);
    }
}

pub open spec fn has_speed<A: Rated>(v: Speed) -> spec_fn(A) -> bool {
    |x: A| x.rate() == v
}

/// Ordering by speed is stable: the values of any one speed keep the
/// order they had.
pub proof fn law_sort_is_stable<A: Rated>(s: Seq<A>, v: Speed)
    ensures
        sort_by_speed(s).filter(has_speed(v)) == s.filter(has_speed(v)),
    decreases s.len(),
{
    if s.len() > 0 {
        let x = s.last();
        let d = s.drop_last();
        let r = sort_by_speed(d);
        let p = slot(r, x.rate());
        let pred = has_speed::<A>(v);
        law_sort_is_stable(d, v);
        lemma_slot_bounds(r, x.rate());
        lemma_sort_is_sorted(d);
        assert(d.push(x) =~= s);
        d.lemma_filter_push(x, pred);
        let a = r.take(p);
        let b = r.skip(p);
        assert(r =~= a + b);
        assert(r.insert(p, x) =~= a.push(x) + b);
        Seq::filter_distributes_over_add(a, b, pred);
        Seq::filter_distributes_over_add(a.push(x), b, pred);
        a.lemma_filter_push(x, pred);
        if v == x.rate() {
            assert forall|k: int| 0 <= k < b.len() implies !pred(b[k]) by {
                assert(b[k] == r[p + k]);
                assert(r[p].rate() >= r[p + k].rate());
            }
            assert(b.all(|y: A| !pred(y)));
            b.lemma_all_neg_filter_empty(pred);
            assert(b.filter(pred) =~= Seq::<A>::empty());
            assert(a.filter(pred) + Seq::<A>::empty() =~= a.filter(pred));
            assert(a.filter(pred).push(x) + Seq::<A>::empty() =~= a.filter(pred).push(x));
        }
    }
}

/// Ordering a sequence that is already fastest first leaves it as it is.
pub proof fn lemma_sort_of_sorted<A: Rated>(s: Seq<A>)
    requires
        sorted_by_speed(s),
    ensures
        sort_by_speed(s) == s,
    decreases s.len(),
{
    if s.len() > 0 {
        let d = s.drop_last();
        assert forall|i: int, j: int| 0 <= i < j < d.len() implies d[i].rate() >= d[j].rate() by {
            assert(d[i] == s[i] && d[j] == s[j]);
        }
        lemma_sort_of_sorted(d);
        assert forall|k: int| 0 <= k < d.len() implies d[k].rate() >= s.last().rate() by {
            assert(d[k] == s[k]);
        }
        lemma_slot_at(d, s.last().rate(), d.len() as int);
        assert(d.insert(d.len() as int, s.last()) =~= s);
    }
}

/// Two sequences, each strictly fastest first, that hold the same values
/// are the same sequence.
pub proof fn lemma_strictly_sorted_unique<A: Rated>(a: Seq<A>, b: Seq<A>)
    requires
        strictly_sorted(a),
        strictly_sorted(b),
        forall|x: A| a.contains(x) <==> b.contains(x),
    ensures
        a == b,
    decreases a.len(),
{
    if a.len() == 0 {
        if b.len() > 0 {
            assert(b.contains(b[0]));
        }
        assert(a =~= b);
    } else {
        assert(a.contains(a[0]));
        let k = choose|k: int| 0 <= k < b.len() && b[k] == a[0];
        assert(b.contains(b[0]));
        let m = choose|m: int| 0 <= m < a.len() && a[m] == b[0];
        if k > 0 {
            assert(b[0].rate() > b[k].rate());
            if m > 0 {
                assert(a[0].rate() > a[m].rate());
            }
        }
        assert(b[0] == a[0]);
        let a1 = a.drop_first();
        let b1 = b.drop_first();
        assert forall|x: A| a1.contains(x) <==> b1.contains(x) by {
            if a1.contains(x) {
                let i = choose|i: int| 0 <= i < a1.len() && a1[i] == x;
                assert(a[i + 1] == x);
                assert(a.contains(x));
                let j = choose|j: int| 0 <= j < b.len() && b[j] == x;
                if j == 0 {
                    assert(a[0].rate() > a[i + 1].rate());
                }
                assert(b1[j - 1] == x);
            }
            if b1.contains(x) {
                let i = choose|i: int| 0 <= i < b1.len() && b1[i] == x;
                assert(b[i + 1] == x);
                assert(b.contains(x));
                let j = choose|j: int| 0 <= j < a.len() && a[j] == x;
                if j == 0 {
                    assert(b[0].rate() > b[i + 1].rate());
                }
                assert(a1[j - 1] == x);
            }
        }
        assert forall|i: int, j: int| 0 <= i < j < a1.len() implies a1[i].rate() > a1[j].rate() by {
            assert(a1[i] == a[i + 1] && a1[j] == a[j + 1]);
        }
        assert forall|i: int, j: int| 0 <= i < j < b1.len() implies b1[i].rate() > b1[j].rate() by {
            assert(b1[i] == b[i + 1] && b1[j] == b[j + 1]);
        }
        lemma_strictly_sorted_unique(a1, b1);
        assert(a =~= b) by {
            assert forall|i: int| 0 <= i < a.len() implies a[i] == b[i] by {
                if i > 0 {
                    assert(a[i] == a1[i - 1] && b[i] == b1[i - 1]);
                }
            }
        }
    }
}

// ── Executable ordering ────────────────────────────────────────────

/// Sorts the values from the fastest to the slowest, keeping the order of
/// values of equal speed.
pub fn sort_fastest_first<T: Timed>(v: Vec<T>) -> (r: Vec<T>)
    where
        T::V: Rated,
    ensures
        views(r@) == sort_by_speed(views(v@)),
{
    let ghost orig = v@;
    let mut rest = v;
    let mut out: Vec<T> = Vec::new();
    let ghost mut i: int = 0;
    assert(views(orig.take(0)) =~= Seq::<T::V>::empty());
    while rest.len() > 0
        invariant
            0 <= i <= orig.len(),
            rest@ == orig.skip(i),
            views(out@) == sort_by_speed(views(orig.take(i))),
        decreases rest.len(),
    {
        let x = rest.remove(0);
        assert(x == orig[i]);
        let xr = x.rate_value();
        let mut j: usize = 0;
        while j < out.len() && out[j].rate_value() >= xr
            invariant
                j <= out.len(),
                xr == x@.rate(),
                forall|k: int| 0 <= k < j ==> out@[k]@.rate() >= xr,
            decreases out.len() - j,
        {
            j += 1;
        }
        let ghost r = views(out@);
        proof {
            lemma_slot_at(r, xr, j as int);
            assert(views(orig.take(i + 1)).drop_last() =~= views(orig.take(i)));
            assert(views(orig.take(i + 1)).last() == x@);
        }
        out.insert(j, x);
        proof {
            assert(views(out@) =~= r.insert(j as int, x@));
            assert(orig.skip(i).drop_first() =~= orig.skip(i + 1));
            i = i + 1;
        }
    }
    assert(orig.take(i) =~= orig);
    out
}

} // verus!
