use crate::telemetry::RawObservation;
use vstd::prelude::*;

verus! {

/// `a` may come before `b`: not later, and not the same station at the same
/// instant.
pub open spec fn precedes(a: RawObservation, b: RawObservation) -> bool {
    a.date <= b.date && !same_key(a, b)
}

/// `a` and `b` observe the same station at the same instant.
pub open spec fn same_key(a: RawObservation, b: RawObservation) -> bool {
    a.date == b.date && a.id == b.id
}

/// Instants non-decreasing, and no (station, instant) repeated.
pub open spec fn sorted_strict(s: Seq<RawObservation>) -> bool {
    forall|i: int, j: int| 0 <= i < j < s.len() ==> precedes(#[trigger] s[i], #[trigger] s[j])
}

/// Whether `s` holds an observation of the station of `x` at the instant of `x`.
pub open spec fn has_key(s: Seq<RawObservation>, x: RawObservation) -> bool {
    exists|i: int| 0 <= i < s.len() && same_key(#[trigger] s[i], x)
}

/// `j` is where `x` goes in `s`: after every observation that is not later,
/// before every later one.
pub open spec fn is_slot(s: Seq<RawObservation>, x: RawObservation, j: int) -> bool {
    &&& 0 <= j <= s.len()
    &&& forall|k: int| 0 <= k < j ==> (#[trigger] s[k]).date <= x.date
    &&& forall|k: int| j <= k < s.len() ==> (#[trigger] s[k]).date > x.date
}

/// Adds `x` to the ordered `s` at its place, unless `s` already holds its key.
/// Observations at the same instant stay in the order in which they came.
pub open spec fn insert_sorted(s: Seq<RawObservation>, x: RawObservation) -> Seq<RawObservation> {
    if has_key(s, x) {
        s
    } else {
        s.insert(choose|j: int| is_slot(s, x, j), x)
    }
}

/// The deduplicated, ordered form of `s`: observations are taken in input
/// order, one whose station and instant were already seen is dropped, and the
/// rest are ordered by instant, stably.
pub open spec fn dedup_sort(s: Seq<RawObservation>) -> Seq<RawObservation>
    decreases s.len(),
{
    if s.len() == 0 {
        Seq::empty()
    } else {
        insert_sorted(dedup_sort(s.drop_last()), s.last())
    }
}

proof fn lemma_slot_unique(s: Seq<RawObservation>, x: RawObservation, j1: int, j2: int)
    requires
        is_slot(s, x, j1),
        is_slot(s, x, j2),
    ensures
        j1 == j2,
{
    if j1 < j2 {
        assert(s[j1].date <= x.date);
        assert(s[j1].date > x.date);
    } else if j2 < j1 {
        assert(s[j2].date <= x.date);
        assert(s[j2].date > x.date);
    }
}

pub(crate) proof fn lemma_insert_at_slot(s: Seq<RawObservation>, x: RawObservation, j: int)
    requires
        sorted_strict(s),
        !has_key(s, x),
        is_slot(s, x, j),
    ensures
        insert_sorted(s, x) == s.insert(j, x),
        sorted_strict(s.insert(j, x)),
{
    let j2 = choose|j2: int| is_slot(s, x, j2);
    lemma_slot_unique(s, x, j, j2);
    s.insert_ensures(j, x);
    let t = s.insert(j, x);
    assert forall|a: int, b: int| 0 <= a < b < t.len() implies precedes(#[trigger] t[a], #[trigger] t[b]) by {
        if b < j {
        } else if b == j {
            assert(t[a] == s[a]);
            assert(!same_key(s[a], x));
        } else if a < j {
            assert(t[b] == s[b - 1]);
            assert(precedes(s[a], s[b - 1]));
        } else if a == j {
            assert(t[b] == s[b - 1]);
            assert(!same_key(s[b - 1], x));
        } else {
            assert(t[a] == s[a - 1]);
            assert(t[b] == s[b - 1]);
        }
    }
}

/// In a sequence ordered by instant, scanning down from `n` while observations
/// are later than `x` ends at a slot.
pub(crate) proof fn lemma_find_slot(s: Seq<RawObservation>, x: RawObservation, n: int)
    requires
        sorted_strict(s),
        0 <= n <= s.len(),
        forall|k: int| n <= k < s.len() ==> (#[trigger] s[k]).date > x.date,
    ensures
        exists|j: int| is_slot(s, x, j),
    decreases n,
{
    if n == 0 {
        assert(is_slot(s, x, 0));
    } else if s[n - 1].date > x.date {
        lemma_find_slot(s, x, n - 1);
    } else {
        assert forall|k: int| 0 <= k < n implies (#[trigger] s[k]).date <= x.date by {
            if k < n - 1 {
                assert(precedes(s[k], s[n - 1]));
            }
        }
        assert(is_slot(s, x, n));
    }
}

/// Inserting into an ordered sequence keeps it ordered.
proof fn lemma_insert_sorted(s: Seq<RawObservation>, x: RawObservation)
    requires
        sorted_strict(s),
    ensures
        sorted_strict(insert_sorted(s, x)),
{
    if !has_key(s, x) {
        lemma_find_slot(s, x, s.len() as int);
        let j = choose|j: int| is_slot(s, x, j);
        lemma_insert_at_slot(s, x, j);
    }
}

/// The deduplicated form is ordered.
pub proof fn lemma_dedup_sort_sorted(s: Seq<RawObservation>)
    ensures
        sorted_strict(dedup_sort(s)),
    decreases s.len(),
{
    if s.len() > 0 {
        lemma_dedup_sort_sorted(s.drop_last());
        lemma_insert_sorted(dedup_sort(s.drop_last()), s.last());
    }
}

/// Deduplicating an input that is already ordered and free of duplicates
/// leaves it as it is.
pub proof fn lemma_dedup_sort_of_sorted(s: Seq<RawObservation>)
    requires
        sorted_strict(s),
    ensures
        dedup_sort(s) == s,
    decreases s.len(),
{
    if s.len() > 0 {
        let p = s.drop_last();
        assert(sorted_strict(p));
        lemma_dedup_sort_of_sorted(p);
        let x = s.last();
        assert forall|k: int| 0 <= k < p.len() implies (#[trigger] p[k]).date <= x.date by {
            assert(p[k] == s[k]);
            assert(precedes(s[k], s[s.len() - 1]));
        }
        assert(!has_key(p, x)) by {
            if has_key(p, x) {
                let i = choose|i: int| 0 <= i < p.len() && same_key(#[trigger] p[i], x);
                assert(p[i] == s[i]);
                assert(precedes(s[i], s[s.len() - 1]));
            }
        }
        assert(is_slot(p, x, p.len() as int));
        lemma_insert_at_slot(p, x, p.len() as int);
        assert(p.insert(p.len() as int, x) =~= s);
    }
}

/// Deduplication is idempotent: running it on its own output changes nothing.
pub proof fn lemma_dedup_idempotent(s: Seq<RawObservation>)
    ensures
        dedup_sort(dedup_sort(s)) == dedup_sort(s),
{
    lemma_dedup_sort_sorted(s);
    lemma_dedup_sort_of_sorted(dedup_sort(s));
}

/// `s[i]` is the first observation of `s` of its station at its instant.
pub open spec fn is_first_of_key(s: Seq<RawObservation>, i: int) -> bool {
    0 <= i < s.len() && forall|j: int| 0 <= j < i ==> !same_key(#[trigger] s[j], s[i])
}

/// Deduplication keeps exactly the first observation of each (station,
/// instant): every kept observation is the first of its key in the input, and
/// every key of the input is kept.
pub proof fn lemma_dedup_sort_keeps_first(s: Seq<RawObservation>)
    ensures
        forall|k: int|
            0 <= k < dedup_sort(s).len() ==> exists|i: int|
                is_first_of_key(s, i) && s[i] == #[trigger] dedup_sort(s)[k],
        forall|i: int| 0 <= i < s.len() ==> has_key(dedup_sort(s), #[trigger] s[i]),
    decreases s.len(),
{
    if s.len() > 0 {
        let p = s.drop_last();
        let x = s.last();
        let q = dedup_sort(p);
        lemma_dedup_sort_keeps_first(p);
        lemma_dedup_sort_sorted(p);
        assert forall|i: int| 0 <= i < p.len() implies #[trigger] s[i] == p[i] by {}
        assert forall|i: int| is_first_of_key(p, i) implies is_first_of_key(s, i) by {
            assert forall|j: int| 0 <= j < i implies !same_key(#[trigger] s[j], s[i]) by {
                assert(s[j] == p[j]);
            }
        }
        if has_key(q, x) {
            assert forall|k: int| 0 <= k < dedup_sort(s).len() implies exists|i: int|
                is_first_of_key(s, i) && s[i] == #[trigger] dedup_sort(s)[k] by {
                let i = choose|i: int| is_first_of_key(p, i) && p[i] == #[trigger] q[k];
                assert(is_first_of_key(s, i));
            }
            assert forall|i: int| 0 <= i < s.len() implies has_key(dedup_sort(s), #[trigger] s[i]) by {
                if i < p.len() {
                    assert(has_key(q, p[i]));
                }
            }
        } else {
            lemma_find_slot(q, x, q.len() as int);
            let j = choose|j: int| is_slot(q, x, j);
            lemma_insert_at_slot(q, x, j);
            q.insert_ensures(j, x);
            let out = dedup_sort(s);
            assert(out == q.insert(j, x));
            assert(is_first_of_key(s, s.len() - 1)) by {
                assert forall|i: int| 0 <= i < s.len() - 1 implies !same_key(#[trigger] s[i], s[s.len() - 1]) by {
                    assert(has_key(q, p[i]));
                    let k = choose|k: int| 0 <= k < q.len() && same_key(#[trigger] q[k], p[i]);
                    if same_key(s[i], s[s.len() - 1]) {
                        assert(same_key(q[k], x));
                    }
                }
            }
            assert forall|k: int| 0 <= k < out.len() implies exists|i: int|
                is_first_of_key(s, i) && s[i] == #[trigger] out[k] by {
                if k < j {
                    assert(out[k] == q[k]);
                    let i = choose|i: int| is_first_of_key(p, i) && p[i] == #[trigger] q[k];
                    assert(is_first_of_key(s, i));
                } else if k == j {
                    assert(s[s.len() - 1] == out[k]);
                } else {
                    assert(out[k] == q[k - 1]);
                    let i = choose|i: int| is_first_of_key(p, i) && p[i] == #[trigger] q[k - 1];
                    assert(is_first_of_key(s, i));
                }
            }
            assert forall|i: int| 0 <= i < s.len() implies has_key(out, #[trigger] s[i]) by {
                if i < p.len() {
                    assert(has_key(q, p[i]));
                    let k = choose|k: int| 0 <= k < q.len() && same_key(#[trigger] q[k], p[i]);
                    if k < j {
                        assert(out[k] == q[k]);
                    } else {
                        assert(out[k + 1] == q[k]);
                    }
                } else {
                    assert(out[j] == x);
                }
            }
        }
    }
}

/// Within an ordered sequence, the observations of one station are strictly
/// increasing in time.
pub proof fn lemma_station_order(s: Seq<RawObservation>, i: int, j: int)
    requires
        sorted_strict(s),
        0 <= i < j < s.len(),
        s[i].id == s[j].id,
    ensures
        s[i].date < s[j].date,
{
    assert(precedes(s[i], s[j]));
}

/// Adds `x` to the ordered `out` after every observation that is not later,
/// unless `out` already holds an observation of the same station at the same
/// instant.
fn insert_observation(out: &mut Vec<RawObservation>, x: RawObservation)
    requires
        sorted_strict(old(out)@),
    ensures
        final(out)@ == insert_sorted(old(out)@, x),
        sorted_strict(final(out)@),
{
    let ghost s = out@;
    let mut j: usize = out.len();
    while j > 0 && out[j - 1].date > x.date
        invariant
            out@ == s,
            sorted_strict(s),
            j <= s.len(),
            forall|k: int| j <= k < s.len() ==> (#[trigger] s[k]).date > x.date,
        decreases j,
    {
        j = j - 1;
    }
    // the observations at the instant of x end just before j
    let mut k: usize = j;
    while k > 0 && out[k - 1].date == x.date
        invariant
            out@ == s,
            sorted_strict(s),
            k <= j <= s.len(),
            forall|m: int| k <= m < j ==> (#[trigger] s[m]).date == x.date && s[m].id != x.id,
        decreases k,
    {
        if out[k - 1].id == x.id {
            assert(same_key(s[k - 1], x));
            assert(has_key(s, x));
            return;
        }
        k = k - 1;
    }
    proof {
        assert forall|m: int| 0 <= m < j implies (#[trigger] s[m]).date <= x.date by {
            assert(s[j - 1].date <= x.date);
            if m < j - 1 {
                assert(precedes(s[m], s[j - 1]));
            }
        }
        assert(!has_key(s, x)) by {
            if has_key(s, x) {
                let i = choose|i: int| 0 <= i < s.len() && same_key(#[trigger] s[i], x);
                if i < k {
                    assert(s[k - 1].date != x.date);
                    assert(s[k - 1].date <= x.date);
                    assert(precedes(s[i], s[k - 1]));
                }
            }
        }
        assert(is_slot(s, x, j as int));
        lemma_insert_at_slot(s, x, j as int);
    }
    out.insert(j, x);
}

/// Removes duplicate (station, instant) observations, keeping the first in
/// input order, and orders the rest by instant (then station id).
pub fn dedup_and_sort(observations: &Vec<RawObservation>) -> (r: Vec<RawObservation>)
    ensures
        r@ == dedup_sort(observations@),
        sorted_strict(r@),
{
    let mut out: Vec<RawObservation> = Vec::new();
    let mut i: usize = 0;
    while i < observations.len()
        invariant
            i <= observations.len(),
            out@ == dedup_sort(observations@.subrange(0, i as int)),
            sorted_strict(out@),
        decreases observations.len() - i,
    {
        proof {
            let t = observations@.subrange(0, i + 1);
            assert(t.drop_last() =~= observations@.subrange(0, i as int));
            assert(t.last() == observations@[i as int]);
        }
        insert_observation(&mut out, observations[i]);
        i = i + 1;
    }
    assert(observations@.subrange(0, observations.len() as int) =~= observations@);
    out
}

} // verus!
