use crate::distance::DistanceWeights;
use crate::engine::{lemma_nearest_unique, nearest, nearest_spec};
use crate::merge::MergedData;
use vstd::prelude::*;

verus! {

/// The share of each station's series, in percent, held out as queries.
pub const BENCHMARK_PERCENTAGE: usize = 20;

/// How many of `len` vectors are held out.
pub open spec fn held_out(len: int) -> int {
    len * (BENCHMARK_PERCENTAGE as int) / 100
}

/// |a − b|.
pub open spec fn abs_diff(a: u32, b: u32) -> u32 {
    if a >= b {
        (a - b) as u32
    } else {
        (b - a) as u32
    }
}

/// The prediction error of held-out vector `k`: the difference in available
/// bikes between it and its nearest vector among those kept.
pub open spec fn benchmark_error(series: Seq<MergedData>, w: DistanceWeights, k: int) -> u32 {
    let keep = series.len() - held_out(series.len() as int);
    abs_diff(
        nearest_spec(series.subrange(0, keep), series[keep + k], w).unwrap().available_bikes,
        series[keep + k].available_bikes,
    )
}

/// Holds out the last BENCHMARK_PERCENTAGE percent of a station's series,
/// predicts each held-out vector from the rest by nearest neighbour, and
/// returns the absolute errors in available bikes, in series order.
pub fn benchmark_station(series: &Vec<MergedData>, weights: &DistanceWeights) -> (r: Vec<u32>)
    ensures
        r@.len() == held_out(series@.len() as int),
        forall|k: int| 0 <= k < r@.len() ==> #[trigger] r@[k] == benchmark_error(series@, *weights, k),
{
    let len = series.len();
    let removed = len / 100 * BENCHMARK_PERCENTAGE + len % 100 * BENCHMARK_PERCENTAGE / 100;
    assert(removed == held_out(len as int)) by (nonlinear_arith)
        requires
            removed == len / 100 * 20 + len % 100 * 20 / 100,
            len >= 0,
    ;
    let keep = len - removed;
    let mut train: Vec<MergedData> = Vec::new();
    let mut i: usize = 0;
    while i < keep
        invariant
            i <= keep <= len == series.len(),
            train@ == series@.subrange(0, i as int),
        decreases keep - i,
    {
        train.push(series[i]);
        proof {
            assert(series@.subrange(0, i + 1) =~= series@.subrange(0, i as int).push(series@[i as int]));
        }
        i = i + 1;
    }
    let mut errors: Vec<u32> = Vec::new();
    let mut j: usize = keep;
    while j < len
        invariant
            keep <= j <= len == series.len(),
            keep == len - held_out(len as int),
            removed == held_out(len as int),
            train@ == series@.subrange(0, keep as int),
            errors@.len() == j - keep,
            forall|k: int| 0 <= k < errors@.len() ==> #[trigger] errors@[k] == benchmark_error(series@, *weights, k),
        decreases len - j,
    {
        let wanted = series[j];
        match nearest(&train, &wanted, weights) {
            Some(n) => {
                proof {
                    lemma_nearest_unique(train@, wanted, *weights, n as int);
                }
                let got = train[n].available_bikes;
                let err = if got >= wanted.available_bikes {
                    got - wanted.available_bikes
                } else {
                    wanted.available_bikes - got
                };
                errors.push(err);
            },
            None => {
                proof {
                    assert(held_out(len as int) < len) by (nonlinear_arith)
                        requires
                            len > 0,
                    ;
                }
                return errors;
            },
        }
        j = j + 1;
    }
    errors
}

/// Ordered from smallest to largest.
pub open spec fn sorted_asc(s: Seq<u32>) -> bool {
    forall|i: int, j: int| 0 <= i < j < s.len() ==> #[trigger] s[i] <= #[trigger] s[j]
}

/// The sum of `s`.
pub open spec fn seq_sum(s: Seq<u32>) -> int
    decreases s.len(),
{
    if s.len() == 0 {
        0
    } else {
        seq_sum(s.drop_last()) + s.last()
    }
}

/// Statistics of a station's benchmark errors, in bikes.
#[derive(Clone, Copy, Debug, PartialEq, Eq, Structural)]
pub struct ErrorSummary {
    pub count: u64,
    pub total: u64,
    pub min: u32,
    pub max: u32,
    /// The two middle errors in increasing order; equal for an odd count.
    pub median_low: u32,
    pub median_high: u32,
}

/// The errors in increasing order.
pub fn sort_errors(errors: &Vec<u32>) -> (r: Vec<u32>)
    ensures
        sorted_asc(r@),
        r@.to_multiset() == errors@.to_multiset(),
{
    let mut out: Vec<u32> = Vec::new();
    let mut i: usize = 0;
    assert(out@ =~= errors@.subrange(0, 0));
    while i < errors.len()
        invariant
            i <= errors.len(),
            sorted_asc(out@),
            out@.to_multiset() == errors@.subrange(0, i as int).to_multiset(),
        decreases errors.len() - i,
    {
        let x = errors[i];
        let mut j: usize = out.len();
        while j > 0 && out[j - 1] > x
            invariant
                j <= out@.len(),
                sorted_asc(out@),
                forall|k: int| j <= k < out@.len() ==> #[trigger] out@[k] > x,
            decreases j,
        {
            j = j - 1;
        }
        let ghost before = out@;
        out.insert(j, x);
        proof {
            before.insert_ensures(j as int, x);
            assert forall|a: int, b: int| 0 <= a < b < out@.len() implies #[trigger] out@[a]
                <= #[trigger] out@[b] by {
                if b < j {
                } else if b == j {
                    if a < j - 1 {
                        assert(before[a] <= before[j - 1]);
                    }
                } else if a < j {
                    assert(out@[b] == before[b - 1]);
                } else if a == j {
                    assert(out@[b] == before[b - 1]);
                } else {
                    assert(out@[a] == before[a - 1]);
                    assert(out@[b] == before[b - 1]);
                }
            }
            assert(errors@.subrange(0, i + 1) =~= errors@.subrange(0, i as int).push(x));
            vstd::seq_lib::to_multiset_insert(before, j as int, x);
            vstd::seq_lib::to_multiset_build(errors@.subrange(0, i as int), x);
        }
        i = i + 1;
    }
    assert(errors@.subrange(0, errors.len() as int) =~= errors@);
    out
}

proof fn lemma_sum_bound(s: Seq<u32>)
    ensures
        0 <= seq_sum(s) <= s.len() * (u32::MAX as int),
    decreases s.len(),
{
    if s.len() > 0 {
        lemma_sum_bound(s.drop_last());
    }
}

/// Summarises a station's benchmark errors; none for no error.
pub fn summarize_errors(errors: &Vec<u32>) -> (r: Option<ErrorSummary>)
    requires
        errors.len() <= u32::MAX,
    ensures
        r is None <==> errors.len() == 0,
        r matches Some(s) ==> {
            &&& s.count == errors.len()
            &&& s.total == seq_sum(errors@)
            &&& errors@.contains(s.min) && forall|i: int| 0 <= i < errors.len() ==> s.min <= #[trigger] errors@[i]
            &&& errors@.contains(s.max) && forall|i: int| 0 <= i < errors.len() ==> #[trigger] errors@[i] <= s.max
            &&& exists|t: Seq<u32>|
                sorted_asc(t) && t.to_multiset() == errors@.to_multiset() && t.len() == errors.len()
                    && s.median_low == t[(t.len() - 1) / 2] && s.median_high == #[trigger] t[t.len() as int / 2]
        },
{
    broadcast use vstd::seq_lib::to_multiset_contains, vstd::seq_lib::to_multiset_len;

    let n = errors.len();
    if n == 0 {
        return None;
    }
    let sorted = sort_errors(errors);
    let mut total: u64 = 0;
    let mut i: usize = 0;
    while i < n
        invariant
            i <= n == errors.len(),
            n <= u32::MAX,
            total == seq_sum(errors@.subrange(0, i as int)),
        decreases n - i,
    {
        proof {
            let t = errors@.subrange(0, i + 1);
            assert(t.drop_last() =~= errors@.subrange(0, i as int));
            lemma_sum_bound(t);
            assert(t.len() * (u32::MAX as int) <= (u32::MAX as int) * (u32::MAX as int)) by (nonlinear_arith)
                requires
                    t.len() <= u32::MAX,
            ;
        }
        total = total + errors[i] as u64;
        i = i + 1;
    }
    assert(errors@.subrange(0, n as int) =~= errors@);
    proof {
        assert(sorted@.to_multiset().len() == errors@.to_multiset().len());
        assert(sorted@.len() == n);
        assert forall|i: int| 0 <= i < n implies sorted@[0] <= #[trigger] errors@[i]
            && errors@[i] <= sorted@[n - 1] by {
            assert(errors@.contains(errors@[i]));
            assert(errors@.to_multiset().count(errors@[i]) > 0);
            assert(sorted@.contains(errors@[i]));
            let k = choose|k: int| 0 <= k < sorted@.len() && sorted@[k] == errors@[i];
            if k > 0 {
                assert(sorted@[0] <= sorted@[k]);
            }
            if k < n - 1 {
                assert(sorted@[k] <= sorted@[n - 1]);
            }
        }
        assert(sorted@.contains(sorted@[0]));
        assert(sorted@.to_multiset().count(sorted@[0]) > 0);
        assert(sorted@.contains(sorted@[n - 1]));
        assert(sorted@.to_multiset().count(sorted@[n - 1]) > 0);
    }
    let s = ErrorSummary {
        count: n as u64,
        total,
        min: sorted[0],
        max: sorted[n - 1],
        median_low: sorted[(n - 1) / 2],
        median_high: sorted[n / 2],
    };
    assert(sorted_asc(sorted@) && sorted@.to_multiset() == errors@.to_multiset() && sorted@.len() == n
        && s.median_low == sorted@[(sorted@.len() - 1) / 2] && s.median_high == sorted@[sorted@.len() as int / 2]);
    Some(s)
}

} // verus!
