use crate::calendar::SchoolHolidays;
use crate::dedup::{
    dedup_and_sort, dedup_sort, has_key, insert_sorted, is_slot, lemma_dedup_sort_sorted, precedes,
    lemma_find_slot, sorted_strict,
};
use crate::merge::{merge_spec, merged_spec, MergeError, MergedData};
use crate::store::station_vectors;
use crate::weather::WeatherData;
use crate::telemetry::{compliant, filter_records, is_consistent, lemma_compliant, FilterStats, RawObservation, Value};
use vstd::prelude::*;

verus! {

/// The number of snapshots over all input units.
pub open spec fn total_len(units: Seq<Vec<Value>>) -> nat
    decreases units.len(),
{
    if units.len() == 0 {
        0
    } else {
        total_len(units.drop_last()) + units.last()@.len()
    }
}

/// The compliant observations of every input unit, unit after unit.
pub open spec fn compliant_all(units: Seq<Vec<Value>>) -> Seq<RawObservation>
    decreases units.len(),
{
    if units.len() == 0 {
        Seq::empty()
    } else {
        compliant_all(units.drop_last()) + compliant(units.last()@)
    }
}

proof fn lemma_insert_sorted_elements(s: Seq<RawObservation>, x: RawObservation)
    requires
        sorted_strict(s),
    ensures
        forall|k: int|
            0 <= k < insert_sorted(s, x).len() ==> #[trigger] insert_sorted(s, x)[k] == x
                || s.contains(insert_sorted(s, x)[k]),
{
    if !has_key(s, x) {
        lemma_find_slot(s, x, s.len() as int);
        let j = choose|j: int| is_slot(s, x, j);
        s.insert_ensures(j, x);
        assert forall|k: int| 0 <= k < insert_sorted(s, x).len() implies #[trigger] insert_sorted(
            s,
            x,
        )[k] == x || s.contains(insert_sorted(s, x)[k]) by {
            if k < j {
                assert(s[k] == insert_sorted(s, x)[k]);
            } else if k > j {
                assert(s[k - 1] == insert_sorted(s, x)[k]);
            }
        }
    } else {
        assert forall|k: int| 0 <= k < insert_sorted(s, x).len() implies #[trigger] insert_sorted(
            s,
            x,
        )[k] == x || s.contains(insert_sorted(s, x)[k]) by {
            assert(s[k] == insert_sorted(s, x)[k]);
        }
    }
}

/// Every observation that deduplication keeps comes from its input.
pub proof fn lemma_dedup_sort_elements(s: Seq<RawObservation>)
    ensures
        forall|k: int| 0 <= k < dedup_sort(s).len() ==> s.contains(#[trigger] dedup_sort(s)[k]),
    decreases s.len(),
{
    if s.len() > 0 {
        let p = s.drop_last();
        lemma_dedup_sort_elements(p);
        lemma_dedup_sort_sorted(p);
        lemma_insert_sorted_elements(dedup_sort(p), s.last());
        assert forall|k: int| 0 <= k < dedup_sort(s).len() implies s.contains(
            #[trigger] dedup_sort(s)[k],
        ) by {
            let e = dedup_sort(s)[k];
            if e == s.last() {
                assert(s[s.len() - 1] == e);
            } else {
                assert(dedup_sort(p).contains(e));
                let k2 = choose|k2: int| 0 <= k2 < dedup_sort(p).len() && dedup_sort(p)[k2] == e;
                assert(p.contains(e));
                let i = choose|i: int| 0 <= i < p.len() && p[i] == e;
                assert(s[i] == e);
            }
        }
    }
}

/// Every observation of the units' compliant observations meets the
/// capacity-consistency invariant.
proof fn lemma_compliant_all_consistent(units: Seq<Vec<Value>>)
    ensures
        forall|k: int|
            0 <= k < compliant_all(units).len() ==> is_consistent(#[trigger] compliant_all(units)[k]),
    decreases units.len(),
{
    if units.len() > 0 {
        lemma_compliant_all_consistent(units.drop_last());
        lemma_compliant(units.last()@);
        let a = compliant_all(units.drop_last());
        let b = compliant(units.last()@);
        assert forall|k: int| 0 <= k < compliant_all(units).len() implies is_consistent(
            #[trigger] compliant_all(units)[k],
        ) by {
            if k < a.len() {
                assert(compliant_all(units)[k] == a[k]);
            } else {
                assert(compliant_all(units)[k] == b[k - a.len()]);
            }
        }
    }
}

/// The capacity invariant of the telemetry pipeline: every observation that
/// leaves it met `capacity == bikes + stands`.
pub proof fn lemma_pipeline_consistent(units: Seq<Vec<Value>>)
    ensures
        forall|k: int|
            0 <= k < dedup_sort(compliant_all(units)).len() ==> is_consistent(
                #[trigger] dedup_sort(compliant_all(units))[k],
            ),
{
    lemma_compliant_all_consistent(units);
    lemma_dedup_sort_elements(compliant_all(units));
    assert forall|k: int| 0 <= k < dedup_sort(compliant_all(units)).len() implies is_consistent(
        #[trigger] dedup_sort(compliant_all(units))[k],
    ) by {
        let e = dedup_sort(compliant_all(units))[k];
        let i = choose|i: int| 0 <= i < compliant_all(units).len() && compliant_all(units)[i] == e;
    }
}

/// The telemetry pipeline: normalises every input unit (dropping and counting
/// the snapshots that break the capacity-consistency invariant), then
/// deduplicates and orders the result.
pub fn filter_velov_data(units: &Vec<Vec<Value>>) -> (r: (Vec<RawObservation>, FilterStats))
    requires
        total_len(units@) <= u64::MAX,
    ensures
        r.0@ == dedup_sort(compliant_all(units@)),
        sorted_strict(r.0@),
        forall|k: int| 0 <= k < r.0@.len() ==> is_consistent(#[trigger] r.0@[k]),
        r.1.read == total_len(units@),
        r.1.compliant == compliant_all(units@).len(),
{
    let mut all: Vec<RawObservation> = Vec::new();
    let mut stats = FilterStats::new();
    let mut i: usize = 0;
    while i < units.len()
        invariant
            i <= units.len(),
            total_len(units@) <= u64::MAX,
            all@ == compliant_all(units@.subrange(0, i as int)),
            stats.read == total_len(units@.subrange(0, i as int)),
            stats.compliant == all@.len(),
        decreases units.len() - i,
    {
        proof {
            let t = units@.subrange(0, i + 1);
            assert(t.drop_last() =~= units@.subrange(0, i as int));
            lemma_total_len_prefix(units@, i as int + 1);
            lemma_compliant_len(units@[i as int]@);
        }
        let (mut part, part_stats) = filter_records(&units[i]);
        stats = stats.combine(&part_stats);
        all.append(&mut part);
        i = i + 1;
    }
    assert(units@.subrange(0, units.len() as int) =~= units@);
    proof {
        lemma_pipeline_consistent(units@);
    }
    let out = dedup_and_sort(&all);
    (out, stats)
}

proof fn lemma_compliant_len(values: Seq<Value>)
    ensures
        compliant(values).len() <= values.len(),
    decreases values.len(),
{
    if values.len() > 0 {
        lemma_compliant_len(values.drop_last());
    }
}

proof fn lemma_compliant_all_len(units: Seq<Vec<Value>>)
    ensures
        compliant_all(units).len() <= total_len(units),
    decreases units.len(),
{
    if units.len() > 0 {
        lemma_compliant_all_len(units.drop_last());
        lemma_compliant_len(units.last()@);
    }
}

proof fn lemma_total_len_prefix(units: Seq<Vec<Value>>, n: int)
    requires
        0 <= n <= units.len(),
    ensures
        total_len(units.subrange(0, n)) <= total_len(units),
        compliant_all(units.subrange(0, n)).len() <= total_len(units.subrange(0, n)),
    decreases units.len() - n,
{
    lemma_compliant_all_len(units.subrange(0, n));
    if n < units.len() {
        lemma_total_len_prefix(units, n + 1);
        let t = units.subrange(0, n + 1);
        assert(t.drop_last() =~= units.subrange(0, n));
    } else {
        assert(units.subrange(0, n) =~= units);
    }
}

/// The observations of `s` that merge, in order: the sources of
/// `merged_spec(s, ..)`.
pub open spec fn merge_sources(
    s: Seq<RawObservation>,
    holidays: Seq<SchoolHolidays>,
    weather: Map<i64, WeatherData>,
) -> Seq<RawObservation>
    decreases s.len(),
{
    if s.len() == 0 {
        Seq::empty()
    } else if merge_spec(s.last(), holidays, weather) is Ok {
        merge_sources(s.drop_last(), holidays, weather).push(s.last())
    } else {
        merge_sources(s.drop_last(), holidays, weather)
    }
}

/// The observations of `s` of station `id`, in order.
pub open spec fn station_observations(s: Seq<RawObservation>, id: u32) -> Seq<RawObservation>
    decreases s.len(),
{
    if s.len() == 0 {
        Seq::empty()
    } else if s.last().id == id {
        station_observations(s.drop_last(), id).push(s.last())
    } else {
        station_observations(s.drop_last(), id)
    }
}

proof fn lemma_sources_sorted(
    s: Seq<RawObservation>,
    holidays: Seq<SchoolHolidays>,
    weather: Map<i64, WeatherData>,
)
    requires
        sorted_strict(s),
    ensures
        sorted_strict(merge_sources(s, holidays, weather)),
        forall|k: int|
            0 <= k < merge_sources(s, holidays, weather).len() ==> s.contains(
                #[trigger] merge_sources(s, holidays, weather)[k],
            ),
    decreases s.len(),
{
    if s.len() > 0 {
        let p = s.drop_last();
        assert(sorted_strict(p));
        lemma_sources_sorted(p, holidays, weather);
        let q = merge_sources(p, holidays, weather);
        assert forall|k: int| 0 <= k < q.len() implies precedes(#[trigger] q[k], s.last()) by {
            let i = choose|i: int| 0 <= i < p.len() && p[i] == q[k];
            assert(s[i] == p[i]);
        }
        assert forall|k: int| 0 <= k < merge_sources(s, holidays, weather).len() implies s.contains(
            #[trigger] merge_sources(s, holidays, weather)[k],
        ) by {
            if k < q.len() {
                let i = choose|i: int| 0 <= i < p.len() && p[i] == q[k];
                assert(s[i] == p[i]);
            } else {
                assert(s[s.len() - 1] == s.last());
            }
        }
    }
}

proof fn lemma_station_observations_sorted(t: Seq<RawObservation>, id: u32)
    requires
        sorted_strict(t),
    ensures
        sorted_strict(station_observations(t, id)),
        forall|k: int|
            0 <= k < station_observations(t, id).len() ==> #[trigger] station_observations(t, id)[k].id
                == id && t.contains(station_observations(t, id)[k]),
    decreases t.len(),
{
    if t.len() > 0 {
        let p = t.drop_last();
        assert(sorted_strict(p));
        lemma_station_observations_sorted(p, id);
        let q = station_observations(p, id);
        assert forall|k: int| 0 <= k < q.len() implies precedes(#[trigger] q[k], t.last()) by {
            assert(q[k].id == id);
            let i = choose|i: int| 0 <= i < p.len() && p[i] == q[k];
            assert(t[i] == p[i]);
        }
        assert forall|k: int| 0 <= k < station_observations(t, id).len() implies #[trigger] station_observations(
            t,
            id,
        )[k].id == id && t.contains(station_observations(t, id)[k]) by {
            if k < q.len() {
                assert(q[k].id == id);
                let i = choose|i: int| 0 <= i < p.len() && p[i] == q[k];
                assert(t[i] == p[i]);
            } else {
                assert(t[t.len() - 1] == t.last());
            }
        }
    }
}

proof fn lemma_station_vectors_of_merge(
    s: Seq<RawObservation>,
    holidays: Seq<SchoolHolidays>,
    weather: Map<i64, WeatherData>,
    id: u32,
)
    ensures
        station_vectors(merged_spec(s, holidays, weather), id).len() == station_observations(
            merge_sources(s, holidays, weather),
            id,
        ).len(),
        forall|k: int|
            0 <= k < station_vectors(merged_spec(s, holidays, weather), id).len() ==> Ok::<
                MergedData,
                MergeError,
            >(#[trigger] station_vectors(merged_spec(s, holidays, weather), id)[k]) == merge_spec(
                station_observations(merge_sources(s, holidays, weather), id)[k],
                holidays,
                weather,
            ),
    decreases s.len(),
{
    if s.len() > 0 {
        let p = s.drop_last();
        lemma_station_vectors_of_merge(p, holidays, weather, id);
        let x = s.last();
        match merge_spec(x, holidays, weather) {
            Ok(m) => {
                assert(merged_spec(s, holidays, weather) == merged_spec(p, holidays, weather).push(m));
                assert(merged_spec(s, holidays, weather).drop_last() =~= merged_spec(p, holidays, weather));
                assert(merge_sources(s, holidays, weather).drop_last() =~= merge_sources(p, holidays, weather));
                assert(m.id == x.id);
            },
            Err(_) => {},
        }
    }
}

/// The order of each station's persisted series: after deduplication, the
/// observations that merge are, station by station, strictly increasing in
/// instant, and the `k`-th feature vector of a station's series is the merge of
/// the `k`-th of them.
pub proof fn lemma_persisted_order(
    s: Seq<RawObservation>,
    holidays: Seq<SchoolHolidays>,
    weather: Map<i64, WeatherData>,
    id: u32,
)
    requires
        sorted_strict(s),
    ensures
        ({
            let series = station_vectors(merged_spec(s, holidays, weather), id);
            let src = station_observations(merge_sources(s, holidays, weather), id);
            &&& series.len() == src.len()
            &&& forall|k: int|
                0 <= k < series.len() ==> Ok::<MergedData, MergeError>(#[trigger] series[k])
                    == merge_spec(src[k], holidays, weather)
            &&& forall|a: int, b: int|
                0 <= a < b < src.len() ==> #[trigger] src[a].date < #[trigger] src[b].date
            &&& forall|k: int| 0 <= k < src.len() ==> #[trigger] src[k].id == id && s.contains(src[k])
            &&& forall|a: int, b: int|
                0 <= a < b < series.len() ==> (#[trigger] series[a]).date < (#[trigger] series[b]).date
        }),
{
    lemma_sources_sorted(s, holidays, weather);
    let t = merge_sources(s, holidays, weather);
    lemma_station_observations_sorted(t, id);
    lemma_station_vectors_of_merge(s, holidays, weather, id);
    let src = station_observations(t, id);
    assert forall|a: int, b: int| 0 <= a < b < src.len() implies #[trigger] src[a].date
        < #[trigger] src[b].date by {
        assert(precedes(src[a], src[b]));
        assert(src[a].id == id && src[b].id == id);
    }
    let series = station_vectors(merged_spec(s, holidays, weather), id);
    assert forall|k: int| 0 <= k < series.len() implies (#[trigger] series[k]).date == src[k].date by {
        assert(Ok::<MergedData, MergeError>(series[k]) == merge_spec(src[k], holidays, weather));
    }
    assert forall|a: int, b: int| 0 <= a < b < series.len() implies (#[trigger] series[a]).date
        < (#[trigger] series[b]).date by {
        assert(series[a].date == src[a].date);
        assert(series[b].date == src[b].date);
        assert(src[a].date < src[b].date);
    }
    assert forall|k: int| 0 <= k < src.len() implies #[trigger] src[k].id == id && s.contains(src[k]) by {
        assert(src[k].id == id);
        assert(t.contains(src[k]));
        let i = choose|i: int| 0 <= i < t.len() && t[i] == src[k];
        assert(s.contains(t[i]));
    }
}

} // verus!
