use crate::merge::MergedData;
use crate::store::{
    dates_sorted, has_station, lemma_sort_by_date, partition_by_station, sort_by_date,
    station_vectors, store_wf, FeatureStore,
};
use vstd::prelude::*;

verus! {

/// The vectors of all shards, shard after shard.
pub open spec fn concat_shards(shards: Seq<Vec<MergedData>>) -> Seq<MergedData>
    decreases shards.len(),
{
    if shards.len() == 0 {
        Seq::empty()
    } else {
        concat_shards(shards.drop_last()) + shards.last()@
    }
}

/// Splits the fleet sequence into `count` shards round-robin: shard `i` holds
/// the vectors at positions i, i + count, i + 2·count, … in that order.
pub fn chunk_shards(vectors: &Vec<MergedData>, count: usize) -> (r: Vec<Vec<MergedData>>)
    requires
        count > 0,
    ensures
        r@.len() == count,
        forall|i: int, k: int|
            0 <= i < count && 0 <= k < r@[i]@.len() ==> #[trigger] r@[i]@[k] == vectors@[i + k * count],
        forall|i: int| 0 <= i < count ==> i + (#[trigger] r@[i]@.len()) * count >= vectors@.len(),
        forall|i: int|
            0 <= i < count && #[trigger] r@[i]@.len() > 0 ==> i + (r@[i]@.len() - 1) * count
                < vectors@.len(),
{
    let len = vectors.len();
    let mut out: Vec<Vec<MergedData>> = Vec::new();
    let mut i: usize = 0;
    while i < count
        invariant
            i <= count,
            len == vectors@.len(),
            out@.len() == i,
            forall|a: int, k: int|
                0 <= a < i && 0 <= k < out@[a]@.len() ==> #[trigger] out@[a]@[k] == vectors@[a + k
                    * count],
            forall|a: int| 0 <= a < i ==> a + (#[trigger] out@[a]@.len()) * count >= len,
            forall|a: int|
                0 <= a < i && #[trigger] out@[a]@.len() > 0 ==> a + (out@[a]@.len() - 1) * count
                    < len,
        decreases count - i,
    {
        let mut chunk: Vec<MergedData> = Vec::new();
        let mut pos: usize = i;
        let mut more: bool = i < len;
        let ghost mut k: int = 0;
        assert(i + 0 * count == i) by (nonlinear_arith);
        while more
            invariant
                i < count,
                len == vectors@.len(),
                chunk@.len() == k,
                0 <= k <= len,
                more ==> pos < len && pos == i + k * count,
                !more ==> i + k * count >= len,
                k > 0 ==> i + (k - 1) * count < len,
                forall|m: int| 0 <= m < k ==> #[trigger] chunk@[m] == vectors@[i + m * count],
            decreases len - k,
        {
            chunk.push(vectors[pos]);
            proof {
                assert(k <= i + k * count) by (nonlinear_arith)
                    requires
                        k >= 0,
                        count >= 1,
                ;
                assert(i + (k + 1) * count == i + k * count + count) by (nonlinear_arith);
                assert(i + ((k + 1) - 1) * count == i + k * count) by (nonlinear_arith);
                k = k + 1;
            }
            if len - pos > count {
                pos = pos + count;
            } else {
                more = false;
            }
        }
        let ghost before = out@;
        out.push(chunk);
        proof {
            assert forall|a: int, m: int|
                0 <= a < i + 1 && 0 <= m < out@[a]@.len() implies #[trigger] out@[a]@[m] == vectors@[a
                + m * count] by {
                if a < i {
                    assert(out@[a] == before[a]);
                }
            }
            assert forall|a: int| 0 <= a < i + 1 implies a + (#[trigger] out@[a]@.len()) * count >= len by {
                if a < i {
                    assert(out@[a] == before[a]);
                }
            }
            assert forall|a: int|
                0 <= a < i + 1 && #[trigger] out@[a]@.len() > 0 implies a + (out@[a]@.len() - 1) * count
                < len by {
                if a < i {
                    assert(out@[a] == before[a]);
                }
            }
        }
        i = i + 1;
    }
    out
}

/// Builds the dataset from shards of either partitioning, read in any order:
/// the shards are regrouped by station and each station's vectors are ordered
/// by their source instant, stably.
pub fn regroup_shards(shards: &Vec<Vec<MergedData>>) -> (r: FeatureStore)
    ensures
        store_wf(r@),
        forall|i: int|
            0 <= i < r@.len() ==> #[trigger] r@[i].1 == sort_by_date(
                station_vectors(concat_shards(shards@), r@[i].0),
            ),
        forall|i: int| 0 <= i < r@.len() ==> dates_sorted(#[trigger] r@[i].1),
        forall|id: u32| station_vectors(concat_shards(shards@), id).len() > 0 ==> has_station(r@, id),
{
    let mut all: Vec<MergedData> = Vec::new();
    let mut i: usize = 0;
    while i < shards.len()
        invariant
            i <= shards.len(),
            all@ == concat_shards(shards@.subrange(0, i as int)),
        decreases shards.len() - i,
    {
        let shard = &shards[i];
        let ghost base = all@;
        let mut k: usize = 0;
        while k < shard.len()
            invariant
                k <= shard@.len(),
                all@ == base + shard@.subrange(0, k as int),
            decreases shard.len() - k,
        {
            all.push(shard[k]);
            proof {
                assert(shard@.subrange(0, k + 1) =~= shard@.subrange(0, k as int).push(shard@[k as int]));
                assert(base + shard@.subrange(0, k + 1) =~= (base + shard@.subrange(0, k as int)).push(
                    shard@[k as int],
                ));
            }
            k = k + 1;
        }
        proof {
            assert(shard@.subrange(0, shard@.len() as int) =~= shard@);
            let t = shards@.subrange(0, i + 1);
            assert(t.drop_last() =~= shards@.subrange(0, i as int));
            assert(t.last() == shards@[i as int]);
        }
        i = i + 1;
    }
    assert(shards@.subrange(0, shards.len() as int) =~= shards@);
    let grouped = partition_by_station(&all);
    let r = grouped.sorted_by_date();
    proof {
        assert forall|i: int| 0 <= i < r@.len() implies dates_sorted(#[trigger] r@[i].1) by {
            lemma_sort_by_date(grouped@[i].1);
        }
        assert forall|id: u32| station_vectors(concat_shards(shards@), id).len() > 0 implies has_station(
            r@,
            id,
        ) by {
            assert(station_vectors(all@, id).len() > 0);
            assert(has_station(grouped@, id));
            let k = choose|k: int| 0 <= k < grouped@.len() && #[trigger] grouped@[k].0 == id;
            assert(r@[k].0 == id);
        }
    }
    r
}

/// Instants strictly increasing.
pub open spec fn dates_increasing(s: Seq<MergedData>) -> bool {
    forall|i: int, j: int| 0 <= i < j < s.len() ==> (#[trigger] s[i]).date < (#[trigger] s[j]).date
}

/// Each station's vectors of `s` are strictly increasing in instant.
pub open spec fn station_dates_increasing(s: Seq<MergedData>) -> bool {
    forall|i: int, j: int|
        0 <= i < j < s.len() && (#[trigger] s[i]).id == (#[trigger] s[j]).id ==> s[i].date < s[j].date
}

proof fn lemma_station_multiset(s: Seq<MergedData>, id: u32)
    ensures
        forall|e: MergedData|
            #[trigger] station_vectors(s, id).to_multiset().count(e) == (if e.id == id {
                s.to_multiset().count(e)
            } else {
                0
            }),
    decreases s.len(),
{
    broadcast use vstd::seq_lib::to_multiset_contains, vstd::multiset::group_multiset_axioms;

    if s.len() == 0 {
        assert(station_vectors(s, id) =~= Seq::<MergedData>::empty());
    } else {
        let p = s.drop_last();
        let x = s.last();
        lemma_station_multiset(p, id);
        assert(p.push(x) =~= s);
        vstd::seq_lib::to_multiset_build(p, x);
        if x.id == id {
            vstd::seq_lib::to_multiset_build(station_vectors(p, id), x);
        }
    }
}

proof fn lemma_station_vectors_increasing(s: Seq<MergedData>, id: u32)
    requires
        station_dates_increasing(s),
    ensures
        dates_increasing(station_vectors(s, id)),
        forall|k: int|
            0 <= k < station_vectors(s, id).len() ==> (#[trigger] station_vectors(s, id)[k]).id == id
                && s.contains(station_vectors(s, id)[k]),
    decreases s.len(),
{
    if s.len() > 0 {
        let p = s.drop_last();
        let x = s.last();
        assert(station_dates_increasing(p)) by {
            assert forall|i: int, j: int|
                0 <= i < j < p.len() && (#[trigger] p[i]).id == (#[trigger] p[j]).id implies p[i].date
                < p[j].date by {
                assert(p[i] == s[i] && p[j] == s[j]);
            }
        }
        lemma_station_vectors_increasing(p, id);
        let q = station_vectors(p, id);
        assert forall|k: int| 0 <= k < q.len() implies #[trigger] s.contains(q[k]) by {
            assert(q[k].id == id);
            let i = choose|i: int| 0 <= i < p.len() && p[i] == q[k];
            assert(s[i] == p[i]);
        }
        if x.id == id {
            let t = station_vectors(s, id);
            assert forall|a: int, b: int| 0 <= a < b < t.len() implies (#[trigger] t[a]).date < (
            #[trigger] t[b]).date by {
                if b == t.len() - 1 {
                    assert(q[a].id == id);
                    let i = choose|i: int| 0 <= i < p.len() && p[i] == q[a];
                    assert(s[i] == q[a]);
                    assert(s[s.len() - 1] == x);
                } else {
                    assert(t[a] == q[a] && t[b] == q[b]);
                }
            }
            assert forall|k: int| 0 <= k < t.len() implies (#[trigger] t[k]).id == id && s.contains(
                t[k],
            ) by {
                if k == t.len() - 1 {
                    assert(s[s.len() - 1] == x);
                } else {
                    assert(t[k] == q[k]);
                    assert(q[k].id == id);
                }
            }
        } else {
            assert forall|k: int| 0 <= k < q.len() implies (#[trigger] q[k]).id == id && s.contains(q[k]) by {
                assert(q[k].id == id);
            }
        }
    }
}

proof fn lemma_sorted_unique(a: Seq<MergedData>, b: Seq<MergedData>)
    requires
        dates_sorted(a),
        dates_increasing(b),
        a.to_multiset() == b.to_multiset(),
    ensures
        a == b,
    decreases a.len(),
{
    broadcast use vstd::seq_lib::to_multiset_contains, vstd::seq_lib::to_multiset_len;

    vstd::seq_lib::to_multiset_len(a);
    vstd::seq_lib::to_multiset_len(b);
    assert(a.len() == b.len());
    if a.len() > 0 {
        let n = a.len() - 1;
        let x = a[n];
        let y = b[n];
        vstd::seq_lib::to_multiset_contains(a, x);
        vstd::seq_lib::to_multiset_contains(b, x);
        vstd::seq_lib::to_multiset_contains(a, y);
        vstd::seq_lib::to_multiset_contains(b, y);
        assert(a.contains(x));
        assert(b.contains(x));
        assert(b.contains(y));
        assert(a.contains(y));
        let i = choose|i: int| 0 <= i < b.len() && b[i] == x;
        let j = choose|j: int| 0 <= j < a.len() && a[j] == y;
        if j < n {
            assert(a[j].date <= a[n].date);
        }
        if i < n {
            assert(b[i].date < b[n].date);
        }
        assert(x == y);
        vstd::seq_lib::to_multiset_remove(a, n);
        vstd::seq_lib::to_multiset_remove(b, n);
        assert(a.remove(n) =~= a.drop_last());
        assert(b.remove(n) =~= b.drop_last());
        lemma_sorted_unique(a.drop_last(), b.drop_last());
        assert(a =~= a.drop_last().push(x));
        assert(b =~= b.drop_last().push(y));
    } else {
        assert(b.len() == 0);
        assert(a =~= b);
    }
}

/// Regrouping restores each station's time order: when the shards hold,
/// in whatever order they are read and whichever partitioning wrote them,
/// exactly the vectors of a fleet sequence in which each station's instants
/// strictly increase, a station's regrouped series is that station's part of
/// the fleet sequence, in its order.
pub proof fn lemma_regroup_restores_order(shards: Seq<Vec<MergedData>>, fleet: Seq<MergedData>, id: u32)
    requires
        concat_shards(shards).to_multiset() == fleet.to_multiset(),
        station_dates_increasing(fleet),
    ensures
        sort_by_date(station_vectors(concat_shards(shards), id)) == station_vectors(fleet, id),
{
    let all = concat_shards(shards);
    lemma_sort_by_date(station_vectors(all, id));
    lemma_station_multiset(all, id);
    lemma_station_multiset(fleet, id);
    lemma_station_vectors_increasing(fleet, id);
    assert(station_vectors(all, id).to_multiset() =~= station_vectors(fleet, id).to_multiset());
    lemma_sorted_unique(sort_by_date(station_vectors(all, id)), station_vectors(fleet, id));
}

} // verus!
