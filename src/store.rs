use crate::merge::MergedData;
use vstd::prelude::*;

verus! {

/// The ordered feature vectors of one station.
#[derive(Clone, Debug)]
pub struct StationSeries {
    pub id: u32,
    pub data: Vec<MergedData>,
}

/// The feature vectors of `s` that belong to station `id`, in order.
pub open spec fn station_vectors(s: Seq<MergedData>, id: u32) -> Seq<MergedData>
    decreases s.len(),
{
    if s.len() == 0 {
        Seq::empty()
    } else if s.last().id == id {
        station_vectors(s.drop_last(), id).push(s.last())
    } else {
        station_vectors(s.drop_last(), id)
    }
}

/// Station ids strictly increasing; each station has at least one vector,
/// and all of them carry its id.
pub open spec fn store_wf(v: Seq<(u32, Seq<MergedData>)>) -> bool {
    &&& forall|i: int, j: int| 0 <= i < j < v.len() ==> #[trigger] v[i].0 < #[trigger] v[j].0
    &&& forall|i: int| 0 <= i < v.len() ==> #[trigger] v[i].1.len() > 0
    &&& forall|i: int, k: int|
        0 <= i < v.len() && 0 <= k < v[i].1.len() ==> #[trigger] v[i].1[k].id == v[i].0
}

/// Whether the store holds station `id`.
pub open spec fn has_station(v: Seq<(u32, Seq<MergedData>)>, id: u32) -> bool {
    exists|i: int| 0 <= i < v.len() && #[trigger] v[i].0 == id
}

/// The loaded dataset: for each station, its feature vectors in time order.
/// Shared read-only by all queries once loaded.
#[derive(Clone, Debug)]
pub struct FeatureStore {
    stations: Vec<StationSeries>,
}

impl View for FeatureStore {
    type V = Seq<(u32, Seq<MergedData>)>;

    closed spec fn view(&self) -> Seq<(u32, Seq<MergedData>)> {
        self.stations@.map_values(|s: StationSeries| (s.id, s.data@))
    }
}

/// Why a set of shards does not make a dataset.
#[derive(Clone, Copy, Debug, PartialEq, Eq, Structural)]
pub enum StoreLoadError {
    /// The shard at `index` holds no vector.
    EmptyShard { index: usize },
    /// The shard at `index` holds vectors of more than one station.
    MixedStations { index: usize },
    /// Two shards hold station `id`.
    DuplicateStation { id: u32 },
}

/// A shard of the one-file-per-station scheme: not empty, one station.
pub open spec fn shard_ok(s: Seq<MergedData>) -> bool {
    s.len() > 0 && forall|k: int| 0 <= k < s.len() ==> #[trigger] s[k].id == s[0].id
}

/// Every shard is well formed and no two hold the same station.
pub open spec fn shards_ok(shards: Seq<Vec<MergedData>>) -> bool {
    &&& forall|i: int| 0 <= i < shards.len() ==> shard_ok(#[trigger] shards[i]@)
    &&& forall|i: int, j: int|
        0 <= i < j < shards.len() ==> #[trigger] shards[i]@[0].id != #[trigger] shards[j]@[0].id
}

impl FeatureStore {
    /// A store without stations.
    pub fn new() -> (r: FeatureStore)
        ensures
            r@ == Seq::<(u32, Seq<MergedData>)>::empty(),
    {
        let r = FeatureStore { stations: Vec::new() };
        assert(r@ =~= Seq::<(u32, Seq<MergedData>)>::empty());
        r
    }

    /// The number of stations.
    pub fn len(&self) -> (r: usize)
        ensures
            r == self@.len(),
    {
        self.stations.len()
    }

    /// The id of the station at position `i` (stations are ordered by id).
    pub fn station_id(&self, i: usize) -> (r: u32)
        requires
            i < self@.len(),
        ensures
            r == self@[i as int].0,
    {
        self.stations[i].id
    }

    /// The vectors of the station at position `i`.
    pub fn series_at(&self, i: usize) -> (r: &Vec<MergedData>)
        requires
            i < self@.len(),
        ensures
            r@ == self@[i as int].1,
    {
        &self.stations[i].data
    }

    /// Whether the store is well formed: station ids strictly increasing, every
    /// series non-empty and made of vectors of its own station.
    pub fn is_well_formed(&self) -> (r: bool)
        ensures
            r == store_wf(self@),
    {
        let mut i: usize = 0;
        while i < self.stations.len()
            invariant
                i <= self@.len(),
                self@.len() == self.stations@.len(),
                forall|a: int, b: int| 0 <= a < b < i ==> #[trigger] self@[a].0 < #[trigger] self@[b].0,
                forall|a: int| 0 <= a < i ==> #[trigger] self@[a].1.len() > 0,
                forall|a: int, k: int|
                    0 <= a < i && 0 <= k < self@[a].1.len() ==> #[trigger] self@[a].1[k].id == self@[a].0,
            decreases self.stations.len() - i,
        {
            let series = &self.stations[i];
            assert(self@[i as int] == (series.id, series.data@));
            if i > 0 && self.stations[i - 1].id >= series.id {
                assert(self@[i - 1].0 >= self@[i as int].0);
                return false;
            }
            if series.data.len() == 0 {
                assert(self@[i as int].1.len() == 0);
                return false;
            }
            let mut k: usize = 0;
            while k < series.data.len()
                invariant
                    k <= series.data@.len(),
                    i < self@.len(),
                    self@[i as int] == (series.id, series.data@),
                    forall|j: int| 0 <= j < k ==> #[trigger] series.data@[j].id == series.id,
                decreases series.data.len() - k,
            {
                if series.data[k].id != series.id {
                    assert(self@[i as int].1[k as int].id != self@[i as int].0);
                    return false;
                }
                k = k + 1;
            }
            proof {
                assert forall|a: int, b: int| 0 <= a < b < i + 1 implies #[trigger] self@[a].0
                    < #[trigger] self@[b].0 by {
                    if b == i && a < i - 1 {
                        assert(self@[a].0 < self@[i - 1].0);
                    }
                }
            }
            i = i + 1;
        }
        true
    }

    /// Where `id` is, or where it would go, in the ordered ids.
    fn search(&self, id: u32) -> (r: (usize, bool))
        requires
            store_wf(self@),
        ensures
            r.0 <= self@.len(),
            r.1 ==> r.0 < self@.len() && self@[r.0 as int].0 == id,
            !r.1 ==> forall|k: int| 0 <= k < r.0 ==> #[trigger] self@[k].0 < id,
            !r.1 ==> forall|k: int| r.0 <= k < self@.len() ==> #[trigger] self@[k].0 > id,
    {
        let mut lo: usize = 0;
        let mut hi: usize = self.stations.len();
        while lo < hi
            invariant
                store_wf(self@),
                self@.len() == self.stations@.len(),
                lo <= hi <= self@.len(),
                forall|k: int| 0 <= k < lo ==> #[trigger] self@[k].0 < id,
                forall|k: int| hi <= k < self@.len() ==> #[trigger] self@[k].0 > id,
            decreases hi - lo,
        {
            let mid = lo + (hi - lo) / 2;
            let m = self.stations[mid].id;
            assert(self@[mid as int].0 == m);
            if m == id {
                return (mid, true);
            } else if m < id {
                lo = mid + 1;
            } else {
                hi = mid;
            }
        }
        (lo, false)
    }

    /// The position of station `id`, if the store holds it.
    pub fn find_station(&self, id: u32) -> (r: Option<usize>)
        requires
            store_wf(self@),
        ensures
            r matches Some(i) ==> i < self@.len() && self@[i as int].0 == id,
            r is None <==> !has_station(self@, id),
    {
        let (i, found) = self.search(id);
        if found {
            Some(i)
        } else {
            proof {
                if has_station(self@, id) {
                    let k = choose|k: int| 0 <= k < self@.len() && #[trigger] self@[k].0 == id;
                    // ids below position i are smaller than id, the others larger
                    assert(self@[k].0 < id || self@[k].0 > id);
                }
            }
            None
        }
    }
}

/// Splits merged vectors into one series per station, each in input order,
/// stations ordered by id: the one-shard-per-station partitioning.
pub fn partition_by_station(vectors: &Vec<MergedData>) -> (r: FeatureStore)
    ensures
        store_wf(r@),
        forall|i: int| 0 <= i < r@.len() ==> #[trigger] r@[i].1 == station_vectors(vectors@, r@[i].0),
        forall|id: u32| station_vectors(vectors@, id).len() > 0 ==> has_station(r@, id),
{
    let mut store = FeatureStore::new();
    let mut n: usize = 0;
    while n < vectors.len()
        invariant
            n <= vectors.len(),
            store_wf(store@),
            forall|i: int|
                0 <= i < store@.len() ==> #[trigger] store@[i].1 == station_vectors(
                    vectors@.subrange(0, n as int),
                    store@[i].0,
                ),
            forall|id: u32|
                station_vectors(vectors@.subrange(0, n as int), id).len() > 0 ==> has_station(
                    store@,
                    id,
                ),
        decreases vectors.len() - n,
    {
        let v = vectors[n];
        let ghost pre = vectors@.subrange(0, n as int);
        let ghost post = vectors@.subrange(0, n as int + 1);
        let ghost old_view = store@;
        assert(post.drop_last() =~= pre);
        assert(post.last() == v);
        let (i, found) = store.search(v.id);
        if found {
            let ghost old_stations = store.stations@;
            store.stations[i].data.push(v);
            proof {
                assert(store.stations@[i as int].id == old_stations[i as int].id);
                assert(store.stations@[i as int].data@ == old_stations[i as int].data@.push(v));
                assert(old_view[i as int].0 == v.id);
                assert forall|k: int| 0 <= k < store@.len() && k != i implies #[trigger] store@[k]
                    == old_view[k] by {
                    assert(store.stations@[k] == old_stations[k]);
                }
                assert(store@[i as int].1 == old_view[i as int].1.push(v));
                assert forall|id: u32| id != v.id implies #[trigger] station_vectors(post, id)
                    == station_vectors(pre, id) by {}
                assert(station_vectors(post, v.id) == station_vectors(pre, v.id).push(v));
                assert forall|k: int| 0 <= k < store@.len() implies #[trigger] store@[k].1
                    == station_vectors(post, store@[k].0) by {
                    if k == i {
                    } else {
                        assert(store@[k] == old_view[k]);
                    }
                }
                assert forall|id: u32| station_vectors(post, id).len() > 0 implies has_station(
                    store@,
                    id,
                ) by {
                    if id != v.id {
                        assert(station_vectors(pre, id).len() > 0);
                        assert(has_station(old_view, id));
                        let k = choose|k: int| 0 <= k < old_view.len() && #[trigger] old_view[k].0 == id;
                        if k != i {
                            assert(store@[k] == old_view[k]);
                        }
                        assert(store@[k].0 == id);
                    } else {
                        assert(store@[i as int].0 == id);
                    }
                }
            }
        } else {
            let mut data: Vec<MergedData> = Vec::new();
            data.push(v);
            store.stations.insert(i, StationSeries { id: v.id, data });
            proof {
                assert(store@ =~= old_view.insert(i as int, (v.id, seq![v])));
                old_view.insert_ensures(i as int, (v.id, seq![v]));
                assert(station_vectors(pre, v.id).len() == 0) by {
                    if station_vectors(pre, v.id).len() > 0 {
                        assert(station_vectors(vectors@.subrange(0, n as int), v.id).len() > 0);
                        assert(has_station(old_view, v.id));
                        let k = choose|k: int| 0 <= k < old_view.len() && #[trigger] old_view[k].0 == v.id;
                        assert(old_view[k].0 < v.id || old_view[k].0 > v.id);
                    }
                }
                assert(station_vectors(pre, v.id) =~= Seq::<MergedData>::empty());
                assert(station_vectors(post, v.id) =~= seq![v]);
                assert forall|k: int| 0 <= k < store@.len() implies #[trigger] store@[k].1
                    == station_vectors(post, store@[k].0) by {
                    if k < i {
                        assert(store@[k] == old_view[k]);
                    } else if k > i {
                        assert(store@[k] == old_view[k - 1]);
                    }
                }
                assert forall|id: u32| station_vectors(post, id).len() > 0 implies has_station(
                    store@,
                    id,
                ) by {
                    if id != v.id {
                        assert(station_vectors(post, id) == station_vectors(pre, id));
                        assert(station_vectors(vectors@.subrange(0, n as int), id).len() > 0);
                        assert(has_station(old_view, id));
                        let k = choose|k: int| 0 <= k < old_view.len() && #[trigger] old_view[k].0 == id;
                        if k < i {
                            assert(store@[k].0 == id);
                        } else {
                            assert(store@[k + 1].0 == id);
                        }
                    } else {
                        assert(store@[i as int].0 == id);
                    }
                }
                assert forall|a: int, b: int| 0 <= a < b < store@.len() implies #[trigger] store@[a].0
                    < #[trigger] store@[b].0 by {
                    if a < i && b < i {
                    } else if a < i && b == i {
                    } else if a < i {
                        assert(store@[b] == old_view[b - 1]);
                    } else if a == i {
                        assert(store@[b] == old_view[b - 1]);
                    } else {
                        assert(store@[a] == old_view[a - 1]);
                        assert(store@[b] == old_view[b - 1]);
                    }
                }
                assert forall|a: int, k: int|
                    0 <= a < store@.len() && 0 <= k < store@[a].1.len() implies #[trigger] store@[a].1[k].id
                    == store@[a].0 by {
                    if a < i {
                    } else if a > i {
                        assert(store@[a] == old_view[a - 1]);
                    }
                }
                assert forall|a: int| 0 <= a < store@.len() implies #[trigger] store@[a].1.len() > 0 by {
                    if a < i {
                    } else if a > i {
                        assert(store@[a] == old_view[a - 1]);
                    }
                }
            }
        }
        n = n + 1;
    }
    assert(vectors@.subrange(0, vectors.len() as int) =~= vectors@);
    store
}

/// Whether the store holds the shard `s` as the series of its station.
pub open spec fn has_shard(v: Seq<(u32, Seq<MergedData>)>, s: Seq<MergedData>) -> bool {
    exists|k: int| 0 <= k < v.len() && #[trigger] v[k] == (s[0].id, s)
}

/// Whether the shard `v` holds only vectors of station `id`.
fn uniform_station(v: &Vec<MergedData>, id: u32) -> (r: bool)
    ensures
        r <==> forall|k: int| 0 <= k < v@.len() ==> #[trigger] v@[k].id == id,
{
    let mut k: usize = 0;
    while k < v.len()
        invariant
            k <= v.len(),
            forall|j: int| 0 <= j < k ==> #[trigger] v@[j].id == id,
        decreases v.len() - k,
    {
        if v[k].id != id {
            return false;
        }
        k = k + 1;
    }
    true
}

/// Builds the dataset from shards of the one-shard-per-station scheme, read in
/// any order. A shard that is empty or mixes stations, or a station held by two
/// shards, is a load error: the dataset is never partially loaded.
#[verifier::rlimit(50)]
pub fn load_station_shards(shards: Vec<Vec<MergedData>>) -> (r: Result<FeatureStore, StoreLoadError>)
    ensures
        r is Ok <==> shards_ok(shards@),
        r matches Ok(store) ==> store_wf(store@) && store@.len() == shards@.len() && forall|i: int|
            0 <= i < shards@.len() ==> has_shard(store@, #[trigger] shards@[i]@),
        r matches Err(StoreLoadError::EmptyShard { index }) ==> index < shards@.len()
            && shards@[index as int]@.len() == 0,
        r matches Err(StoreLoadError::MixedStations { index }) ==> index < shards@.len()
            && shards@[index as int]@.len() > 0 && !shard_ok(shards@[index as int]@),
        r matches Err(StoreLoadError::DuplicateStation { id }) ==> exists|i: int, j: int|
            0 <= i < j < shards@.len() && shard_ok(shards@[i]@) && shard_ok(shards@[j]@)
                && #[trigger] shards@[i]@[0].id == id && #[trigger] shards@[j]@[0].id == id,
{
    let ghost orig = shards@;
    let mut rest = shards;
    let mut store = FeatureStore::new();
    while rest.len() > 0
        invariant
            orig == shards@,
            rest@ == orig.subrange(0, rest@.len() as int),
            rest@.len() <= orig.len(),
            store_wf(store@),
            store@.len() == orig.len() - rest@.len(),
            forall|i: int| rest@.len() <= i < orig.len() ==> shard_ok(#[trigger] orig[i]@),
            forall|i: int| rest@.len() <= i < orig.len() ==> has_shard(store@, #[trigger] orig[i]@),
            forall|i: int, j: int|
                rest@.len() <= i < j < orig.len() ==> #[trigger] orig[i]@[0].id
                    != #[trigger] orig[j]@[0].id,
            forall|k: int|
                0 <= k < store@.len() ==> exists|i: int|
                    rest@.len() <= i < orig.len() && #[trigger] store@[k] == (
                        orig[i]@[0].id,
                        orig[i]@,
                    ),
        decreases rest@.len(),
    {
        let ghost old_view = store@;
        let shard = rest.pop().unwrap();
        let m = rest.len();
        assert(shard@ == orig[m as int]@);
        assert(rest@ =~= orig.subrange(0, m as int));
        if shard.len() == 0 {
            assert(orig[m as int]@.len() == 0);
            assert(!shard_ok(orig[m as int]@));
            return Err(StoreLoadError::EmptyShard { index: m });
        }
        let id = shard[0].id;
        if !uniform_station(&shard, id) {
            assert(!shard_ok(orig[m as int]@));
            return Err(StoreLoadError::MixedStations { index: m });
        }
        let (pos, found) = store.search(id);
        if found {
            proof {
                let i = choose|i: int|
                    m < i < orig.len() && #[trigger] old_view[pos as int] == (orig[i]@[0].id, orig[i]@);
                assert(shard_ok(orig[i]@));
                assert(orig[m as int]@[0].id == id && orig[i]@[0].id == id);
            }
            return Err(StoreLoadError::DuplicateStation { id });
        }
        proof {
            assert forall|i: int| m < i < orig.len() implies #[trigger] orig[m as int]@[0].id
                != orig[i]@[0].id by {
                assert(has_shard(old_view, orig[i]@));
                assert(orig[m as int]@[0].id == id);
                let k = choose|k: int| 0 <= k < old_view.len() && #[trigger] old_view[k] == (orig[i]@[0].id, orig[i]@);
                assert(old_view[k].0 == orig[i]@[0].id);
                if k < pos {
                    assert(old_view[k].0 < id);
                } else {
                    assert(old_view[k].0 > id);
                }
            }
        }
        let ghost entry = (id, shard@);
        store.stations.insert(pos, StationSeries { id, data: shard });
        proof {
            assert(store@ =~= old_view.insert(pos as int, entry));
            old_view.insert_ensures(pos as int, entry);
            assert(store@[pos as int] == entry);
            assert forall|i: int| m <= i < orig.len() implies has_shard(store@, #[trigger] orig[i]@) by {
                if i == m {
                    assert(store@[pos as int] == (orig[i]@[0].id, orig[i]@));
                } else {
                    let k = choose|k: int| 0 <= k < old_view.len() && #[trigger] old_view[k] == (orig[i]@[0].id, orig[i]@);
                    if k < pos {
                        assert(store@[k] == old_view[k]);
                    } else {
                        assert(store@[k + 1] == old_view[k]);
                    }
                }
            }
            assert forall|k: int| 0 <= k < store@.len() implies exists|i: int|
                m <= i < orig.len() && #[trigger] store@[k] == (orig[i]@[0].id, orig[i]@) by {
                if k == pos {
                    assert(store@[k] == (orig[m as int]@[0].id, orig[m as int]@));
                } else if k < pos {
                    assert(store@[k] == old_view[k]);
                    let i = choose|i: int| m < i < orig.len() && #[trigger] old_view[k] == (orig[i]@[0].id, orig[i]@);
                    assert(store@[k] == (orig[i]@[0].id, orig[i]@));
                } else {
                    assert(store@[k] == old_view[k - 1]);
                    let i = choose|i: int| m < i < orig.len() && #[trigger] old_view[k - 1] == (orig[i]@[0].id, orig[i]@);
                    assert(store@[k] == (orig[i]@[0].id, orig[i]@));
                }
            }
            assert forall|a: int, b: int| 0 <= a < b < store@.len() implies #[trigger] store@[a].0
                < #[trigger] store@[b].0 by {
                if a < pos && b < pos {
                } else if a < pos && b == pos {
                } else if a < pos {
                    assert(store@[b] == old_view[b - 1]);
                } else if a == pos {
                    assert(store@[b] == old_view[b - 1]);
                } else {
                    assert(store@[a] == old_view[a - 1]);
                    assert(store@[b] == old_view[b - 1]);
                }
            }
            assert forall|a: int, k: int|
                0 <= a < store@.len() && 0 <= k < store@[a].1.len() implies #[trigger] store@[a].1[k].id
                == store@[a].0 by {
                if a < pos {
                } else if a > pos {
                    assert(store@[a] == old_view[a - 1]);
                }
            }
            assert forall|a: int| 0 <= a < store@.len() implies #[trigger] store@[a].1.len() > 0 by {
                if a < pos {
                } else if a > pos {
                    assert(store@[a] == old_view[a - 1]);
                }
            }
        }
    }
    assert(orig.subrange(0, 0).len() == 0);
    Ok(store)
}

/// Instants non-decreasing.
pub open spec fn dates_sorted(s: Seq<MergedData>) -> bool {
    forall|i: int, j: int| 0 <= i < j < s.len() ==> (#[trigger] s[i]).date <= (#[trigger] s[j]).date
}

/// `j` is where `x` goes in `s`: after every vector that is not later, before
/// every later one.
pub open spec fn is_date_slot(s: Seq<MergedData>, x: MergedData, j: int) -> bool {
    &&& 0 <= j <= s.len()
    &&& forall|k: int| 0 <= k < j ==> (#[trigger] s[k]).date <= x.date
    &&& forall|k: int| j <= k < s.len() ==> (#[trigger] s[k]).date > x.date
}

/// `s` ordered by instant, stably: vectors at the same instant keep their order.
pub open spec fn sort_by_date(s: Seq<MergedData>) -> Seq<MergedData>
    decreases s.len(),
{
    if s.len() == 0 {
        Seq::empty()
    } else {
        let p = sort_by_date(s.drop_last());
        p.insert(choose|j: int| is_date_slot(p, s.last(), j), s.last())
    }
}

proof fn lemma_date_slot_unique(s: Seq<MergedData>, x: MergedData, j1: int, j2: int)
    requires
        is_date_slot(s, x, j1),
        is_date_slot(s, x, j2),
    ensures
        j1 == j2,
{
    if j1 < j2 {
        assert(s[j1].date <= x.date);
    } else if j2 < j1 {
        assert(s[j2].date <= x.date);
    }
}

proof fn lemma_find_date_slot(s: Seq<MergedData>, x: MergedData, n: int)
    requires
        dates_sorted(s),
        0 <= n <= s.len(),
        forall|k: int| n <= k < s.len() ==> (#[trigger] s[k]).date > x.date,
    ensures
        exists|j: int| is_date_slot(s, x, j),
    decreases n,
{
    if n == 0 {
        assert(is_date_slot(s, x, 0));
    } else if s[n - 1].date > x.date {
        lemma_find_date_slot(s, x, n - 1);
    } else {
        assert forall|k: int| 0 <= k < n implies (#[trigger] s[k]).date <= x.date by {
            if k < n - 1 {
                assert(s[k].date <= s[n - 1].date);
            }
        }
        assert(is_date_slot(s, x, n));
    }
}

proof fn lemma_insert_date_slot(s: Seq<MergedData>, x: MergedData, j: int)
    requires
        dates_sorted(s),
        is_date_slot(s, x, j),
    ensures
        dates_sorted(s.insert(j, x)),
        s.insert(j, x).to_multiset() == s.to_multiset().insert(x),
{
    vstd::seq_lib::to_multiset_insert(s, j, x);
    s.insert_ensures(j, x);
    let t = s.insert(j, x);
    assert forall|a: int, b: int| 0 <= a < b < t.len() implies (#[trigger] t[a]).date <= (
    #[trigger] t[b]).date by {
        if b < j {
        } else if b == j {
            assert(t[a] == s[a]);
        } else if a < j {
            assert(t[b] == s[b - 1]);
        } else if a == j {
            assert(t[b] == s[b - 1]);
        } else {
            assert(t[a] == s[a - 1]);
            assert(t[b] == s[b - 1]);
        }
    }
}

/// The stable sort by instant orders by instant and keeps the vectors.
pub proof fn lemma_sort_by_date(s: Seq<MergedData>)
    ensures
        dates_sorted(sort_by_date(s)),
        sort_by_date(s).to_multiset() == s.to_multiset(),
    decreases s.len(),
{
    if s.len() > 0 {
        let q = s.drop_last();
        lemma_sort_by_date(q);
        let p = sort_by_date(q);
        lemma_find_date_slot(p, s.last(), p.len() as int);
        let j = choose|j: int| is_date_slot(p, s.last(), j);
        lemma_insert_date_slot(p, s.last(), j);
        vstd::seq_lib::to_multiset_build(q, s.last());
        assert(q.push(s.last()) =~= s);
    } else {
        assert(s =~= Seq::<MergedData>::empty());
    }
}

/// `v` ordered by instant, stably.
pub fn sort_series_by_date(v: &Vec<MergedData>) -> (r: Vec<MergedData>)
    ensures
        r@ == sort_by_date(v@),
        dates_sorted(r@),
        r@.to_multiset() == v@.to_multiset(),
{
    let mut out: Vec<MergedData> = Vec::new();
    let mut i: usize = 0;
    while i < v.len()
        invariant
            i <= v.len(),
            out@ == sort_by_date(v@.subrange(0, i as int)),
        decreases v.len() - i,
    {
        let x = v[i];
        proof {
            lemma_sort_by_date(v@.subrange(0, i as int));
        }
        let ghost p = out@;
        let mut j: usize = out.len();
        while j > 0 && out[j - 1].date > x.date
            invariant
                out@ == p,
                dates_sorted(p),
                j <= p.len(),
                forall|k: int| j <= k < p.len() ==> (#[trigger] p[k]).date > x.date,
            decreases j,
        {
            j = j - 1;
        }
        proof {
            assert forall|k: int| 0 <= k < j implies (#[trigger] p[k]).date <= x.date by {
                if k < j - 1 {
                    assert(p[k].date <= p[j - 1].date);
                }
            }
            assert(is_date_slot(p, x, j as int));
            let j2 = choose|j2: int| is_date_slot(p, x, j2);
            lemma_date_slot_unique(p, x, j as int, j2);
            let t = v@.subrange(0, i + 1);
            assert(t.drop_last() =~= v@.subrange(0, i as int));
            assert(t.last() == x);
        }
        out.insert(j, x);
        i = i + 1;
    }
    assert(v@.subrange(0, v.len() as int) =~= v@);
    proof {
        lemma_sort_by_date(v@);
    }
    out
}

impl FeatureStore {
    /// The store with each station's vectors ordered by instant, stably.
    pub fn sorted_by_date(&self) -> (r: FeatureStore)
        requires
            store_wf(self@),
        ensures
            store_wf(r@),
            r@.len() == self@.len(),
            forall|i: int|
                0 <= i < r@.len() ==> #[trigger] r@[i] == (self@[i].0, sort_by_date(self@[i].1)),
    {
        broadcast use vstd::seq_lib::to_multiset_contains, vstd::seq_lib::to_multiset_len;

        let mut stations: Vec<StationSeries> = Vec::new();
        let mut i: usize = 0;
        while i < self.stations.len()
            invariant
                i <= self@.len(),
                self@.len() == self.stations@.len(),
                store_wf(self@),
                stations@.len() == i,
                forall|k: int|
                    0 <= k < i ==> #[trigger] stations@[k].id == self@[k].0 && stations@[k].data@
                        == sort_by_date(self@[k].1),
            decreases self.stations.len() - i,
        {
            let series = &self.stations[i];
            assert(self@[i as int] == (series.id, series.data@));
            let data = sort_series_by_date(&series.data);
            stations.push(StationSeries { id: series.id, data });
            i = i + 1;
        }
        let r = FeatureStore { stations };
        proof {
            assert forall|k: int| 0 <= k < r@.len() implies #[trigger] r@[k] == (
                self@[k].0,
                sort_by_date(self@[k].1),
            ) by {
                assert(r@[k] == (stations@[k].id, stations@[k].data@));
            }
            assert forall|k: int| 0 <= k < r@.len() implies #[trigger] r@[k].1.len() > 0 by {
                lemma_sort_by_date(self@[k].1);
                assert(r@[k].1.to_multiset().len() == self@[k].1.to_multiset().len());
            }
            assert forall|a: int, k: int|
                0 <= a < r@.len() && 0 <= k < r@[a].1.len() implies #[trigger] r@[a].1[k].id
                == r@[a].0 by {
                lemma_sort_by_date(self@[a].1);
                let e = r@[a].1[k];
                assert(r@[a].1.contains(e));
                assert(r@[a].1.to_multiset().count(e) > 0);
                assert(self@[a].1.contains(e));
                let m = choose|m: int| 0 <= m < self@[a].1.len() && self@[a].1[m] == e;
            }
            assert forall|a: int, b: int| 0 <= a < b < r@.len() implies #[trigger] r@[a].0
                < #[trigger] r@[b].0 by {
                assert(r@[a].0 == self@[a].0 && r@[b].0 == self@[b].0);
            }
        }
        r
    }
}

} // verus!
