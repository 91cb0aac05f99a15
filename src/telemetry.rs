use vstd::prelude::*;

verus! {

/// Availability counters of a group of stands.
#[derive(Clone, Copy, Debug, PartialEq, Eq, Structural)]
pub struct Availabilities {
    pub bikes: u16,
    pub electrical_bikes: u16,
    pub electrical_internal_battery_bikes: u16,
    pub electrical_removable_battery_bikes: u16,
    pub mechanical_bikes: u16,
    pub stands: u16,
}

/// The main stands of a station.
#[derive(Clone, Copy, Debug, PartialEq, Eq, Structural)]
pub struct MainStands {
    pub availabilities: Availabilities,
    pub capacity: u16,
}

/// The overflow stands of a station.
#[derive(Clone, Copy, Debug, PartialEq, Eq, Structural)]
pub struct OverflowStands {
    pub availabilities: Availabilities,
    pub capacity: u16,
}

/// All stands of a station taken together.
#[derive(Clone, Copy, Debug, PartialEq, Eq, Structural)]
pub struct TotalStands {
    pub availabilities: Availabilities,
    pub capacity: u16,
}

/// One station-state snapshot as the telemetry archive records it; `horodate`
/// is a Unix time in seconds.
#[derive(Clone, Debug)]
pub struct Value {
    pub horodate: i64,
    pub main_stands: MainStands,
    pub number: u16,
    pub overflow_stands: Option<OverflowStands>,
    pub status: String,
    pub total_stands: TotalStands,
}

/// A normalised observation of one station at one instant (Unix seconds).
#[derive(Clone, Copy, Debug, PartialEq, Eq, Structural)]
pub struct RawObservation {
    pub id: u32,
    pub date: i64,
    pub capacity: u32,
    pub bikes: u32,
    pub stands: u32,
}

/// The observation that a snapshot records.
pub open spec fn observation_spec(v: Value) -> RawObservation {
    RawObservation {
        id: v.number as u32,
        date: v.horodate,
        capacity: v.total_stands.capacity as u32,
        bikes: v.total_stands.availabilities.bikes as u32,
        stands: v.total_stands.availabilities.stands as u32,
    }
}

/// The capacity-consistency invariant: every stand holds a bike or is free.
pub open spec fn is_consistent(o: RawObservation) -> bool {
    o.capacity as int == o.bikes as int + o.stands as int
}

/// The observations of `values`, in order, without those that break the
/// capacity-consistency invariant.
pub open spec fn compliant(values: Seq<Value>) -> Seq<RawObservation>
    decreases values.len(),
{
    if values.len() == 0 {
        Seq::empty()
    } else {
        let prev = compliant(values.drop_last());
        let o = observation_spec(values.last());
        if is_consistent(o) {
            prev.push(o)
        } else {
            prev
        }
    }
}

/// Counts of a filtering pass: records read and records kept.
#[derive(Clone, Copy, Debug, PartialEq, Eq, Structural)]
pub struct FilterStats {
    pub read: u64,
    pub compliant: u64,
}

impl FilterStats {
    /// Counts of nothing read.
    pub fn new() -> (r: FilterStats)
        ensures
            r.read == 0 && r.compliant == 0,
    {
        FilterStats { read: 0, compliant: 0 }
    }

    /// The counts of two passes taken together.
    pub fn combine(&self, other: &FilterStats) -> (r: FilterStats)
        requires
            self.read + other.read <= u64::MAX,
            self.compliant + other.compliant <= u64::MAX,
        ensures
            r.read == self.read + other.read,
            r.compliant == self.compliant + other.compliant,
    {
        FilterStats {
            read: self.read + other.read,
            compliant: self.compliant + other.compliant,
        }
    }

    /// The number of records dropped.
    pub fn rejected(&self) -> (r: u64)
        requires
            self.compliant <= self.read,
        ensures
            r == self.read - self.compliant,
    {
        self.read - self.compliant
    }
}

/// The observation that a snapshot records.
pub fn to_observation(v: &Value) -> (r: RawObservation)
    ensures
        r == observation_spec(*v),
{
    RawObservation {
        id: v.number as u32,
        date: v.horodate,
        capacity: v.total_stands.capacity as u32,
        bikes: v.total_stands.availabilities.bikes as u32,
        stands: v.total_stands.availabilities.stands as u32,
    }
}

/// Whether an observation meets the capacity-consistency invariant.
pub fn consistent(o: &RawObservation) -> (r: bool)
    ensures
        r == is_consistent(*o),
{
    o.capacity as u64 == o.bikes as u64 + o.stands as u64
}

/// Normalises the snapshots of one input unit: each becomes an observation, and
/// those that break the capacity-consistency invariant are dropped and counted.
pub fn filter_records(values: &Vec<Value>) -> (r: (Vec<RawObservation>, FilterStats))
    requires
        values.len() <= u64::MAX,
    ensures
        r.0@ == compliant(values@),
        r.1.read == values.len(),
        r.1.compliant == r.0.len(),
        r.0.len() <= values.len(),
{
    let mut out: Vec<RawObservation> = Vec::new();
    let mut i: usize = 0;
    while i < values.len()
        invariant
            i <= values.len(),
            out@ == compliant(values@.subrange(0, i as int)),
            out.len() <= i,
        decreases values.len() - i,
    {
        let o = to_observation(&values[i]);
        if consistent(&o) {
            out.push(o);
        }
        proof {
            assert(values@.subrange(0, i + 1).drop_last() =~= values@.subrange(0, i as int));
        }
        i = i + 1;
    }
    assert(values@.subrange(0, values.len() as int) =~= values@);
    let stats = FilterStats { read: values.len() as u64, compliant: out.len() as u64 };
    (out, stats)
}

/// Every observation that filtering keeps meets the capacity-consistency
/// invariant and is the observation of one of the input snapshots; every
/// consistent snapshot is kept.
pub proof fn lemma_compliant(values: Seq<Value>)
    ensures
        forall|k: int| 0 <= k < compliant(values).len() ==> #[trigger] is_consistent(compliant(values)[k]),
        forall|k: int|
            0 <= k < compliant(values).len() ==> exists|i: int|
                0 <= i < values.len() && observation_spec(#[trigger] values[i]) == #[trigger] compliant(values)[k],
        forall|i: int|
            0 <= i < values.len() && is_consistent(observation_spec(values[i])) ==> compliant(
                values,
            ).contains(#[trigger] observation_spec(values[i])),
    decreases values.len(),
{
    if values.len() > 0 {
        let prev = values.drop_last();
        lemma_compliant(prev);
        assert forall|k: int| 0 <= k < compliant(values).len() implies exists|i: int|
            0 <= i < values.len() && observation_spec(#[trigger] values[i]) == #[trigger] compliant(values)[k] by {
            if k < compliant(prev).len() {
                let i = choose|i: int| 0 <= i < prev.len() && observation_spec(#[trigger] prev[i]) == compliant(prev)[k];
                assert(values[i] == prev[i]);
            } else {
                assert(values[values.len() - 1] == values.last());
            }
        }
        assert forall|i: int|
            0 <= i < values.len() && is_consistent(observation_spec(values[i])) implies compliant(
                values,
            ).contains(#[trigger] observation_spec(values[i])) by {
            if i < prev.len() {
                assert(prev[i] == values[i]);
                let k = choose|k: int| 0 <= k < compliant(prev).len() && compliant(prev)[k] == observation_spec(prev[i]);
                assert(compliant(values)[k] == compliant(prev)[k]);
            } else {
                assert(compliant(values).last() == observation_spec(values[i]));
            }
        }
    }
}

} // verus!
