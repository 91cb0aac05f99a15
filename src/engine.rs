use crate::calendar::{calendar_slot, calendar_slot_spec, is_holiday, is_holiday_spec, CalendarSlot, SchoolHolidays};
use crate::distance::{distance, distance_spec, DistanceWeights};
use crate::merge::MergedData;
use crate::store::{has_station, store_wf, FeatureStore};
use crate::weather::{WeatherData, WeatherTable};
use vstd::prelude::*;

verus! {

/// The predicted availability at one station.
#[derive(Clone, Copy, Debug, PartialEq, Eq, Structural)]
pub struct AvailabilityData {
    pub id: u32,
    pub free_stands: u32,
    pub available_bikes: u32,
}

impl AvailabilityData {
    /// The availability that a feature vector records, reported for station `id`.
    pub fn of(id: u32, m: &MergedData) -> (r: AvailabilityData)
        ensures
            r == availability_spec(id, *m),
    {
        AvailabilityData { id, free_stands: m.free_stands, available_bikes: m.available_bikes }
    }
}

pub open spec fn availability_spec(id: u32, m: MergedData) -> AvailabilityData {
    AvailabilityData { id, free_stands: m.free_stands, available_bikes: m.available_bikes }
}

/// Why a query has no result.
#[derive(Clone, Copy, Debug, PartialEq, Eq, Structural)]
pub enum QueryError {
    /// The dataset holds no such station.
    StationNotFound,
    /// No historical vector matches the queried calendar slot.
    DataNotFound,
    /// The forecast has no sample for the queried instant.
    WeatherNotFound,
    /// The queried instant has no calendar date.
    UnrepresentableTime,
}

/// Whether a vector lies in the calendar slot `s`.
pub open spec fn slot_matches(m: MergedData, s: CalendarSlot) -> bool {
    m.month == s.month && m.day == s.day && m.hour == s.hour && m.week_day == s.week_day
}

/// `i` is the first position of `series` in slot `s`.
pub open spec fn is_first_match(series: Seq<MergedData>, s: CalendarSlot, i: int) -> bool {
    &&& 0 <= i < series.len()
    &&& slot_matches(series[i], s)
    &&& forall|k: int| 0 <= k < i ==> !slot_matches(#[trigger] series[k], s)
}

/// `i` is the first position of `series` at minimum distance from `q`.
pub open spec fn is_nearest(series: Seq<MergedData>, q: MergedData, w: DistanceWeights, i: int) -> bool {
    &&& 0 <= i < series.len()
    &&& forall|k: int|
        0 <= k < series.len() ==> distance_spec(series[i], q, w) <= distance_spec(#[trigger] series[k], q, w)
    &&& forall|k: int|
        0 <= k < i ==> distance_spec(#[trigger] series[k], q, w) > distance_spec(series[i], q, w)
}

/// The vector of the first match of slot `s`, if any.
pub open spec fn first_match_spec(series: Seq<MergedData>, s: CalendarSlot) -> Option<MergedData> {
    if exists|i: int| is_first_match(series, s, i) {
        Some(series[choose|i: int| is_first_match(series, s, i)])
    } else {
        None
    }
}

/// The nearest vector to `q`, ties going to the earliest; `None` for an empty series.
pub open spec fn nearest_spec(series: Seq<MergedData>, q: MergedData, w: DistanceWeights) -> Option<MergedData> {
    if series.len() > 0 {
        Some(series[choose|i: int| is_nearest(series, q, w, i)])
    } else {
        None
    }
}

/// The synthetic query vector of a forecast: calendar fields of the instant,
/// its holiday flag and the forecast weather; no availability.
pub open spec fn query_spec(id: u32, date: i64, s: CalendarSlot, holiday: bool, w: WeatherData) -> MergedData {
    MergedData {
        id,
        date,
        hour: s.hour,
        day: s.day,
        month: s.month,
        week_day: s.week_day,
        holidays: holiday,
        free_stands: 0,
        available_bikes: 0,
        precipitation: w.precipitation,
        temperature: w.temperature_2m,
        wind_speed: w.wind_speed_10m,
    }
}

/// The answer for one station's series: for an instant at or before `now`, the
/// first vector of its calendar slot; for a later instant, the nearest vector
/// to the forecast context.
pub open spec fn series_outcome(
    id: u32,
    series: Seq<MergedData>,
    date: i64,
    now: i64,
    holidays: Seq<SchoolHolidays>,
    forecast: Map<i64, WeatherData>,
    w: DistanceWeights,
) -> Result<MergedData, QueryError> {
    if date <= now {
        match calendar_slot_spec(date as int) {
            None => Err(QueryError::UnrepresentableTime),
            Some(s) => match first_match_spec(series, s) {
                Some(m) => Ok(m),
                None => Err(QueryError::DataNotFound),
            },
        }
    } else if !forecast.contains_key(date) {
        Err(QueryError::WeatherNotFound)
    } else {
        match calendar_slot_spec(date as int) {
            None => Err(QueryError::UnrepresentableTime),
            Some(s) => match nearest_spec(
                series,
                query_spec(id, date, s, is_holiday_spec(holidays, date as int), forecast[date]),
                w,
            ) {
                Some(m) => Ok(m),
                None => Err(QueryError::DataNotFound),
            },
        }
    }
}

/// The series of station `id` in a well-formed store's view.
pub open spec fn series_of(v: Seq<(u32, Seq<MergedData>)>, id: u32) -> Seq<MergedData> {
    v[choose|i: int| 0 <= i < v.len() && #[trigger] v[i].0 == id].1
}

/// The answer of the engine for station `id`.
pub open spec fn predict_spec(
    v: Seq<(u32, Seq<MergedData>)>,
    id: u32,
    date: i64,
    now: i64,
    holidays: Seq<SchoolHolidays>,
    forecast: Map<i64, WeatherData>,
    w: DistanceWeights,
) -> Result<MergedData, QueryError> {
    if has_station(v, id) {
        series_outcome(id, series_of(v, id), date, now, holidays, forecast, w)
    } else {
        Err(QueryError::StationNotFound)
    }
}

proof fn lemma_first_match_unique(series: Seq<MergedData>, s: CalendarSlot, i: int)
    requires
        is_first_match(series, s, i),
    ensures
        first_match_spec(series, s) == Some(series[i]),
{
    let j = choose|j: int| is_first_match(series, s, j);
    if j < i {
        assert(!slot_matches(series[j], s));
    } else if i < j {
        assert(!slot_matches(series[i], s));
    }
}

pub(crate) proof fn lemma_nearest_unique(series: Seq<MergedData>, q: MergedData, w: DistanceWeights, i: int)
    requires
        is_nearest(series, q, w, i),
    ensures
        nearest_spec(series, q, w) == Some(series[i]),
{
    let j = choose|j: int| is_nearest(series, q, w, j);
    if j < i {
        assert(distance_spec(series[j], q, w) > distance_spec(series[i], q, w));
        assert(distance_spec(series[j], q, w) <= distance_spec(series[i], q, w));
    } else if i < j {
        assert(distance_spec(series[i], q, w) > distance_spec(series[j], q, w));
        assert(distance_spec(series[i], q, w) <= distance_spec(series[j], q, w));
    }
}

/// The first position of `series` in calendar slot `slot`: the exact-match
/// lookup, scanning in time order.
pub fn find_exact(series: &Vec<MergedData>, slot: &CalendarSlot) -> (r: Option<usize>)
    ensures
        r matches Some(i) ==> is_first_match(series@, *slot, i as int),
        r is None ==> forall|k: int| 0 <= k < series@.len() ==> !slot_matches(#[trigger] series@[k], *slot),
{
    let mut i: usize = 0;
    while i < series.len()
        invariant
            i <= series.len(),
            forall|k: int| 0 <= k < i ==> !slot_matches(#[trigger] series@[k], *slot),
        decreases series.len() - i,
    {
        let m = &series[i];
        if m.month == slot.month && m.day == slot.day && m.hour == slot.hour && m.week_day
            == slot.week_day {
            return Some(i);
        }
        i = i + 1;
    }
    None
}

/// The first position of `series` at minimum distance from `query`: a linear
/// nearest-neighbour scan whose ties go to the earliest vector.
pub fn nearest(series: &Vec<MergedData>, query: &MergedData, weights: &DistanceWeights) -> (r: Option<usize>)
    ensures
        r is None <==> series.len() == 0,
        r matches Some(i) ==> is_nearest(series@, *query, *weights, i as int),
{
    if series.len() == 0 {
        return None;
    }
    let mut best: usize = 0;
    let mut best_d: u128 = distance(&series[0], query, weights);
    let mut i: usize = 1;
    while i < series.len()
        invariant
            1 <= i <= series.len(),
            best < i,
            best_d == distance_spec(series@[best as int], *query, *weights),
            forall|k: int| 0 <= k < i ==> best_d <= distance_spec(#[trigger] series@[k], *query, *weights),
            forall|k: int| 0 <= k < best ==> distance_spec(#[trigger] series@[k], *query, *weights) > best_d,
        decreases series.len() - i,
    {
        let d = distance(&series[i], query, weights);
        if d < best_d {
            best = i;
            best_d = d;
        }
        i = i + 1;
    }
    Some(best)
}

/// Answers a query against one station's series (see `series_outcome`).
pub fn predict_in_series(
    id: u32,
    series: &Vec<MergedData>,
    date: i64,
    now: i64,
    holidays: &Vec<SchoolHolidays>,
    forecast: &WeatherTable,
    weights: &DistanceWeights,
) -> (r: Result<MergedData, QueryError>)
    ensures
        r == series_outcome(id, series@, date, now, holidays@, forecast@, *weights),
{
    if date <= now {
        let slot = match calendar_slot(date) {
            Some(s) => s,
            None => {
                return Err(QueryError::UnrepresentableTime);
            },
        };
        match find_exact(series, &slot) {
            Some(i) => {
                proof {
                    lemma_first_match_unique(series@, slot, i as int);
                }
                Ok(series[i])
            },
            None => Err(QueryError::DataNotFound),
        }
    } else {
        let weather = match forecast.get(date) {
            Some(w) => w,
            None => {
                return Err(QueryError::WeatherNotFound);
            },
        };
        let slot = match calendar_slot(date) {
            Some(s) => s,
            None => {
                return Err(QueryError::UnrepresentableTime);
            },
        };
        let query = MergedData {
            id,
            date,
            hour: slot.hour,
            day: slot.day,
            month: slot.month,
            week_day: slot.week_day,
            holidays: is_holiday(holidays, date),
            free_stands: 0,
            available_bikes: 0,
            precipitation: weather.precipitation,
            temperature: weather.temperature_2m,
            wind_speed: weather.wind_speed_10m,
        };
        match nearest(series, &query, weights) {
            Some(i) => {
                proof {
                    lemma_nearest_unique(series@, query, *weights, i as int);
                }
                Ok(series[i])
            },
            None => Err(QueryError::DataNotFound),
        }
    }
}

/// Answers an availability query for station `id` at the instant `date`,
/// `now` being the current time: `StationNotFound` for an unknown station,
/// else as `series_outcome` says.
pub fn predict(
    store: &FeatureStore,
    id: u32,
    date: i64,
    now: i64,
    holidays: &Vec<SchoolHolidays>,
    forecast: &WeatherTable,
    weights: &DistanceWeights,
) -> (r: Result<MergedData, QueryError>)
    requires
        store_wf(store@),
    ensures
        r == predict_spec(store@, id, date, now, holidays@, forecast@, *weights),
        r == Err::<MergedData, QueryError>(QueryError::StationNotFound) <==> !has_station(store@, id),
{
    match store.find_station(id) {
        None => Err(QueryError::StationNotFound),
        Some(i) => {
            proof {
                let v = store@;
                let j = choose|j: int| 0 <= j < v.len() && #[trigger] v[j].0 == id;
                if j < i {
                    assert(v[j].0 < v[i as int].0);
                } else if i < j {
                    assert(v[i as int].0 < v[j].0);
                }
            }
            predict_in_series(id, store.series_at(i), date, now, holidays, forecast, weights)
        },
    }
}

/// The availabilities that the stations of `v` from position `n` on predict
/// for `date`; stations without a result are left out.
pub open spec fn predictions_spec(
    v: Seq<(u32, Seq<MergedData>)>,
    n: int,
    date: i64,
    now: i64,
    holidays: Seq<SchoolHolidays>,
    forecast: Map<i64, WeatherData>,
    w: DistanceWeights,
) -> Seq<AvailabilityData>
    decreases n,
{
    if n <= 0 {
        Seq::empty()
    } else {
        let prev = predictions_spec(v, n - 1, date, now, holidays, forecast, w);
        match series_outcome(v[n - 1].0, v[n - 1].1, date, now, holidays, forecast, w) {
            Ok(m) => prev.push(availability_spec(v[n - 1].0, m)),
            Err(_) => prev,
        }
    }
}

/// Predicts the availability at every station for `date`, in station-id
/// order; a station without a result is left out.
pub fn predictions(
    store: &FeatureStore,
    date: i64,
    now: i64,
    holidays: &Vec<SchoolHolidays>,
    forecast: &WeatherTable,
    weights: &DistanceWeights,
) -> (r: Vec<AvailabilityData>)
    ensures
        r@ == predictions_spec(store@, store@.len() as int, date, now, holidays@, forecast@, *weights),
{
    let mut out: Vec<AvailabilityData> = Vec::new();
    let mut i: usize = 0;
    while i < store.len()
        invariant
            i <= store@.len(),
            out@ == predictions_spec(store@, i as int, date, now, holidays@, forecast@, *weights),
        decreases store@.len() - i,
    {
        let id = store.station_id(i);
        match predict_in_series(id, store.series_at(i), date, now, holidays, forecast, weights) {
            Ok(m) => out.push(AvailabilityData::of(id, &m)),
            Err(_) => {},
        }
        i = i + 1;
    }
    out
}

/// A query for a past instant returns, unchanged, the first vector of the
/// station that lies in the instant's calendar slot.
pub proof fn lemma_exact_match(
    v: Seq<(u32, Seq<MergedData>)>,
    id: u32,
    date: i64,
    now: i64,
    holidays: Seq<SchoolHolidays>,
    forecast: Map<i64, WeatherData>,
    w: DistanceWeights,
    i: int,
)
    requires
        store_wf(v),
        has_station(v, id),
        date <= now,
        calendar_slot_spec(date as int) is Some,
        is_first_match(series_of(v, id), calendar_slot_spec(date as int).unwrap(), i),
    ensures
        predict_spec(v, id, date, now, holidays, forecast, w) == Ok::<MergedData, QueryError>(
            series_of(v, id)[i],
        ),
{
    lemma_first_match_unique(series_of(v, id), calendar_slot_spec(date as int).unwrap(), i);
}

/// A query for a future instant with forecast weather returns the vector of
/// the station nearest to the query context, the earliest among equals.
pub proof fn lemma_nearest_selection(
    v: Seq<(u32, Seq<MergedData>)>,
    id: u32,
    date: i64,
    now: i64,
    holidays: Seq<SchoolHolidays>,
    forecast: Map<i64, WeatherData>,
    w: DistanceWeights,
    i: int,
)
    requires
        store_wf(v),
        has_station(v, id),
        date > now,
        forecast.contains_key(date),
        calendar_slot_spec(date as int) is Some,
        is_nearest(
            series_of(v, id),
            query_spec(
                id,
                date,
                calendar_slot_spec(date as int).unwrap(),
                is_holiday_spec(holidays, date as int),
                forecast[date],
            ),
            w,
            i,
        ),
    ensures
        predict_spec(v, id, date, now, holidays, forecast, w) == Ok::<MergedData, QueryError>(
            series_of(v, id)[i],
        ),
{
    lemma_nearest_unique(
        series_of(v, id),
        query_spec(
            id,
            date,
            calendar_slot_spec(date as int).unwrap(),
            is_holiday_spec(holidays, date as int),
            forecast[date],
        ),
        w,
        i,
    );
}

/// Querying a station that the dataset does not hold gives `StationNotFound`.
pub proof fn lemma_station_not_found(
    v: Seq<(u32, Seq<MergedData>)>,
    id: u32,
    date: i64,
    now: i64,
    holidays: Seq<SchoolHolidays>,
    forecast: Map<i64, WeatherData>,
    w: DistanceWeights,
)
    requires
        !has_station(v, id),
    ensures
        predict_spec(v, id, date, now, holidays, forecast, w) == Err::<MergedData, QueryError>(
            QueryError::StationNotFound,
        ),
{
}

} // verus!
