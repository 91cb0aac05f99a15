use crate::calendar::{
    calendar_slot, hour_of, hour_start, is_holiday, is_holiday_spec, truncate_to_hour,
    utc_month_day_of, weekday_of, SchoolHolidays, SECONDS_PER_HOUR,
};
use crate::telemetry::RawObservation;
use crate::weather::{WeatherData, WeatherTable};
use vstd::prelude::*;

verus! {

/// A feature vector: one observation of a station merged with its calendar
/// and weather context. `date` is the instant of the source observation (Unix
/// seconds); it orders a station's vectors and is not a distance feature.
/// Weather values are in tenths, as in `WeatherData`; `week_day` counts from
/// Monday = 0.
#[derive(Clone, Copy, Debug, PartialEq, Eq, Structural)]
pub struct MergedData {
    pub id: u32,
    pub date: i64,
    pub hour: u32,
    pub day: u32,
    pub month: u32,
    pub week_day: u32,
    pub holidays: bool,
    pub free_stands: u32,
    pub available_bikes: u32,
    pub precipitation: i32,
    pub temperature: i32,
    pub wind_speed: i32,
}

/// Why an observation cannot be merged.
#[derive(Clone, Copy, Debug, PartialEq, Eq, Structural)]
pub enum MergeError {
    /// No weather sample covers the hour of the observation.
    MissingWeather { id: u32, date: i64 },
    /// The instant of the observation has no calendar date.
    UnrepresentableTime { id: u32, date: i64 },
}

/// The earliest instant whose hour start is representable.
pub open spec fn min_mergeable() -> int {
    i64::MIN + SECONDS_PER_HOUR
}

/// The feature vector of `o` on the date `md`, with the holiday flag `holiday`
/// and the weather sample `w`.
pub open spec fn feature_spec(o: RawObservation, md: (u32, u32), holiday: bool, w: WeatherData) -> MergedData {
    MergedData {
        id: o.id,
        date: o.date,
        hour: hour_of(o.date as int) as u32,
        day: md.1,
        month: md.0,
        week_day: weekday_of(o.date as int) as u32,
        holidays: holiday,
        free_stands: o.stands,
        available_bikes: o.bikes,
        precipitation: w.precipitation,
        temperature: w.temperature_2m,
        wind_speed: w.wind_speed_10m,
    }
}

/// The result of merging one observation with the holiday ranges and the
/// hour-indexed weather.
pub open spec fn merge_spec(
    o: RawObservation,
    holidays: Seq<SchoolHolidays>,
    weather: Map<i64, WeatherData>,
) -> Result<MergedData, MergeError> {
    if o.date < min_mergeable() {
        Err(MergeError::UnrepresentableTime { id: o.id, date: o.date })
    } else if !weather.contains_key(hour_start(o.date as int) as i64) {
        Err(MergeError::MissingWeather { id: o.id, date: o.date })
    } else {
        match utc_month_day_of(o.date as int) {
            None => Err(MergeError::UnrepresentableTime { id: o.id, date: o.date }),
            Some(md) => Ok(
                feature_spec(
                    o,
                    md,
                    is_holiday_spec(holidays, o.date as int),
                    weather[hour_start(o.date as int) as i64],
                ),
            ),
        }
    }
}

/// Merges one observation: the weather sample of its truncated hour and the
/// holiday flag of its date are attached. No weather is ever made up: without
/// a sample for the hour the observation is not mergeable.
pub fn merge_observation(
    o: &RawObservation,
    holidays: &Vec<SchoolHolidays>,
    weather: &WeatherTable,
) -> (r: Result<MergedData, MergeError>)
    ensures
        r == merge_spec(*o, holidays@, weather@),
        r matches Ok(m) ==> 1 <= m.month <= 12 && 1 <= m.day <= 31 && m.hour < 24 && m.week_day < 7,
{
    if o.date < i64::MIN + SECONDS_PER_HOUR {
        return Err(MergeError::UnrepresentableTime { id: o.id, date: o.date });
    }
    let hour = truncate_to_hour(o.date);
    let sample = match weather.get(hour) {
        Some(w) => w,
        None => {
            return Err(MergeError::MissingWeather { id: o.id, date: o.date });
        },
    };
    let slot = match calendar_slot(o.date) {
        Some(s) => s,
        None => {
            return Err(MergeError::UnrepresentableTime { id: o.id, date: o.date });
        },
    };
    Ok(
        MergedData {
            id: o.id,
            date: o.date,
            hour: slot.hour,
            day: slot.day,
            month: slot.month,
            week_day: slot.week_day,
            holidays: is_holiday(holidays, o.date),
            free_stands: o.stands,
            available_bikes: o.bikes,
            precipitation: sample.precipitation,
            temperature: sample.temperature_2m,
            wind_speed: sample.wind_speed_10m,
        },
    )
}

/// The feature vectors of the mergeable observations of `s`, in order.
pub open spec fn merged_spec(
    s: Seq<RawObservation>,
    holidays: Seq<SchoolHolidays>,
    weather: Map<i64, WeatherData>,
) -> Seq<MergedData>
    decreases s.len(),
{
    if s.len() == 0 {
        Seq::empty()
    } else {
        let prev = merged_spec(s.drop_last(), holidays, weather);
        match merge_spec(s.last(), holidays, weather) {
            Ok(m) => prev.push(m),
            Err(_) => prev,
        }
    }
}

/// The error of the first observation of `s` that cannot be merged.
pub open spec fn first_error(
    s: Seq<RawObservation>,
    holidays: Seq<SchoolHolidays>,
    weather: Map<i64, WeatherData>,
) -> Option<MergeError>
    decreases s.len(),
{
    if s.len() == 0 {
        None
    } else {
        match first_error(s.drop_last(), holidays, weather) {
            Some(e) => Some(e),
            None => match merge_spec(s.last(), holidays, weather) {
                Ok(_) => None,
                Err(e) => Some(e),
            },
        }
    }
}

/// What a merge produced: the feature vectors and the number of observations
/// skipped for want of weather or of a calendar date.
#[derive(Clone, Debug)]
pub struct MergeOutcome {
    pub merged: Vec<MergedData>,
    pub skipped: u64,
}

/// Merges every observation with the holiday ranges and the hourly weather.
/// In strict mode the first observation that cannot be merged aborts the whole
/// merge with its error; otherwise such observations are skipped and counted.
pub fn merge_data(
    observations: &Vec<RawObservation>,
    holidays: &Vec<SchoolHolidays>,
    weather: &WeatherTable,
    strict: bool,
) -> (r: Result<MergeOutcome, MergeError>)
    requires
        observations.len() <= u64::MAX,
    ensures
        strict && first_error(observations@, holidays@, weather@) is Some ==> r == Err::<
            MergeOutcome,
            MergeError,
        >(first_error(observations@, holidays@, weather@).unwrap()),
        !strict || first_error(observations@, holidays@, weather@) is None ==> r is Ok,
        r matches Ok(out) ==> out.merged@ == merged_spec(observations@, holidays@, weather@)
            && out.skipped + out.merged.len() == observations.len(),
{
    let mut merged: Vec<MergedData> = Vec::new();
    let mut skipped: u64 = 0;
    let mut i: usize = 0;
    while i < observations.len()
        invariant
            i <= observations.len(),
            observations.len() <= u64::MAX,
            merged@ == merged_spec(observations@.subrange(0, i as int), holidays@, weather@),
            skipped + merged.len() == i,
            strict ==> first_error(observations@.subrange(0, i as int), holidays@, weather@) is None,
        decreases observations.len() - i,
    {
        proof {
            let t = observations@.subrange(0, i + 1);
            assert(t.drop_last() =~= observations@.subrange(0, i as int));
        }
        match merge_observation(&observations[i], holidays, weather) {
            Ok(m) => merged.push(m),
            Err(e) => {
                if strict {
                    proof {
                        lemma_first_error_prefix(observations@, holidays@, weather@, i as int + 1);
                    }
                    return Err(e);
                }
                skipped = skipped + 1;
            },
        }
        i = i + 1;
    }
    assert(observations@.subrange(0, observations.len() as int) =~= observations@);
    Ok(MergeOutcome { merged, skipped })
}

/// Once a prefix holds an error, the first error of the whole sequence is the
/// first error of that prefix.
proof fn lemma_first_error_prefix(
    s: Seq<RawObservation>,
    holidays: Seq<SchoolHolidays>,
    weather: Map<i64, WeatherData>,
    n: int,
)
    requires
        0 <= n <= s.len(),
        first_error(s.subrange(0, n), holidays, weather) is Some,
    ensures
        first_error(s, holidays, weather) == first_error(s.subrange(0, n), holidays, weather),
    decreases s.len() - n,
{
    if n < s.len() {
        let t = s.subrange(0, n + 1);
        assert(t.drop_last() =~= s.subrange(0, n));
        lemma_first_error_prefix(s, holidays, weather, n + 1);
    } else {
        assert(s.subrange(0, n) =~= s);
    }
}

} // verus!
