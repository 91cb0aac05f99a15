use std::collections::HashMap;
use vstd::prelude::*;

verus! {

broadcast use vstd::std_specs::hash::group_hash_axioms;

/// Units of the hourly weather columns, as the weather service labels them.
#[derive(Clone, Debug)]
pub struct HourlyUnits {
    pub time: String,
    pub temperature_2m: String,
    pub precipitation_probability: Option<String>,
    pub precipitation: String,
    pub weather_code: Option<String>,
    pub wind_speed_10m: String,
}

/// One hourly weather sample. Measurements are fixed-point, in tenths of
/// their unit: temperature in 0.1 °C, precipitation in 0.1 mm, wind speed in
/// 0.1 km/h.
#[derive(Clone, Copy, Debug, PartialEq, Eq, Structural)]
pub struct WeatherData {
    pub temperature_2m: i32,
    pub precipitation: i32,
    pub weather_code: Option<i64>,
    pub wind_speed_10m: i32,
    pub precipitation_probability: Option<i64>,
}

/// Hourly weather in columns: the i-th entry of each column belongs to the
/// instant `time[i]` (Unix seconds). Measurements are in tenths, as in
/// `WeatherData`.
#[derive(Clone, Debug)]
pub struct Hourly {
    pub time: Vec<i64>,
    pub temperature_2m: Vec<i32>,
    pub precipitation_probability: Option<Vec<i64>>,
    pub precipitation: Vec<i32>,
    pub weather_code: Option<Vec<i64>>,
    pub wind_speed_10m: Vec<i32>,
}

/// The smaller of two lengths.
pub open spec fn min_len(a: nat, b: nat) -> nat {
    if a <= b {
        a
    } else {
        b
    }
}

/// The length of an optional column, bounded by `other`; `other` when absent.
pub open spec fn opt_len(c: Option<Vec<i64>>, other: nat) -> nat {
    match c {
        Some(v) => min_len(v@.len(), other),
        None => other,
    }
}

/// The number of complete rows: the length of the shortest column present.
pub open spec fn rows_spec(h: Hourly) -> nat {
    opt_len(
        h.weather_code,
        opt_len(
            h.precipitation_probability,
            min_len(
                min_len(h.time@.len(), h.temperature_2m@.len()),
                min_len(h.precipitation@.len(), h.wind_speed_10m@.len()),
            ),
        ),
    )
}

/// Entry `i` of an optional column.
pub open spec fn opt_at(c: Option<Vec<i64>>, i: int) -> Option<i64> {
    match c {
        Some(v) => Some(v@[i]),
        None => None,
    }
}

/// The sample of row `i`.
pub open spec fn row_spec(h: Hourly, i: int) -> WeatherData {
    WeatherData {
        temperature_2m: h.temperature_2m@[i],
        precipitation: h.precipitation@[i],
        weather_code: opt_at(h.weather_code, i),
        wind_speed_10m: h.wind_speed_10m@[i],
        precipitation_probability: opt_at(h.precipitation_probability, i),
    }
}

/// The first `n` rows keyed by instant; a later row replaces an earlier one
/// with the same instant.
pub open spec fn rows_map(h: Hourly, n: int) -> Map<i64, WeatherData>
    decreases n,
{
    if n <= 0 {
        Map::empty()
    } else {
        rows_map(h, n - 1).insert(h.time@[n - 1], row_spec(h, n - 1))
    }
}

/// Hour-indexed weather samples, keyed by the Unix time of the hour's start.
#[derive(Clone, Debug)]
pub struct WeatherTable {
    samples: HashMap<i64, WeatherData>,
}

impl View for WeatherTable {
    type V = Map<i64, WeatherData>;

    closed spec fn view(&self) -> Map<i64, WeatherData> {
        self.samples@
    }
}

fn column_len(c: &Option<Vec<i64>>, other: usize) -> (r: usize)
    ensures
        r == opt_len(*c, other as nat),
{
    match c {
        Some(v) => if v.len() <= other {
            v.len()
        } else {
            other
        },
        None => other,
    }
}

fn column_at(c: &Option<Vec<i64>>, i: usize) -> (r: Option<i64>)
    requires
        c matches Some(v) ==> i < v.len(),
    ensures
        r == opt_at(*c, i as int),
{
    match c {
        Some(v) => Some(v[i]),
        None => None,
    }
}

fn smaller(a: usize, b: usize) -> (r: usize)
    ensures
        r == min_len(a as nat, b as nat),
{
    if a <= b {
        a
    } else {
        b
    }
}

impl Hourly {
    /// The number of complete rows.
    pub fn rows(&self) -> (r: usize)
        ensures
            r == rows_spec(*self),
    {
        let base = smaller(
            smaller(self.time.len(), self.temperature_2m.len()),
            smaller(self.precipitation.len(), self.wind_speed_10m.len()),
        );
        column_len(&self.weather_code, column_len(&self.precipitation_probability, base))
    }

    /// The sample of row `i`.
    pub fn row(&self, i: usize) -> (r: WeatherData)
        requires
            i < rows_spec(*self),
        ensures
            r == row_spec(*self, i as int),
    {
        WeatherData {
            temperature_2m: self.temperature_2m[i],
            precipitation: self.precipitation[i],
            weather_code: column_at(&self.weather_code, i),
            wind_speed_10m: self.wind_speed_10m[i],
            precipitation_probability: column_at(&self.precipitation_probability, i),
        }
    }
}

impl WeatherTable {
    /// A table with no sample.
    pub fn new() -> (r: WeatherTable)
        ensures
            r@ == Map::<i64, WeatherData>::empty(),
    {
        WeatherTable { samples: HashMap::new() }
    }

    /// Records the sample of the hour starting at `hour`, replacing any earlier one.
    pub fn insert(&mut self, hour: i64, sample: WeatherData)
        ensures
            final(self)@ == old(self)@.insert(hour, sample),
    {
        self.samples.insert(hour, sample);
    }

    /// The sample recorded for the hour starting at `hour`.
    pub fn get(&self, hour: i64) -> (r: Option<WeatherData>)
        ensures
            r == (if self@.contains_key(hour) {
                Some(self@[hour])
            } else {
                None
            }),
    {
        match self.samples.get(&hour) {
            Some(w) => Some(*w),
            None => None,
        }
    }

    /// The number of hours recorded.
    pub fn len(&self) -> (r: usize)
        ensures
            r == self@.len(),
    {
        self.samples.len()
    }

    /// Indexes columnar hourly weather by instant: row i becomes the sample of
    /// `time[i]`; rows past the shortest column are ignored, and where an
    /// instant repeats the last row wins.
    pub fn from_hourly(hourly: &Hourly) -> (r: WeatherTable)
        ensures
            r@ == rows_map(*hourly, rows_spec(*hourly) as int),
    {
        let n = hourly.rows();
        let mut table = WeatherTable::new();
        let mut i: usize = 0;
        while i < n
            invariant
                n == rows_spec(*hourly),
                i <= n,
                table@ == rows_map(*hourly, i as int),
            decreases n - i,
        {
            let sample = hourly.row(i);
            table.insert(hourly.time[i], sample);
            i = i + 1;
        }
        table
    }
}

} // verus!
