use velovite::{
    calendar_slot, distance, partition_by_station, predict, predictions, DistanceWeights,
    MergedData, QueryError, SchoolHolidays, WeatherData, WeatherTable, SCALE,
};

const JAN_27_2025_NOON: i64 = 1737979200;
const JUN_03_2030_NOON: i64 = 1906718400;
const NOW: i64 = 1790000000;

fn vector(id: u32, temperature: i32, bikes: u32) -> MergedData {
    MergedData {
        id,
        date: 0,
        hour: 12,
        day: 27,
        month: 1,
        week_day: 0,
        holidays: false,
        free_stands: 20 - bikes,
        available_bikes: bikes,
        precipitation: 0,
        temperature,
        wind_speed: 50,
    }
}

fn forecast_at(date: i64, temperature: i32) -> WeatherTable {
    let mut t = WeatherTable::new();
    t.insert(
        date,
        WeatherData {
            temperature_2m: temperature,
            precipitation: 0,
            weather_code: None,
            wind_speed_10m: 50,
            precipitation_probability: None,
        },
    );
    t
}

fn june_vector(id: u32, temperature: i32, bikes: u32) -> MergedData {
    MergedData { day: 3, month: 6, ..vector(id, temperature, bikes) }
}

#[test]
fn distance_to_itself_is_zero() {
    let v = vector(7055, 123, 4);
    assert_eq!(distance(&v, &v, &DistanceWeights::default()), 0);
}

#[test]
fn distance_matches_weighted_formula() {
    let a = vector(1, 200, 3);
    let mut b = vector(1, 240, 3);
    // 4 degrees apart: (4/40)^2 = 0.01 of SCALE
    assert_eq!(distance(&a, &b, &DistanceWeights::default()), SCALE as u128 / 100);
    b.hour = 0;
    b.holidays = true;
    // + (12/24)^2 = 0.25, + 1 for the holiday flag
    assert_eq!(
        distance(&a, &b, &DistanceWeights::default()),
        SCALE as u128 / 100 + SCALE as u128 / 4 + SCALE as u128
    );
    let mut w = DistanceWeights::default();
    w.temperature = 3;
    w.hour = 0;
    w.holidays = 0;
    assert_eq!(distance(&a, &b, &w), 3 * (SCALE as u128 / 100));
    // raw day difference, not modulo the month
    let c = MergedData { day: 1, ..a };
    let d = MergedData { day: 29, ..a };
    assert_eq!(distance(&c, &d, &DistanceWeights::default()), 16 * SCALE as u128);
}

#[test]
fn calendar_slot_of_known_instant() {
    let s = calendar_slot(JAN_27_2025_NOON + 34 * 60 + 56).unwrap();
    assert_eq!((s.month, s.day, s.hour, s.week_day), (1, 27, 12, 0));
    let s = calendar_slot(1706356800).unwrap();
    assert_eq!((s.month, s.day, s.hour, s.week_day), (1, 27, 12, 5));
    let s = calendar_slot(-1).unwrap();
    assert_eq!((s.month, s.day, s.hour, s.week_day), (12, 31, 23, 2));
    assert!(calendar_slot(i64::MAX).is_none());
}

#[test]
fn exact_match_returns_first_in_order() {
    let store = partition_by_station(&vec![vector(7055, 50, 3), vector(7055, 90, 5)]);
    let r = predict(
        &store,
        7055,
        JAN_27_2025_NOON,
        NOW,
        &vec![],
        &WeatherTable::new(),
        &DistanceWeights::default(),
    )
    .unwrap();
    assert_eq!(r.available_bikes, 3);
    assert_eq!(r.free_stands, 17);
}

#[test]
fn exact_match_keeps_availability_unchanged() {
    let v = MergedData { free_stands: 11, available_bikes: 9, ..vector(7055, 0, 0) };
    let store = partition_by_station(&vec![vector(7055, 0, 1).clone(), v]);
    let store_first = partition_by_station(&vec![v]);
    let r = predict(
        &store_first,
        7055,
        JAN_27_2025_NOON,
        NOW,
        &vec![],
        &WeatherTable::new(),
        &DistanceWeights::default(),
    )
    .unwrap();
    assert_eq!(r, v);
    // an instant exactly at `now` is still historical
    let r = predict(
        &store,
        7055,
        JAN_27_2025_NOON,
        JAN_27_2025_NOON,
        &vec![],
        &WeatherTable::new(),
        &DistanceWeights::default(),
    )
    .unwrap();
    assert_eq!(r.available_bikes, 1);
}

#[test]
fn exact_match_absent_slot_is_data_not_found() {
    let other = MergedData { hour: 13, ..vector(7055, 0, 1) };
    let store = partition_by_station(&vec![other]);
    let r = predict(
        &store,
        7055,
        JAN_27_2025_NOON,
        NOW,
        &vec![],
        &WeatherTable::new(),
        &DistanceWeights::default(),
    );
    assert_eq!(r, Err(QueryError::DataNotFound));
}

#[test]
fn unknown_station_is_station_not_found() {
    let store = partition_by_station(&vec![vector(7055, 0, 1)]);
    let r = predict(
        &store,
        8052,
        JAN_27_2025_NOON,
        NOW,
        &vec![],
        &WeatherTable::new(),
        &DistanceWeights::default(),
    );
    assert_eq!(r, Err(QueryError::StationNotFound));
}

#[test]
fn forecast_without_weather_is_weather_not_found() {
    let store = partition_by_station(&vec![june_vector(7055, 150, 1)]);
    let r = predict(
        &store,
        7055,
        JUN_03_2030_NOON,
        NOW,
        &vec![],
        &forecast_at(JUN_03_2030_NOON + 3600, 200),
        &DistanceWeights::default(),
    );
    assert_eq!(r, Err(QueryError::WeatherNotFound));
}

#[test]
fn forecast_picks_closer_temperature() {
    // 20 °C forecast; candidates at 17 °C and 25 °C
    let store = partition_by_station(&vec![june_vector(7055, 250, 5), june_vector(7055, 170, 8)]);
    let r = predict(
        &store,
        7055,
        JUN_03_2030_NOON,
        NOW,
        &vec![],
        &forecast_at(JUN_03_2030_NOON, 200),
        &DistanceWeights::default(),
    )
    .unwrap();
    assert_eq!(r.available_bikes, 8);
}

#[test]
fn forecast_equidistant_candidates_take_the_earliest() {
    // 15 °C and 25 °C are equally close to 20 °C
    let store = partition_by_station(&vec![june_vector(7055, 150, 3), june_vector(7055, 250, 5)]);
    let r = predict(
        &store,
        7055,
        JUN_03_2030_NOON,
        NOW,
        &vec![],
        &forecast_at(JUN_03_2030_NOON, 200),
        &DistanceWeights::default(),
    )
    .unwrap();
    assert_eq!(r.available_bikes, 3);
}

#[test]
fn nearest_of_three_distances() {
    // distances 0.5, 0.1 and 0.9 from a 20 °C query: 20, 4 and 36 degrees off
    let store = partition_by_station(&vec![
        june_vector(7055, 400, 1),
        june_vector(7055, 240, 2),
        june_vector(7055, 560, 3),
    ]);
    let r = predict(
        &store,
        7055,
        JUN_03_2030_NOON,
        NOW,
        &vec![],
        &forecast_at(JUN_03_2030_NOON, 200),
        &DistanceWeights::default(),
    )
    .unwrap();
    assert_eq!(r.available_bikes, 2);
}

#[test]
fn forecast_holiday_flag_counts() {
    // on a holiday the holiday candidate wins despite a larger temperature gap
    let plain = june_vector(7055, 200, 1);
    let holiday = MergedData { holidays: true, ..june_vector(7055, 240, 2) };
    let store = partition_by_station(&vec![plain, holiday]);
    let holidays = vec![SchoolHolidays { start: 22060, end: 22070 }];
    let r = predict(
        &store,
        7055,
        JUN_03_2030_NOON,
        NOW,
        &holidays,
        &forecast_at(JUN_03_2030_NOON, 200),
        &DistanceWeights::default(),
    )
    .unwrap();
    assert_eq!(r.available_bikes, 2);
}

#[test]
fn predictions_leave_out_stations_without_match() {
    let store = partition_by_station(&vec![
        vector(8052, 0, 4),
        vector(7055, 0, 3),
        MergedData { hour: 1, ..vector(9000, 0, 6) },
    ]);
    let r = predictions(
        &store,
        JAN_27_2025_NOON,
        NOW,
        &vec![],
        &WeatherTable::new(),
        &DistanceWeights::default(),
    );
    assert_eq!(r.len(), 2);
    assert_eq!((r[0].id, r[0].available_bikes, r[0].free_stands), (7055, 3, 17));
    assert_eq!((r[1].id, r[1].available_bikes, r[1].free_stands), (8052, 4, 16));
    let none = predictions(
        &store,
        JUN_03_2030_NOON,
        NOW,
        &vec![],
        &WeatherTable::new(),
        &DistanceWeights::default(),
    );
    assert!(none.is_empty());
}

#[test]
fn instant_without_calendar_date_is_unrepresentable() {
    let store = partition_by_station(&vec![vector(7055, 0, 1)]);
    let past = predict(
        &store,
        7055,
        i64::MIN,
        NOW,
        &vec![],
        &WeatherTable::new(),
        &DistanceWeights::default(),
    );
    assert_eq!(past, Err(QueryError::UnrepresentableTime));
    let future = predict(
        &store,
        7055,
        i64::MAX,
        NOW,
        &vec![],
        &forecast_at(i64::MAX, 200),
        &DistanceWeights::default(),
    );
    assert_eq!(future, Err(QueryError::UnrepresentableTime));
}
