use velovite::{
    dedup_and_sort, filter_records, filter_velov_data, is_holiday, merge_data,
    merge_observation, truncate_to_hour, Availabilities, FilterStats, Hourly, MergeError,
    RawObservation, SchoolHolidays, TotalStands, MainStands, Value, WeatherData, WeatherTable,
};

fn snapshot(number: u16, horodate: i64, capacity: u16, bikes: u16, stands: u16) -> Value {
    let a = Availabilities {
        bikes,
        electrical_bikes: 0,
        electrical_internal_battery_bikes: 0,
        electrical_removable_battery_bikes: 0,
        mechanical_bikes: bikes,
        stands,
    };
    Value {
        horodate,
        main_stands: MainStands { availabilities: a, capacity },
        number,
        overflow_stands: None,
        status: "OPEN".to_string(),
        total_stands: TotalStands { availabilities: a, capacity },
    }
}

fn obs(id: u32, date: i64, bikes: u32) -> RawObservation {
    RawObservation { id, date, capacity: 20, bikes, stands: 20 - bikes }
}

fn sample(temperature: i32) -> WeatherData {
    WeatherData {
        temperature_2m: temperature,
        precipitation: 3,
        weather_code: None,
        wind_speed_10m: 40,
        precipitation_probability: None,
    }
}

#[test]
fn filter_drops_inconsistent_snapshots() {
    let values = vec![
        snapshot(7055, 100, 20, 5, 15),
        snapshot(7055, 200, 20, 5, 14),
        snapshot(8052, 300, 16, 16, 0),
    ];
    let (kept, stats) = filter_records(&values);
    assert_eq!(kept, vec![obs(7055, 100, 5), RawObservation { id: 8052, date: 300, capacity: 16, bikes: 16, stands: 0 }]);
    assert_eq!(stats, FilterStats { read: 3, compliant: 2 });
    assert_eq!(stats.rejected(), 1);
    for o in kept.iter() {
        assert_eq!(o.capacity, o.bikes + o.stands);
    }
}

#[test]
fn stats_combine() {
    let a = FilterStats { read: 3, compliant: 2 };
    let b = FilterStats { read: 5, compliant: 5 };
    assert_eq!(a.combine(&b), FilterStats { read: 8, compliant: 7 });
    assert_eq!(FilterStats::new(), FilterStats { read: 0, compliant: 0 });
}

#[test]
fn dedup_keeps_first_and_sorts() {
    let input = vec![obs(1, 300, 1), obs(2, 100, 2), obs(1, 100, 3), obs(1, 300, 4), obs(2, 100, 5)];
    let out = dedup_and_sort(&input);
    // ordered by instant; at one instant, in input order
    assert_eq!(out, vec![obs(2, 100, 2), obs(1, 100, 3), obs(1, 300, 1)]);
}

#[test]
fn dedup_is_idempotent() {
    let input = vec![obs(3, 50, 1), obs(1, 10, 2), obs(3, 50, 9), obs(2, 10, 3), obs(1, 70, 4)];
    let once = dedup_and_sort(&input);
    let twice = dedup_and_sort(&once);
    assert_eq!(once, twice);
}

#[test]
fn dedup_orders_each_station_strictly() {
    let input = vec![obs(1, 500, 1), obs(2, 400, 2), obs(1, 100, 3), obs(1, 300, 4), obs(2, 50, 5)];
    let out = dedup_and_sort(&input);
    for i in 0..out.len() {
        for j in i + 1..out.len() {
            if out[i].id == out[j].id {
                assert!(out[i].date < out[j].date);
            }
        }
    }
    assert_eq!(out.len(), 5);
}

#[test]
fn pipeline_filters_dedups_and_sorts() {
    let units = vec![
        vec![snapshot(1, 300, 10, 5, 5), snapshot(1, 100, 10, 5, 4)],
        vec![snapshot(1, 300, 10, 2, 8), snapshot(2, 200, 10, 1, 9)],
    ];
    let (out, stats) = filter_velov_data(&units);
    assert_eq!(stats, FilterStats { read: 4, compliant: 3 });
    assert_eq!(out.len(), 2);
    assert_eq!((out[0].id, out[0].date), (2, 200));
    assert_eq!((out[1].id, out[1].date, out[1].bikes), (1, 300, 5));
}

#[test]
fn truncation_to_hour() {
    assert_eq!(truncate_to_hour(1737981296), 1737979200);
    assert_eq!(truncate_to_hour(1737979200), 1737979200);
    assert_eq!(truncate_to_hour(-1), -3600);
}

#[test]
fn holiday_bounds_are_inclusive() {
    let h = vec![SchoolHolidays { start: 20108, end: 20115 }];
    assert!(is_holiday(&h, 1737979200)); // day 20115, last day
    assert!(is_holiday(&h, 20108 * 86400)); // first second of the first day
    assert!(!is_holiday(&h, 20108 * 86400 - 1));
    assert!(!is_holiday(&h, 20116 * 86400));
    assert!(!is_holiday(&vec![], 0));
}

#[test]
fn merge_attaches_weather_of_truncated_hour() {
    let mut w = WeatherTable::new();
    w.insert(1737979200, sample(55));
    let holidays = vec![SchoolHolidays { start: 20115, end: 20115 }];
    let m = merge_observation(&obs(7055, 1737981296, 6), &holidays, &w).unwrap();
    assert_eq!((m.id, m.hour, m.day, m.month, m.week_day), (7055, 12, 27, 1, 0));
    assert!(m.holidays);
    assert_eq!((m.free_stands, m.available_bikes), (14, 6));
    assert_eq!((m.temperature, m.precipitation, m.wind_speed), (55, 3, 40));
}

#[test]
fn merge_without_weather_is_an_error() {
    let w = WeatherTable::new();
    assert_eq!(
        merge_observation(&obs(7055, 1737981296, 6), &vec![], &w),
        Err(MergeError::MissingWeather { id: 7055, date: 1737981296 })
    );
    assert_eq!(
        merge_observation(&obs(7055, i64::MIN, 6), &vec![], &w),
        Err(MergeError::UnrepresentableTime { id: 7055, date: i64::MIN })
    );
}

#[test]
fn merge_strict_aborts_and_lenient_skips() {
    let mut w = WeatherTable::new();
    w.insert(0, sample(10));
    let input = vec![obs(1, 10, 1), obs(1, 4000, 2), obs(1, 20, 3)];
    let lenient = merge_data(&input, &vec![], &w, false).unwrap();
    assert_eq!(lenient.skipped, 1);
    assert_eq!(lenient.merged.len(), 2);
    assert_eq!(lenient.merged[1].available_bikes, 3);
    assert_eq!(
        merge_data(&input, &vec![], &w, true).unwrap_err(),
        MergeError::MissingWeather { id: 1, date: 4000 }
    );
}

#[test]
fn hourly_columns_become_table() {
    let h = Hourly {
        time: vec![0, 3600, 7200, 3600],
        temperature_2m: vec![10, 20, 30, 40],
        precipitation_probability: Some(vec![1, 2, 3]),
        precipitation: vec![0, 1, 2, 3],
        weather_code: None,
        wind_speed_10m: vec![5, 6, 7, 8, 9],
    };
    assert_eq!(h.rows(), 3);
    let t = WeatherTable::from_hourly(&h);
    assert_eq!(t.len(), 3);
    assert_eq!(t.get(3600).unwrap().temperature_2m, 20);
    assert_eq!(t.get(7200).unwrap().precipitation_probability, Some(3));
    assert!(t.get(10800).is_none());
    let h2 = Hourly { precipitation_probability: None, ..h };
    let t2 = WeatherTable::from_hourly(&h2);
    // the later row of a repeated instant wins
    assert_eq!(t2.get(3600).unwrap().temperature_2m, 40);
}

#[test]
fn persisted_series_follow_time_order() {
    let mut w = WeatherTable::new();
    for h in 0..4 {
        w.insert(h * 3600, sample(10 * h as i32));
    }
    // out of order, with a duplicate and an observation without weather
    let input = vec![
        obs(2, 7300, 4),
        obs(1, 3700, 2),
        obs(1, 10900, 3),
        obs(1, 100, 1),
        obs(1, 3700, 9),
        obs(1, 20000, 7),
    ];
    let sorted = dedup_and_sort(&input);
    let merged = merge_data(&sorted, &vec![], &w, false).unwrap();
    assert_eq!(merged.skipped, 1);
    let store = velovite::partition_by_station(&merged.merged);
    let one = store.series_at(store.find_station(1).unwrap());
    let bikes: Vec<u32> = one.iter().map(|m| m.available_bikes).collect();
    assert_eq!(bikes, vec![1, 2, 3]);
    let temps: Vec<i32> = one.iter().map(|m| m.temperature).collect();
    assert_eq!(temps, vec![0, 10, 30]);
}

#[test]
fn sorted_input_is_left_unchanged() {
    // same instant, station 2 before station 1: already ordered, no duplicate
    let input = vec![obs(2, 100, 1), obs(1, 100, 2), obs(1, 200, 3)];
    assert_eq!(dedup_and_sort(&input), input);
    let units = vec![vec![snapshot(2, 100, 10, 5, 5), snapshot(1, 100, 10, 4, 6)]];
    let (out, _) = filter_velov_data(&units);
    assert_eq!((out[0].id, out[1].id), (2, 1));
}
