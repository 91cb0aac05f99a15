use velovite::{
    benchmark_station, chunk_shards, load_station_shards, regroup_shards, partition_by_station, sort_errors, summarize_errors,
    Args, Command, DistanceWeights, ErrorSummary, MergedData, StoreLoadError, VelovPage,
};

fn fv(id: u32, hour: u32, bikes: u32) -> MergedData {
    MergedData {
        id,
        date: hour as i64 * 3600,
        hour,
        day: 1,
        month: 1,
        week_day: 0,
        holidays: false,
        free_stands: 10,
        available_bikes: bikes,
        precipitation: 0,
        temperature: 0,
        wind_speed: 0,
    }
}

#[test]
fn partition_groups_by_station_in_order() {
    let store = partition_by_station(&vec![fv(9, 1, 1), fv(3, 2, 2), fv(9, 3, 3), fv(3, 4, 4)]);
    assert_eq!(store.len(), 2);
    assert_eq!(store.station_id(0), 3);
    assert_eq!(store.station_id(1), 9);
    assert_eq!(store.series_at(0), &vec![fv(3, 2, 2), fv(3, 4, 4)]);
    assert_eq!(store.series_at(1), &vec![fv(9, 1, 1), fv(9, 3, 3)]);
    assert_eq!(store.find_station(9), Some(1));
    assert_eq!(store.find_station(4), None);
}

#[test]
fn load_accepts_shards_in_any_order() {
    let store = load_station_shards(vec![vec![fv(9, 1, 1), fv(9, 2, 2)], vec![fv(3, 5, 5)]]).unwrap();
    assert_eq!(store.len(), 2);
    assert_eq!(store.station_id(0), 3);
    assert_eq!(store.series_at(1), &vec![fv(9, 1, 1), fv(9, 2, 2)]);
}

#[test]
fn load_errors() {
    assert_eq!(
        load_station_shards(vec![vec![fv(1, 0, 0)], vec![]]).unwrap_err(),
        StoreLoadError::EmptyShard { index: 1 }
    );
    assert_eq!(
        load_station_shards(vec![vec![fv(1, 0, 0), fv(2, 0, 0)]]).unwrap_err(),
        StoreLoadError::MixedStations { index: 0 }
    );
    assert_eq!(
        load_station_shards(vec![vec![fv(1, 0, 0)], vec![fv(1, 1, 1)]]).unwrap_err(),
        StoreLoadError::DuplicateStation { id: 1 }
    );
    assert_eq!(load_station_shards(vec![]).unwrap().len(), 0);
}

#[test]
fn benchmark_holds_out_last_fifth() {
    let series = vec![
        fv(1, 0, 2),
        fv(1, 5, 7),
        fv(1, 10, 4),
        fv(1, 15, 9),
        fv(1, 6, 1),
        fv(1, 11, 8),
        fv(1, 1, 6),
        fv(1, 2, 2),
        fv(1, 3, 3),
        fv(1, 14, 0),
    ];
    let errors = benchmark_station(&series, &DistanceWeights::default());
    // 2 held out: hour 3 (nearest kept: hour 2, 2 bikes) and hour 14 (nearest: hour 15, 9 bikes)
    assert_eq!(errors, vec![1, 9]);
    assert!(benchmark_station(&series[..4].to_vec(), &DistanceWeights::default()).is_empty());
}

#[test]
fn command_precedence() {
    let a = Args::defaults();
    assert_eq!(a.command(), Command::Serve { populate: false, mock: false });
    let b = Args { merge_datas: true, download_velov_data: true, ..a };
    assert_eq!(b.command(), Command::MergeData { strict: false });
    let c = Args { download_velov_data: true, mock: true, ..a };
    assert_eq!(c.command(), Command::DownloadVelov { max_features: 100, start: 1 });
    let d = Args { benchmark: true, filter_velov_data: true, ..a };
    assert_eq!(d.command(), Command::Benchmark);
}

#[test]
fn velov_paging() {
    let p = VelovPage { index: 3, max_features: 100 };
    assert_eq!(p.start(), 301);
    assert_eq!(p.file_range(), Some((200, 300)));
    assert_eq!(VelovPage { index: 0, max_features: 100 }.file_range(), None);
    let (q, url) = p.advance(Some("next".to_string())).unwrap();
    assert_eq!(q, VelovPage { index: 4, max_features: 100 });
    assert_eq!(url, "next");
    assert!(p.advance(None).is_none());
}

#[test]
fn built_stores_are_well_formed() {
    let store = partition_by_station(&vec![fv(5, 0, 0), fv(2, 1, 1), fv(5, 2, 2)]);
    assert!(store.is_well_formed());
    assert!(velovite::FeatureStore::new().is_well_formed());
    let loaded = load_station_shards(vec![vec![fv(4, 0, 0)], vec![fv(1, 0, 0)]]).unwrap();
    assert!(loaded.is_well_formed());
}

#[test]
fn error_summary() {
    assert_eq!(sort_errors(&vec![5, 1, 4, 1, 3]), vec![1, 1, 3, 4, 5]);
    assert!(sort_errors(&vec![]).is_empty());
    assert_eq!(
        summarize_errors(&vec![5, 1, 4, 2]),
        Some(ErrorSummary { count: 4, total: 12, min: 1, max: 5, median_low: 2, median_high: 4 })
    );
    assert_eq!(
        summarize_errors(&vec![7, 3, 9]),
        Some(ErrorSummary { count: 3, total: 19, min: 3, max: 9, median_low: 7, median_high: 7 })
    );
    assert_eq!(summarize_errors(&vec![]), None);
}

#[test]
fn round_robin_shards_regroup_in_time_order() {
    // a fleet sequence in time order
    let fleet = vec![fv(2, 0, 1), fv(1, 0, 2), fv(2, 1, 3), fv(1, 1, 4), fv(2, 2, 5), fv(3, 2, 6), fv(1, 3, 7)];
    let shards = chunk_shards(&fleet, 3);
    assert_eq!(shards.len(), 3);
    assert_eq!(shards[0], vec![fv(2, 0, 1), fv(1, 1, 4), fv(1, 3, 7)]);
    assert_eq!(shards[1], vec![fv(1, 0, 2), fv(2, 2, 5)]);
    assert_eq!(shards[2], vec![fv(2, 1, 3), fv(3, 2, 6)]);
    let direct = partition_by_station(&fleet);
    // the shards read in any order give every station its series in time order
    for order in [vec![0, 1, 2], vec![2, 1, 0], vec![1, 2, 0]] {
        let read: Vec<Vec<MergedData>> = order.iter().map(|&i| shards[i].clone()).collect();
        let regrouped = regroup_shards(&read);
        assert_eq!(regrouped.len(), 3);
        for i in 0..3 {
            assert_eq!(regrouped.station_id(i), direct.station_id(i));
            assert_eq!(regrouped.series_at(i), direct.series_at(i));
        }
    }
    // one station spread over two shards
    let one = vec![fv(5, 0, 0), fv(5, 1, 1), fv(5, 2, 2), fv(5, 3, 3)];
    let halves = chunk_shards(&one, 2);
    assert_eq!(halves[0], vec![fv(5, 0, 0), fv(5, 2, 2)]);
    assert_eq!(regroup_shards(&halves).series_at(0), &one);
    let more = chunk_shards(&fleet[..2].to_vec(), 4);
    assert_eq!(more.iter().map(|s| s.len()).collect::<Vec<_>>(), vec![1, 1, 0, 0]);
}

#[test]
fn per_station_shards_regroup_too() {
    let shards = vec![vec![fv(9, 1, 1), fv(9, 2, 2)], vec![fv(3, 5, 5)]];
    let store = regroup_shards(&shards);
    assert_eq!(store.station_id(0), 3);
    assert_eq!(store.series_at(1), &vec![fv(9, 1, 1), fv(9, 2, 2)]);
    assert!(store.is_well_formed());
}

#[test]
fn strict_merge_flag_selects_strict_mode() {
    let a = Args { merge_datas: true, strict_merge: true, ..Args::defaults() };
    assert_eq!(a.command(), Command::MergeData { strict: true });
    let b = Args { merge_datas: true, ..Args::defaults() };
    assert_eq!(b.command(), Command::MergeData { strict: false });
}
