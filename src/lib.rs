//! Feature-merge pipeline and nearest-context matching engine for bike-station
//! availability prediction.
//!
//! Raw station telemetry is normalised (`telemetry`, `pipeline`), deduplicated
//! and ordered (`dedup`), joined with hourly weather (`weather`) and school
//! holidays (`calendar`) into `MergedData` feature vectors (`merge`), split into
//! per-station shards (`store`), and queried either by exact calendar slot for
//! past instants or by weighted nearest neighbour (`distance`) for future
//! instants (`engine`).
mod args;
mod benchmark;
mod calendar;
mod dedup;
mod distance;
mod engine;
mod merge;
mod pipeline;
mod shards;
mod store;
mod telemetry;
mod weather;

pub use args::{command_spec, Args, Command, VelovPage};
pub use benchmark::{
    benchmark_error, benchmark_station, held_out, seq_sum, sort_errors, sorted_asc,
    summarize_errors, ErrorSummary, BENCHMARK_PERCENTAGE,
};
pub use calendar::{
    calendar_slot, calendar_slot_spec, day_number, hour_of, hour_start, is_holiday,
    is_holiday_spec, slot_spec, truncate_to_hour, utc_month_day_of, weekday_of, CalendarSlot,
    SchoolHolidays, SECONDS_PER_DAY, SECONDS_PER_HOUR,
};
pub use dedup::{
    dedup_and_sort, dedup_sort, has_key, insert_sorted, is_first_of_key, is_slot, precedes,
    lemma_dedup_idempotent, lemma_dedup_sort_keeps_first, lemma_dedup_sort_of_sorted,
    lemma_dedup_sort_sorted, lemma_station_order, same_key, sorted_strict,
};
pub use distance::{
    distance, distance_spec, lemma_distance_nonneg_symmetric, lemma_distance_self, unit_weights,
    DistanceWeights, SCALE,
};
pub use engine::{
    availability_spec, find_exact, first_match_spec, is_first_match, is_nearest,
    lemma_exact_match, lemma_nearest_selection, lemma_station_not_found, nearest, nearest_spec,
    predict, predict_in_series, predict_spec, predictions, predictions_spec, query_spec,
    series_of, series_outcome, slot_matches, AvailabilityData, QueryError,
};
pub use merge::{
    feature_spec, first_error, merge_data, merge_observation, merge_spec, merged_spec,
    MergeError, MergeOutcome, MergedData,
};
pub use pipeline::{
    compliant_all, filter_velov_data, lemma_dedup_sort_elements, lemma_persisted_order,
    lemma_pipeline_consistent, merge_sources, station_observations, total_len,
};
pub use shards::{
    chunk_shards, concat_shards, dates_increasing, lemma_regroup_restores_order, regroup_shards,
    station_dates_increasing,
};
pub use store::{
    dates_sorted, has_shard, has_station, is_date_slot, lemma_sort_by_date, load_station_shards,
    partition_by_station, shard_ok, shards_ok, sort_by_date, sort_series_by_date,
    station_vectors, store_wf, FeatureStore, StationSeries, StoreLoadError,
};
pub use telemetry::{
    compliant, consistent, filter_records, is_consistent, lemma_compliant, observation_spec,
    to_observation, Availabilities, FilterStats, MainStands, OverflowStands, RawObservation,
    TotalStands, Value,
};
pub use weather::{rows_map, row_spec, rows_spec, Hourly, HourlyUnits, WeatherData, WeatherTable};
