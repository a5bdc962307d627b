use rust_weather_ml::data::api::plan_chunks;
use rust_weather_ml::production::artifacts::{
    check_ensemble_size, check_feature_alignment, check_ridge_manual, check_scaler_shape,
    count_rain_votes, tally_row_votes, ArtifactError, FeatureSource,
};
use rust_weather_ml::production::pipeline::{
    climate_column_names, climate_one_hot, climate_zone_names, first_row_for_city,
    lag_column_name, last_valid_row_for_city, short_name, timestamp_fields, CalendarFields,
    RowKey,
};
use rust_weather_ml::production::predict::{
    anchor_row, preferred_row, rain_flag, AnchorError, RunError, RunTally,
};

fn strings(xs: &[&str]) -> Vec<String> {
    xs.iter().map(|s| s.to_string()).collect()
}

#[test]
fn chunk_plan_covers_range() {
    assert_eq!(plan_chunks(0, 10, 4), vec![(0, 4), (5, 9), (10, 10)]);
    assert_eq!(plan_chunks(0, 8, 4), vec![(0, 4), (5, 8)]);
    assert_eq!(plan_chunks(5, 5, 3), vec![(5, 5)]);
    assert_eq!(plan_chunks(6, 5, 3), Vec::<(i64, i64)>::new());
    assert_eq!(plan_chunks(0, 2, 0), vec![(0, 0), (1, 1), (2, 2)]);
}

#[test]
fn timestamp_fields_parses_open_meteo_times() {
    let f = timestamp_fields("2026-04-18T23:00");
    assert_eq!(
        f,
        CalendarFields { year: 2026, month: 4, day: 18, hour: 23, day_of_week: 5, day_of_year: 108 }
    );
}

#[test]
fn timestamp_fields_falls_back_to_epoch() {
    let f = timestamp_fields("not a time");
    assert_eq!(
        f,
        CalendarFields { year: 1970, month: 1, day: 1, hour: 0, day_of_week: 3, day_of_year: 1 }
    );
}

#[test]
fn lag_names_use_short_names() {
    assert_eq!(short_name("temperature_2m"), "temp");
    assert_eq!(short_name("dewpoint_2m"), "td");
    assert_eq!(short_name("pressure_msl"), "pres");
    assert_eq!(short_name("windspeed_10m"), "wind");
    assert_eq!(short_name("relativehumidity_2m"), "rh");
    assert_eq!(short_name("precipitation"), "precip");
    assert_eq!(short_name("cloudcover"), "x");
    assert_eq!(lag_column_name("temperature_2m", 48), "temp_lag48h");
    assert_eq!(lag_column_name("precipitation", 0), "precip_lag0h");
}

#[test]
fn climate_one_hot_encoding() {
    assert_eq!(climate_zone_names(), vec!["Aw", "BWh", "Cfa", "Cfb", "Csb", "Cwa", "Dfa", "Dfb"]);
    assert_eq!(climate_one_hot("Cfa"), vec![0, 0, 1, 0, 0, 0, 0, 0]);
    assert_eq!(climate_one_hot("Xyz"), vec![0; 8]);
    assert_eq!(climate_column_names()[0], "climate_Aw");
    assert_eq!(climate_column_names()[7], "climate_Dfb");
}

#[test]
fn first_row_finds_city() {
    let col = vec![None, Some("A".to_string()), Some("B".to_string()), Some("B".to_string())];
    assert_eq!(first_row_for_city(&col, "B"), Some(2));
    assert_eq!(first_row_for_city(&col, "C"), None);
}

#[test]
fn last_valid_row_takes_latest_timestamp() {
    let row = |c: &str, ok: bool, t: &str| RowKey {
        city: Some(c.to_string()),
        has_lag48: ok,
        timestamp: Some(t.to_string()),
    };
    let rows = vec![
        row("A", true, "2026-04-18T01:00"),
        row("A", true, "2026-04-18T03:00"),
        row("A", false, "2026-04-18T05:00"),
        row("B", true, "2026-04-18T09:00"),
        row("A", true, "2026-04-18T02:00"),
        row("A", true, "2026-04-18T03:00"),
    ];
    assert_eq!(last_valid_row_for_city(&rows, "A"), Some(1));
    assert_eq!(last_valid_row_for_city(&rows, "B"), Some(3));
    assert_eq!(last_valid_row_for_city(&rows, "C"), None);
}

#[test]
fn anchor_prefers_now_row() {
    assert_eq!(preferred_row(0, 168), Some(71));
    assert_eq!(preferred_row(100, 171), None);
    assert_eq!(anchor_row(Some(168), 336, true, Some(300)), Ok(239));
    assert_eq!(anchor_row(Some(168), 336, false, Some(300)), Ok(300));
    assert_eq!(anchor_row(Some(300), 336, true, Some(310)), Ok(310));
    assert_eq!(anchor_row(Some(0), 168, false, None), Err(AnchorError::NoValidRow));
    assert_eq!(anchor_row(None, 168, true, Some(3)), Err(AnchorError::CityMissing));
}

#[test]
fn rain_flag_reads_first_class() {
    assert!(rain_flag(&[1, 0]));
    assert!(!rain_flag(&[0, 1]));
    assert!(!rain_flag(&[]));
}

#[test]
fn artifact_shape_checks() {
    assert_eq!(check_scaler_shape(3, 3, 3), Ok(()));
    assert_eq!(
        check_scaler_shape(3, 2, 3),
        Err(ArtifactError::ScalerShapeMismatch { means: 3, stds: 2, n_features: 3 })
    );
    assert_eq!(check_ridge_manual("ridge_regression", 4, 4), Ok(()));
    assert_eq!(check_ridge_manual("lasso", 4, 4), Err(ArtifactError::UnexpectedModelType));
    assert_eq!(
        check_ridge_manual("ridge_regression", 5, 4),
        Err(ArtifactError::CoefficientCountMismatch { coefficients: 5, features: 4 })
    );
    assert_eq!(check_ensemble_size(10), Ok(()));
    assert_eq!(check_ensemble_size(0), Err(ArtifactError::EmptyEnsemble));
}

#[test]
fn feature_alignment_reports_first_mismatch() {
    let s = strings(&["a", "b"]);
    let other = strings(&["a"]);
    assert_eq!(check_feature_alignment(&s, &s, &s, &s, &s), Ok(()));
    assert_eq!(
        check_feature_alignment(&s, &s, &other, &other, &s),
        Err(ArtifactError::FeatureNamesMismatch { source: FeatureSource::Ridge48h, scaler: 2, other: 1 })
    );
    let swapped = strings(&["b", "a"]);
    assert_eq!(
        check_feature_alignment(&s, &s, &s, &s, &swapped),
        Err(ArtifactError::FeatureNamesMismatch { source: FeatureSource::Contract, scaler: 2, other: 2 })
    );
}

#[test]
fn rain_votes_are_counted() {
    let trees = vec![vec![1u32, 0], vec![0, 1], vec![1, 1], vec![]];
    assert_eq!(count_rain_votes(&trees), 2);
    assert_eq!(tally_row_votes(&trees, 3), vec![2, 2, 0]);
}

#[test]
fn run_tally_counts_each_city_once() {
    let mut t = RunTally::new(3);
    t.record_fetch(true);
    t.record_fetch(false);
    t.record_fetch(true);
    assert_eq!(t.check_fetched(), Ok(()));
    t.record_prediction(true);
    t.record_prediction(false);
    assert_eq!(t.predicted, 1);
    assert_eq!(t.n_failed(), 2);
    assert_eq!(t.predicted + t.n_failed(), t.n_cities);
}

#[test]
fn run_tally_aborts_when_no_city_was_fetched() {
    let mut t = RunTally::new(2);
    t.record_fetch(false);
    t.record_fetch(false);
    assert_eq!(t.check_fetched(), Err(RunError::NoCitySucceeded));
    assert_eq!(t.n_failed(), 2);
}

#[test]
fn plan_chunks_reaches_the_largest_day() {
    assert_eq!(
        plan_chunks(i64::MAX - 3, i64::MAX, i64::MAX),
        vec![(i64::MAX - 3, i64::MAX)]
    );
    assert_eq!(
        plan_chunks(i64::MAX - 3, i64::MAX, 1),
        vec![(i64::MAX - 3, i64::MAX - 2), (i64::MAX - 1, i64::MAX)]
    );
}
