use rust_weather_ml::production::drift_monitor::{
    count_distinct_cities, history_index_files, hour_stamp_from_iso, max_observations,
    recent_history_files, tally_bins,
};
use rust_weather_ml::production::text::sort_names;

fn strings(xs: &[&str]) -> Vec<String> {
    xs.iter().map(|s| s.to_string()).collect()
}

#[test]
fn tally_bins_counts_each_bin() {
    assert_eq!(tally_bins(&[0, 2, 2, 1, 2, 7], 3), vec![1, 1, 3]);
    assert_eq!(tally_bins(&[], 2), vec![0, 0]);
    assert_eq!(tally_bins(&[0, 1], 0), Vec::<usize>::new());
}

#[test]
fn distinct_cities_skip_missing_entries() {
    let col = vec![
        Some("Lima".to_string()),
        None,
        Some("Oslo".to_string()),
        Some("Lima".to_string()),
        Some("Oslo".to_string()),
        Some("Rome".to_string()),
    ];
    assert_eq!(count_distinct_cities(&col), 3);
    assert_eq!(count_distinct_cities(&[None, None]), 0);
}

#[test]
fn max_observations_or_zero() {
    assert_eq!(max_observations(&[3, 9, 2]), 9);
    assert_eq!(max_observations(&[]), 0);
}

#[test]
fn hour_stamp_takes_thirteen_characters() {
    assert_eq!(hour_stamp_from_iso("2026-04-15T12:34:56+00:00"), "2026-04-15T12Z");
    assert_eq!(hour_stamp_from_iso("short"), "shortZ");
}

#[test]
fn index_lists_sorted_history_files() {
    let names = strings(&[
        "2026-04-16T09Z.json",
        "latest.json",
        "notes.txt",
        "index.json",
        "2026-04-15T12Z.json",
        ".json",
    ]);
    assert_eq!(
        history_index_files(&names),
        strings(&[".json", "2026-04-15T12Z.json", "2026-04-16T09Z.json"])
    );
}

#[test]
fn recent_history_keeps_last_n_sorted() {
    let names = strings(&[
        "2026-04-17T00Z.json",
        "2026-04-15T00Z.json",
        ".json",
        "readme.md",
        "index.json",
        "2026-04-16T00Z.json",
        "latest.json",
    ]);
    assert_eq!(
        recent_history_files(&names, 2),
        strings(&["2026-04-16T00Z.json", "2026-04-17T00Z.json"])
    );
    assert_eq!(recent_history_files(&names, 0), Vec::<String>::new());
    assert_eq!(
        recent_history_files(&names, 10),
        strings(&["2026-04-15T00Z.json", "2026-04-16T00Z.json", "2026-04-17T00Z.json"])
    );
}

#[test]
fn sort_names_orders_by_code_point() {
    let v = strings(&["b", "B", "a", "ab", "", "é", "a"]);
    let mut expected = v.clone();
    expected.sort();
    assert_eq!(sort_names(&v), expected);
}
