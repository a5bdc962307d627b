use rust_weather_ml::production::report::{
    build_hourly_details, build_live_block, build_performance_block, build_summary_table,
    local_hour_short, replace_line_multi, rewrite_readme, rewrite_readme_at, DriftFeatureRow,
    DriftSummary, HourlyCity, HourlyRow, ModelMeta, ReadmeError, SummaryCity,
};

const BEGIN_MARK: &str = "<!-- BEGIN:LIVE_PREDICTIONS -->";
const END_MARK: &str = "<!-- END:LIVE_PREDICTIONS -->";

const MIGRATION_FIXTURE: &str = "# Title\n\n## 🌍 Live Weather Predictions\n\n> Auto-updated every 3 h via GitHub Actions | Last run: OLD\n\n### 24-Hour, 48-Hour & 72-Hour Forecast\n\nold summary table garbage\n\n### Hourly Predictions (next 24 h, per city)\n\nold hourly\n\n### Model Performance (held-out test set)\n\nold perf\n\n### Drift Monitor (last run)\n\nold drift\n\n### Hourly Predictions (next 24 h, per city)\n\nduplicate copy\n\n### Model Performance (held-out test set)\n\nduplicate copy\n\n---\n\n## 📋 Project Overview\n\nProject body stays.\n";

/// The stub city of the summary table.
fn stub_summary_cities() -> Vec<SummaryCity> {
    let cur: f64 = 19.0;
    let t: f64 = 20.0;
    let pct = (0.1f64 * 100.0).round() as i32;
    let mm: f64 = 0.0;
    let sigma: f64 = 3.5;
    vec![SummaryCity {
        city: "Test City".to_string(),
        flag: "🏳".to_string(),
        reference_local_time: "2026-04-17T23:00".to_string(),
        figures: format!(
            "{cur:+.1}°C | {p24:+.1}°C | {p48:+.1}°C | {p72:+.1}°C | {pct:>3}% | {mm:.1} mm ({hrs}h) | {ml_pct:>3}% | ±{sigma:.1}°C",
            cur = cur,
            p24 = t,
            p48 = t,
            p72 = t,
            pct = pct,
            mm = mm,
            hrs = 0,
            ml_pct = pct,
            sigma = sigma,
        ),
    }]
}

fn stub_hourly_cities() -> Vec<HourlyCity> {
    let mut rows = Vec::new();
    for k in 1..=24i32 {
        let temp: f64 = 20.0;
        let p = (0.1f64 * 100.0).round() as i32;
        let precip: f64 = 0.0;
        let cloud = (10.0f64).round() as i32;
        let wind: f64 = 5.0;
        rows.push(HourlyRow {
            hour_offset: k,
            local_time: format!("2026-04-18T{:02}:00", (k as u32) % 24),
            figures: format!(
                "{temp:+.1}°C | {rain:>3}% | {nwp:>3}% | {ml:>3}% | {precip:.1} mm | {cloud:>3}% | {wind:>4.1} km/h",
                temp = temp,
                rain = p,
                nwp = p,
                ml = p,
                precip = precip,
                cloud = cloud,
                wind = wind,
            ),
            condition: "Clear".to_string(),
        });
    }
    vec![HourlyCity {
        flag: "🏳".to_string(),
        name: "Test City".to_string(),
        climate_zone: "Cfa".to_string(),
        timezone: "UTC".to_string(),
        rows,
    }]
}

fn stub_metas() -> Vec<ModelMeta> {
    vec![ModelMeta {
        model_24h: "Ridge".to_string(),
        model_48h: "Ridge 48h".to_string(),
        model_72h: "Ridge 72h".to_string(),
        rain_model: "Bagging".to_string(),
        rmse_24h: format!("{:.2}", 3.5f64),
        rmse_48h: format!("{:.2}", 4.5f64),
        rmse_72h: format!("{:.2}", 5.0f64),
        bias_24h: format!("{:+.2}", 0.5f64),
        model_version: "2.0.0".to_string(),
    }]
}

fn stub_drift() -> DriftSummary {
    DriftSummary {
        any_drift: false,
        max_psi: format!("{:.3}", 0.5f64),
        n_observations: 2000,
        n_cities: 14,
        features: vec![DriftFeatureRow {
            name: "temperature_2m".to_string(),
            psi: format!("{:.3}", 0.5f64),
            ks: format!("{:.3}", 0.1f64),
            shift: format!("{:+.2}", 0.2f64),
            status: "moderate".to_string(),
        }],
    }
}

fn stub_block() -> String {
    let summary = build_summary_table(&stub_summary_cities());
    let hourly = build_hourly_details(&stub_hourly_cities());
    let drift = stub_drift();
    let perf = build_performance_block(&stub_metas(), 1, 1, Some(&drift));
    build_live_block(&summary, &hourly, &perf)
}

fn strip_ts(s: &str) -> String {
    s.lines()
        .map(|l| {
            if l.starts_with("> Auto-updated every 3 h") {
                "> Auto-updated every 3 h via GitHub Actions | Last run: <TS>".to_string()
            } else {
                l.to_string()
            }
        })
        .collect::<Vec<_>>()
        .join("\n")
}

#[test]
fn rewrite_is_idempotent() {
    let block = stub_block();
    let first = rewrite_readme(MIGRATION_FIXTURE, &block).unwrap();
    let second = rewrite_readme(&first, &block).unwrap();
    assert_eq!(strip_ts(&first), strip_ts(&second));
}

#[test]
fn rewrite_cleans_up_duplicates() {
    let block = stub_block();
    let out = rewrite_readme(MIGRATION_FIXTURE, &block).unwrap();
    assert_eq!(out.matches("### Hourly Predictions (next 24 h, per city)").count(), 1);
    assert_eq!(out.matches("### Model Performance (held-out test set)").count(), 1);
    assert_eq!(out.matches("### Drift Monitor (last run)").count(), 1);
    let b = out.find(BEGIN_MARK).expect("BEGIN marker inserted");
    let e = out.find(END_MARK).expect("END marker inserted");
    assert!(b < e, "BEGIN must precede END");
    assert!(out.contains("## 📋 Project Overview"));
    assert!(out.contains("Project body stays."));
}

#[test]
fn rewrite_accepts_marker_wrapped_input() {
    let block = stub_block();
    let seeded = rewrite_readme(MIGRATION_FIXTURE, &block).unwrap();
    let again = rewrite_readme(&seeded, &block).unwrap();
    assert!(again.contains(BEGIN_MARK));
    assert!(again.contains(END_MARK));
    assert_eq!(again.matches(BEGIN_MARK).count(), 1);
    assert_eq!(again.matches(END_MARK).count(), 1);
}

#[test]
fn summary_header_uses_as_of_label() {
    let out = build_summary_table(&stub_summary_cities());
    assert!(out.contains("| As of (local) |"));
    assert!(!out.contains("| Now (local) |"));
}

#[test]
fn rewrite_with_fixed_stamp_is_a_fixed_point() {
    let block = stub_block();
    let first = rewrite_readme_at(MIGRATION_FIXTURE, "2026-04-18 21:46 UTC", &block).unwrap();
    let second = rewrite_readme_at(&first, "2026-04-18 21:46 UTC", &block).unwrap();
    assert_eq!(first, second);
    assert!(first.contains("> Auto-updated every 3 h via GitHub Actions | Last run: 2026-04-18 21:46 UTC\n"));
}

#[test]
fn later_rewrite_changes_only_the_banner() {
    let block = stub_block();
    let first = rewrite_readme_at(MIGRATION_FIXTURE, "2026-04-18 21:46 UTC", &block).unwrap();
    let second = rewrite_readme_at(&first, "2026-04-19 00:46 UTC", &block).unwrap();
    let refreshed = replace_line_multi(
        &first,
        &["> Auto-updated daily at 06:00 UTC", "> Auto-updated every 3 h"],
        "> Auto-updated every 3 h via GitHub Actions | Last run: 2026-04-19 00:46 UTC",
    );
    assert_eq!(second, refreshed);
    assert_ne!(first, second);
    assert_eq!(strip_ts(&first), strip_ts(&second));
}

#[test]
fn crlf_readme_settles_after_first_rewrite() {
    let block = stub_block();
    let crlf = MIGRATION_FIXTURE.replace('\n', "\r\n");
    let first = rewrite_readme_at(&crlf, "2026-04-18 21:46 UTC", &block).unwrap();
    assert!(!first.contains("\r\n"));
    let again = rewrite_readme_at(&first, "2026-04-18 21:46 UTC", &block).unwrap();
    assert_eq!(first, again);
    let later = rewrite_readme_at(&first, "2026-04-19 00:46 UTC", &block).unwrap();
    assert_eq!(strip_ts(&first), strip_ts(&later));
    let lone_cr = "intro\rstill intro\n<!-- BEGIN:LIVE_PREDICTIONS -->x<!-- END:LIVE_PREDICTIONS -->\ntail";
    let one = rewrite_readme_at(lone_cr, "S", &block).unwrap();
    assert_eq!(rewrite_readme_at(&one, "S", &block).unwrap(), one);
}

#[test]
fn migration_splices_block_before_next_section() {
    let src = "intro\n### 24-Hour, 48-Hour & 72-Hour Forecast\nold\n## Next\ntail";
    let out = rewrite_readme_at(src, "S", "<B>").unwrap();
    assert_eq!(out, "intro\n<B>\n\n---\n\n## Next\ntail");
}

#[test]
fn marker_path_replaces_between_markers() {
    let src = "a\n<!-- BEGIN:LIVE_PREDICTIONS -->\nold\n<!-- END:LIVE_PREDICTIONS -->\nz";
    let out = rewrite_readme_at(src, "S", "NEW").unwrap();
    assert_eq!(out, "a\nNEW\nz");
}

#[test]
fn rewrite_refreshes_old_and_new_banners() {
    let src = "> Auto-updated daily at 06:00 UTC\nx\n> Auto-updated every 3 h | old\n<!-- BEGIN:LIVE_PREDICTIONS --><!-- END:LIVE_PREDICTIONS -->";
    let out = rewrite_readme_at(src, "T", "B").unwrap();
    let banner = "> Auto-updated every 3 h via GitHub Actions | Last run: T";
    assert_eq!(out, format!("{banner}\nx\n{banner}\nB"));
}

#[test]
fn rewrite_rejects_end_before_begin() {
    let src = "<!-- END:LIVE_PREDICTIONS -->\n<!-- BEGIN:LIVE_PREDICTIONS -->";
    assert_eq!(rewrite_readme_at(src, "S", "B"), Err(ReadmeError::EndBeforeBegin));
}

#[test]
fn rewrite_rejects_unpaired_marker() {
    assert_eq!(
        rewrite_readme_at("x\n<!-- BEGIN:LIVE_PREDICTIONS -->\ny", "S", "B"),
        Err(ReadmeError::UnpairedMarker)
    );
    assert_eq!(
        rewrite_readme_at("x\n<!-- END:LIVE_PREDICTIONS -->\ny", "S", "B"),
        Err(ReadmeError::UnpairedMarker)
    );
}

#[test]
fn rewrite_rejects_missing_anchor() {
    assert_eq!(rewrite_readme_at("# Title\nbody\n", "S", "B"), Err(ReadmeError::NoAnchor));
}

#[test]
fn rewrite_rejects_anchor_without_level2_heading() {
    let src = "### 24-Hour, 48-Hour & 72-Hour Forecast\nno heading after";
    assert_eq!(rewrite_readme_at(src, "S", "B"), Err(ReadmeError::NoLevel2After));
}

#[test]
fn replace_line_multi_splits_like_lines() {
    let out = replace_line_multi("a\r\n> m1 x\nb\n> m2\n", &["> m1", "> m2"], "N");
    assert_eq!(out, "a\nN\nb\nN");
    assert_eq!(replace_line_multi("", &["x"], "N"), "");
    assert_eq!(replace_line_multi("\n\nx", &["x"], "N"), "\n\nN");
}

#[test]
fn replace_line_multi_is_idempotent() {
    let src = "keep\n# A one\nmid\n# B two\nend";
    let markers = ["# A", "# B"];
    let once = replace_line_multi(src, &markers, "# A new");
    assert_eq!(once, "keep\n# A new\nmid\n# A new\nend");
    assert_eq!(replace_line_multi(&once, &markers, "# A new"), once);
}

#[test]
fn local_hour_short_cases() {
    assert_eq!(local_hour_short("2026-04-18T23:00"), "23:00");
    assert_eq!(local_hour_short("2026-04-18T07:45:12"), "07:45");
    assert_eq!(local_hour_short("nodate"), "nodat");
    assert_eq!(local_hour_short("aTbTc"), "b");
}

#[test]
fn performance_block_counts_and_drift() {
    let without = build_performance_block(&[], 12, 14, None);
    assert_eq!(
        without,
        "\n### Model Performance (held-out test set)\n\n| Metric | Value |\n|--------|-------|\n| Successful cities | 12 / 14 |\n"
    );
    let with_meta = build_performance_block(&stub_metas(), 1, 1, None);
    assert!(with_meta.contains("| 24 h model | Ridge |\n| 48 h model | Ridge 48h |\n"));
    assert!(with_meta.contains("| Test RMSE (24 h) | 3.50 °C |\n"));
    assert!(with_meta.contains("| Bias correction (24 h) | +0.50 °C |\n| Contract version | 2.0.0 |\n| Successful cities | 1 / 1 |\n"));
    let stable = build_performance_block(&[], 0, 0, Some(&stub_drift()));
    assert!(stable.ends_with("| Successful cities | 0 / 0 |\n\n### Drift Monitor (last run)\n\n✓ Max PSI = 0.500  |  observations = 2000  |  cities = 14  |  status = stable\n\n| Feature | PSI | KS | Mean shift (σ_ref) | Status |\n|---------|-----|----|--------------------|--------|\n| `temperature_2m` | 0.500 | 0.100 | +0.20 | moderate |\n"));
    let mut drifting = stub_drift();
    drifting.any_drift = true;
    let warned = build_performance_block(&[], 0, 0, Some(&drifting));
    assert!(warned.contains("⚠ Max PSI = 0.500  |  observations = 2000  |  cities = 14  |  status = drift detected\n\n"));
}

#[test]
fn live_block_wraps_sections_in_markers() {
    let b = build_live_block("S", "H", "P");
    assert_eq!(b, "<!-- BEGIN:LIVE_PREDICTIONS -->\nSHP\n<!-- END:LIVE_PREDICTIONS -->");
}

#[test]
fn hourly_details_layout() {
    let cities = vec![HourlyCity {
        flag: "F".to_string(),
        name: "N".to_string(),
        climate_zone: "Z".to_string(),
        timezone: "T".to_string(),
        rows: vec![
            HourlyRow {
                hour_offset: 1,
                local_time: "2026-04-18T01:00".to_string(),
                figures: "a | b".to_string(),
                condition: "Clear".to_string(),
            },
            HourlyRow {
                hour_offset: -2,
                local_time: "xTyT".to_string(),
                figures: "c".to_string(),
                condition: "Rainy".to_string(),
            },
        ],
    }];
    let out = build_hourly_details(&cities);
    assert!(out.starts_with("\n### Hourly Predictions (next 24 h, per city)\n\n"));
    assert!(out.ends_with("<details><summary><strong>F N</strong> — Z, T</summary>\n\n| +h | local time | temp | rain % | (NWP) | (ML) | precip | clouds | wind | conditions |\n|----|------------|------|--------|-------|------|--------|--------|------|------------|\n| +1 | 2026-04-18 01:00 | a | b | Clear |\n| +-2 | x y  | c | Rainy |\n\n</details>\n\n"));
}

#[test]
fn summary_rows_follow_city_order() {
    let mut cities = stub_summary_cities();
    cities.push(SummaryCity {
        city: "Second".to_string(),
        flag: "S".to_string(),
        reference_local_time: "2026-04-17T07:30".to_string(),
        figures: "f".to_string(),
    });
    let out = build_summary_table(&cities);
    let first = out.find("| Test City | 🏳 | 23:00 | +19.0°C |").unwrap();
    let second = out.find("| Second | S | 07:30 | f |\n").unwrap();
    assert!(first < second);
}

#[test]
fn banner_stamp_has_utc_shape() {
    let out = rewrite_readme("> Auto-updated every 3 h\n<!-- BEGIN:LIVE_PREDICTIONS --><!-- END:LIVE_PREDICTIONS -->", "B").unwrap();
    let line = out.lines().next().unwrap();
    let stamp = line.strip_prefix("> Auto-updated every 3 h via GitHub Actions | Last run: ").unwrap();
    assert!(stamp.len() >= 20);
    assert!(stamp.ends_with(" UTC"));
    let tail: Vec<char> = stamp.chars().rev().take(16).collect::<Vec<_>>().into_iter().rev().collect();
    assert_eq!(tail[0], '-');
    assert_eq!(tail[3], '-');
    assert_eq!(tail[6], ' ');
    assert_eq!(tail[9], ':');
}

#[test]
fn block_with_banner_lines_inside_is_a_fixed_point() {
    let block = "<!-- BEGIN:LIVE_PREDICTIONS -->\n> Auto-updated every 3 h (quoted inside the block)\nbody\n<!-- END:LIVE_PREDICTIONS -->";
    let src = "# T\n> Auto-updated every 3 h old\n<!-- BEGIN:LIVE_PREDICTIONS -->\nold\n<!-- END:LIVE_PREDICTIONS -->\ntail\n> Auto-updated daily at 06:00 UTC\nend";
    let first = rewrite_readme_at(src, "2026-04-18 21:46 UTC", block).unwrap();
    let second = rewrite_readme_at(&first, "2026-04-18 21:46 UTC", block).unwrap();
    assert_eq!(second, first);
    assert!(first.contains("> Auto-updated every 3 h (quoted inside the block)"));
    let later = rewrite_readme_at(&first, "2026-04-19 00:46 UTC", block).unwrap();
    let collapsed_first = first.replace(block, "<!-- BEGIN:LIVE_PREDICTIONS --><!-- END:LIVE_PREDICTIONS -->");
    let from_collapsed = rewrite_readme_at(&collapsed_first, "2026-04-19 00:46 UTC", block).unwrap();
    assert_eq!(later, from_collapsed);
    assert!(later.contains("> Auto-updated every 3 h (quoted inside the block)"));
    assert!(later.contains("tail\n> Auto-updated every 3 h via GitHub Actions | Last run: 2026-04-19 00:46 UTC\nend"));
}

#[test]
fn banner_line_holding_the_end_marker_is_lost_on_a_second_rewrite() {
    let block = "<!-- BEGIN:LIVE_PREDICTIONS -->\n> Auto-updated every 3 h <!-- END:LIVE_PREDICTIONS -->";
    let src = "x\n<!-- BEGIN:LIVE_PREDICTIONS -->\n<!-- END:LIVE_PREDICTIONS -->\ny";
    let first = rewrite_readme_at(src, "S", block).unwrap();
    assert_eq!(rewrite_readme_at(&first, "S", block), Err(ReadmeError::UnpairedMarker));
}

#[test]
fn rewrite_keeps_one_of_each_live_heading() {
    let summary = build_summary_table(&stub_summary_cities());
    let hourly = build_hourly_details(&stub_hourly_cities());
    let src = "# T\n\n<!-- BEGIN:LIVE_PREDICTIONS -->\nold\n<!-- END:LIVE_PREDICTIONS -->\n\n## Next\n";
    let without = build_performance_block(&stub_metas(), 1, 1, None);
    let out = rewrite_readme_at(src, "S", &build_live_block(&summary, &hourly, &without)).unwrap();
    assert_eq!(out.matches("### 24-Hour, 48-Hour & 72-Hour Forecast").count(), 1);
    assert_eq!(out.matches("### Hourly Predictions (next 24 h, per city)").count(), 1);
    assert_eq!(out.matches("### Model Performance (held-out test set)").count(), 1);
    assert_eq!(out.matches("### Drift Monitor (last run)").count(), 0);
    let drift = stub_drift();
    let with = build_performance_block(&stub_metas(), 1, 1, Some(&drift));
    let out = rewrite_readme_at(&out, "S", &build_live_block(&summary, &hourly, &with)).unwrap();
    assert_eq!(out.matches("### 24-Hour, 48-Hour & 72-Hour Forecast").count(), 1);
    assert_eq!(out.matches("### Drift Monitor (last run)").count(), 1);
}

#[test]
fn a_heading_split_over_two_data_texts_is_a_second_heading() {
    let cities = vec![HourlyCity {
        flag: "### Hourly".to_string(),
        name: "Predictions (next 24 h, per city)".to_string(),
        climate_zone: "Cfa".to_string(),
        timezone: "UTC".to_string(),
        rows: vec![],
    }];
    let hourly = build_hourly_details(&cities);
    assert_eq!(hourly.matches("### Hourly Predictions (next 24 h, per city)").count(), 2);
}
