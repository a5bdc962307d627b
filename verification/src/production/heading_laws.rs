//! The live headings of a rewritten README: each section heading of the
//! live block occurs exactly once, the drift heading exactly when a drift
//! snapshot is shown.

use vstd::prelude::*;
use crate::production::readme_laws::{
    absent, clean_stamp, collapsed, free_of, lemma_live_block_marked, lemma_rewrite_once, marker_free,
    occurs_once,
};
use crate::production::report::{
    begin_mark, drift_section, end_mark, hourly_details, live_block, performance_block,
    summary_table, readme_rewrite, DRIFT_HEADING, HOURLY_HEADING, PERFORMANCE_HEAD, drift_banner, drift_row, forecast_header, hour_short, hourly_city_text, hourly_row,
    metric_rows, signed_decimal, spaced, summary_row, DriftFeatureRow, DriftSummary, HourlyCity,
    HourlyRow, ModelMeta, SummaryCity, DRIFT_COLUMNS, HOURLY_COLUMNS, HOURLY_INTRO, HOURLY_RULE,
    RAIN_NOTE, SUMMARY_COLUMNS, SUMMARY_RULE,
};
use crate::production::text::{concat_all, decimal, first_occ, lemma_first_occ, occurs_at};

verus! {

/// Heading of the hourly section.
pub open spec fn hourly_heading() -> Seq<char> {
    "### Hourly Predictions (next 24 h, per city)"@
}

/// Heading of the performance section.
pub open spec fn performance_heading() -> Seq<char> {
    "### Model Performance (held-out test set)"@
}

/// Heading of the drift section.
pub open spec fn drift_heading() -> Seq<char> {
    "### Drift Monitor (last run)"@
}

/// One of the four live headings.
pub open spec fn live_heading(k: Seq<char>) -> bool {
    k == forecast_header() || k == hourly_heading() || k == performance_heading() || k
        == drift_heading()
}

/// The long constant texts of the sections hold no `'#'`.
proof fn lemma_constants_hash_free()
    ensures
        free_of(RAIN_NOTE@, '#'),
        free_of(SUMMARY_COLUMNS@, '#'),
        free_of(SUMMARY_RULE@, '#'),
        free_of(HOURLY_INTRO@, '#'),
        free_of(HOURLY_COLUMNS@, '#'),
        free_of(HOURLY_RULE@, '#'),
        free_of(DRIFT_COLUMNS@, '#'),
{
    reveal_strlit("> **How to read the rain columns.** `Rain 24h` is the **blended** probability that there will be any rain at all in the next 24 h, computed as `α·p_NWP + (1−α)·p_ML` with `α = 0.9`. The physical NWP signal dominates because the ML classifier was trained on a target (`precip_sum_next_24h > 0 mm`) that was 73.6 % positive in the training set and therefore has a positive prior bias. `NWP precip` shows the *actual* predicted rainfall in millimetres from Open-Meteo's numerical weather model, plus how many hours will have any precipitation. `ML only` shows the bagging-ensemble probability in isolation so you can see the drift. `+24h`, `+48h`, `+72h` come from dedicated Ridge (α=10) regressors trained in Notebook 05 on `temp_next_{24,48,72}h` with RMSE 3.5 / 4.5 / 5.1 °C. `Confidence` is ±1σ = ±RMSE of the 24 h test. `As of (local)` is the city's local timestamp of the last observed hour that anchors the forecast (end of the Open-Meteo past window, typically 23:00 of the previous day).\n");
    reveal_strlit("| City | Country | As of (local) | Current | +24h | +48h | +72h | Rain 24h | NWP precip | ML only | Confidence |\n");
    reveal_strlit("|------|---------|---------------|---------|------|------|------|----------|------------|---------|------------|\n");
    reveal_strlit("Click a city to expand. Each row is one hour; `temp` is our Ridge 24 h model rolled across the past 24 hours, `rain %` is the calibrated bagging probability, `precip` and `clouds` and `wind` come from Open-Meteo's own NWP forecast.\n\n");
    reveal_strlit("| +h | local time | temp | rain % | (NWP) | (ML) | precip | clouds | wind | conditions |\n");
    reveal_strlit("|----|------------|------|--------|-------|------|--------|--------|------|------------|\n");
    reveal_strlit("| Feature | PSI | KS | Mean shift (σ_ref) | Status |\n|---------|-----|----|--------------------|--------|\n");
}

/// Characters of the live headings: each starts with `"### "` followed by
/// no `'#'`, and any two of them differ at index 4.
proof fn lemma_heading_chars()
    ensures
        forall|k: Seq<char>|
            #![trigger live_heading(k)]
            live_heading(k) ==> {
                &&& k.len() >= 5
                &&& k[0] == '#'
                &&& k[1] == '#'
                &&& k[2] == '#'
                &&& k[3] == ' '
                &&& forall|i: int| 3 <= i < k.len() ==> k[i] != '#'
                &&& free_of(k, '\n')
            },
        forall|k: Seq<char>, h: Seq<char>|
            #![trigger live_heading(k), live_heading(h)]
            live_heading(k) && live_heading(h) && k != h ==> k[4] != h[4],
        forecast_header() != hourly_heading(),
        forecast_header() != performance_heading(),
        forecast_header() != drift_heading(),
        hourly_heading() != performance_heading(),
        hourly_heading() != drift_heading(),
        performance_heading() != drift_heading(),
{
    reveal_strlit("### 24-Hour, 48-Hour & 72-Hour Forecast");
    reveal_strlit("### Hourly Predictions (next 24 h, per city)");
    reveal_strlit("### Model Performance (held-out test set)");
    reveal_strlit("### Drift Monitor (last run)");
    assert(forecast_header()[4] == '2');
    assert(hourly_heading()[4] == 'H');
    assert(performance_heading()[4] == 'M');
    assert(drift_heading()[4] == 'D');
}

/// Occurrences of a text starting with `'#'` in `x + y`, where `x` holds
/// no `'#'`, are those in `y`.
proof fn lemma_occ_after_free(x: Seq<char>, y: Seq<char>, k: Seq<char>)
    requires
        free_of(x, '#'),
        k.len() > 0,
        k[0] == '#',
    ensures
        forall|j: int|
            #![trigger occurs_at(x + y, k, j)]
            occurs_at(x + y, k, j) == (j >= x.len() && occurs_at(y, k, j - x.len())),
{
    let xl = x.len() as int;
    let kl = k.len() as int;
    assert forall|j: int|
        #![trigger occurs_at(x + y, k, j)]
        occurs_at(x + y, k, j) == (j >= xl && occurs_at(y, k, j - xl)) by {
        if j >= xl && j + kl <= (x + y).len() {
            assert((x + y).subrange(j, j + kl) =~= y.subrange(j - xl, j - xl + kl));
        }
        if 0 <= j < xl && occurs_at(x + y, k, j) {
            assert((x + y).subrange(j, j + kl)[0] == (x + y)[j]);
        }
    }
}

/// Occurrences of a live heading `k` in `h + y`, where `h` is a live
/// heading: at the start exactly when `k` is `h`, and else those in `y`.
proof fn lemma_occ_after_heading(h: Seq<char>, y: Seq<char>, k: Seq<char>)
    requires
        live_heading(h),
        live_heading(k),
    ensures
        forall|j: int|
            #![trigger occurs_at(h + y, k, j)]
            occurs_at(h + y, k, j) == ((j == 0 && k == h) || (j >= h.len() && occurs_at(
                y,
                k,
                j - h.len(),
            ))),
{
    lemma_heading_chars();
    let hl = h.len() as int;
    let kl = k.len() as int;
    let t = h + y;
    assert forall|j: int|
        #![trigger occurs_at(h + y, k, j)]
        occurs_at(h + y, k, j) == ((j == 0 && k == h) || (j >= hl && occurs_at(y, k, j - hl))) by {
        if j >= hl && j + kl <= t.len() {
            assert(t.subrange(j, j + kl) =~= y.subrange(j - hl, j - hl + kl));
        }
        if j == 0 && k == h {
            assert(t.subrange(0, kl) =~= h);
        }
        if 0 <= j < hl && occurs_at(t, k, j) {
            let w = t.subrange(j, j + kl);
            if j == 0 {
                assert(w[4] == h[4]);
            } else if j == 1 {
                assert(w[2] == h[3]);
            } else if j == 2 {
                assert(w[1] == h[3]);
            } else {
                assert(w[0] == h[j]);
            }
        }
    }
}

/// A text without `'#'` holds no live heading.
proof fn lemma_occ_none(y: Seq<char>, k: Seq<char>)
    requires
        free_of(y, '#'),
        live_heading(k),
    ensures
        forall|j: int| !occurs_at(y, k, j),
{
    lemma_heading_chars();
    assert forall|j: int| !occurs_at(y, k, j) by {
        if occurs_at(y, k, j) {
            assert(y.subrange(j, j + k.len())[0] == y[j]);
        }
    }
}


/// No `'#'` in any of `parts`.
pub open spec fn all_hash_free(parts: Seq<Seq<char>>) -> bool {
    forall|i: int| 0 <= i < parts.len() ==> free_of(#[trigger] parts[i], '#')
}

/// Texts without `'#'` one after the other hold no `'#'`.
proof fn lemma_concat_all_free(parts: Seq<Seq<char>>)
    requires
        all_hash_free(parts),
    ensures
        free_of(concat_all(parts), '#'),
    decreases parts.len(),
{
    if parts.len() > 0 {
        let init = parts.drop_last();
        assert(all_hash_free(init)) by {
            assert forall|i: int| 0 <= i < init.len() implies free_of(#[trigger] init[i], '#') by {
                assert(init[i] == parts[i]);
            }
        }
        lemma_concat_all_free(init);
        assert(free_of(parts.last(), '#'));
        let c = concat_all(parts);
        assert(c == concat_all(init) + parts.last());
        assert forall|k: int| 0 <= k < c.len() implies c[k] != '#' by {
            if k >= concat_all(init).len() {
                assert(c[k] == parts.last()[k - concat_all(init).len()]);
            }
        }
    }
}

/// Decimal notation holds no `'#'`.
proof fn lemma_decimal_free(n: nat)
    ensures
        free_of(decimal(n), '#'),
    decreases n,
{
    if n >= 10 {
        lemma_decimal_free(n / 10);
        let d = decimal(n);
        let h = decimal(n / 10);
        assert forall|k: int| 0 <= k < d.len() implies d[k] != '#' by {
            if k < h.len() {
                assert(d[k] == h[k]);
            }
        }
    }
}

/// Signed decimal notation holds no `'#'`.
proof fn lemma_signed_decimal_free(n: int)
    ensures
        free_of(signed_decimal(n), '#'),
{
    if n < 0 {
        lemma_decimal_free((-n) as nat);
        let d = signed_decimal(n);
        assert forall|k: int| 0 <= k < d.len() implies d[k] != '#' by {
            if k > 0 {
                assert(d[k] == decimal((-n) as nat)[k - 1]);
            }
        }
    } else {
        lemma_decimal_free(n as nat);
    }
}

/// The short local hour of a text without `'#'` holds no `'#'`.
proof fn lemma_hour_short_free(iso: Seq<char>)
    requires
        free_of(iso, '#'),
    ensures
        free_of(hour_short(iso), '#'),
{
    lemma_first_occ(iso, seq!['T']);
    let field = match first_occ(iso, seq!['T']) {
        None => iso,
        Some(i) => {
            let rest = iso.subrange(i + 1, iso.len() as int);
            lemma_first_occ(rest, seq!['T']);
            match first_occ(rest, seq!['T']) {
                None => rest,
                Some(j) => rest.subrange(0, j),
            }
        },
    };
    assert(free_of(field, '#'));
}

/// Replacing `'T'` by a space adds no `'#'`.
proof fn lemma_spaced_free(lt: Seq<char>)
    requires
        free_of(lt, '#'),
    ensures
        free_of(spaced(lt), '#'),
{
}

/// A summary city whose texts hold no `'#'`.
pub open spec fn summary_city_plain(c: SummaryCity) -> bool {
    &&& free_of(c.city@, '#')
    &&& free_of(c.flag@, '#')
    &&& free_of(c.reference_local_time@, '#')
    &&& free_of(c.figures@, '#')
}

/// An hourly line whose texts hold no `'#'`.
pub open spec fn hourly_row_plain(h: HourlyRow) -> bool {
    &&& free_of(h.local_time@, '#')
    &&& free_of(h.figures@, '#')
    &&& free_of(h.condition@, '#')
}

/// An hourly city whose texts hold no `'#'`.
pub open spec fn hourly_city_plain(c: HourlyCity) -> bool {
    &&& free_of(c.flag@, '#')
    &&& free_of(c.name@, '#')
    &&& free_of(c.climate_zone@, '#')
    &&& free_of(c.timezone@, '#')
    &&& forall|i: int| 0 <= i < c.rows@.len() ==> hourly_row_plain(#[trigger] c.rows@[i])
}

/// Model metadata whose texts hold no `'#'`.
pub open spec fn meta_plain(m: ModelMeta) -> bool {
    &&& free_of(m.model_24h@, '#')
    &&& free_of(m.model_48h@, '#')
    &&& free_of(m.model_72h@, '#')
    &&& free_of(m.rain_model@, '#')
    &&& free_of(m.rmse_24h@, '#')
    &&& free_of(m.rmse_48h@, '#')
    &&& free_of(m.rmse_72h@, '#')
    &&& free_of(m.bias_24h@, '#')
    &&& free_of(m.model_version@, '#')
}

/// A drift feature line whose texts hold no `'#'`.
pub open spec fn drift_row_plain(f: DriftFeatureRow) -> bool {
    &&& free_of(f.name@, '#')
    &&& free_of(f.psi@, '#')
    &&& free_of(f.ks@, '#')
    &&& free_of(f.shift@, '#')
    &&& free_of(f.status@, '#')
}

/// A drift snapshot whose texts hold no `'#'`.
pub open spec fn drift_plain(d: DriftSummary) -> bool {
    &&& free_of(d.max_psi@, '#')
    &&& forall|i: int| 0 <= i < d.features@.len() ==> drift_row_plain(#[trigger] d.features@[i])
}

/// The summary line of a plain city holds no `'#'`.
proof fn lemma_summary_row_free(c: SummaryCity)
    requires
        summary_city_plain(c),
    ensures
        free_of(summary_row(c), '#'),
{
    reveal_strlit("| ");
    reveal_strlit(" | ");
    reveal_strlit(" |\n");
    lemma_hour_short_free(c.reference_local_time@);
    let parts = seq!["| "@, c.city@, " | "@, c.flag@, " | "@, hour_short(c.reference_local_time@), " | "@, c.figures@, " |\n"@];
    assert(all_hash_free(parts));
    lemma_concat_all_free(parts);
    assert(concat_all(parts) =~= summary_row(c)) by {
        reveal_with_fuel(concat_all, 10);
    }
}


/// An hourly line of a plain hour holds no `'#'`.
proof fn lemma_hourly_row_free(h: HourlyRow)
    requires
        hourly_row_plain(h),
    ensures
        free_of(hourly_row(h), '#'),
{
    reveal_strlit("| +");
    reveal_strlit(" | ");
    reveal_strlit(" |\n");
    lemma_signed_decimal_free(h.hour_offset as int);
    lemma_spaced_free(h.local_time@);
    let parts = seq!["| +"@, signed_decimal(h.hour_offset as int), " | "@, spaced(h.local_time@), " | "@, h.figures@, " | "@, h.condition@, " |\n"@];
    assert(all_hash_free(parts));
    lemma_concat_all_free(parts);
    assert(concat_all(parts) =~= hourly_row(h)) by {
        reveal_with_fuel(concat_all, 10);
    }
}

/// The hourly table of a plain city holds no `'#'`.
#[verifier::rlimit(30)]
proof fn lemma_hourly_city_free(c: HourlyCity)
    requires
        hourly_city_plain(c),
    ensures
        free_of(hourly_city_text(c), '#'),
{
    reveal_strlit("<details><summary><strong>");
    reveal_strlit(" ");
    reveal_strlit("</strong> — ");
    reveal_strlit(", ");
    reveal_strlit("</summary>\n\n");
    reveal_strlit("\n</details>\n\n");
    lemma_constants_hash_free();
    let rows = c.rows@.map_values(|h: HourlyRow| hourly_row(h));
    assert forall|i: int| 0 <= i < rows.len() implies free_of(#[trigger] rows[i], '#') by {
        lemma_hourly_row_free(c.rows@[i]);
    }
    lemma_concat_all_free(rows);
    let parts = seq!["<details><summary><strong>"@, c.flag@, " "@, c.name@, "</strong> — "@, c.climate_zone@, ", "@, c.timezone@, "</summary>\n\n"@, HOURLY_COLUMNS@, HOURLY_RULE@, concat_all(rows), "\n</details>\n\n"@];
    assert(all_hash_free(parts));
    lemma_concat_all_free(parts);
    assert(concat_all(parts) =~= hourly_city_text(c)) by {
        reveal_with_fuel(concat_all, 14);
    }
}

/// The model lines of plain metadata hold no `'#'`.
#[verifier::rlimit(30)]
proof fn lemma_metric_rows_free(m: ModelMeta)
    requires
        meta_plain(m),
    ensures
        free_of(metric_rows(m), '#'),
{
    reveal_strlit("| 24 h model | ");
    reveal_strlit("| 48 h model | ");
    reveal_strlit("| 72 h model | ");
    reveal_strlit("| Rain model | ");
    reveal_strlit("| Test RMSE (24 h) | ");
    reveal_strlit("| Test RMSE (48 h) | ");
    reveal_strlit("| Test RMSE (72 h) | ");
    reveal_strlit("| Bias correction (24 h) | ");
    reveal_strlit("| Contract version | ");
    reveal_strlit(" |\n");
    reveal_strlit(" °C |\n");
    let parts = seq![
        "| 24 h model | "@, m.model_24h@, " |\n"@,
        "| 48 h model | "@, m.model_48h@, " |\n"@,
        "| 72 h model | "@, m.model_72h@, " |\n"@,
        "| Rain model | "@, m.rain_model@, " |\n"@,
        "| Test RMSE (24 h) | "@, m.rmse_24h@, " °C |\n"@,
        "| Test RMSE (48 h) | "@, m.rmse_48h@, " °C |\n"@,
        "| Test RMSE (72 h) | "@, m.rmse_72h@, " °C |\n"@,
        "| Bias correction (24 h) | "@, m.bias_24h@, " °C |\n"@,
        "| Contract version | "@, m.model_version@, " |\n"@
    ];
    assert(all_hash_free(parts));
    lemma_concat_all_free(parts);
    assert(concat_all(parts) =~= metric_rows(m)) by {
        reveal_with_fuel(concat_all, 28);
    }
}

/// A drift line of a plain feature holds no `'#'`.
proof fn lemma_drift_row_free(f: DriftFeatureRow)
    requires
        drift_row_plain(f),
    ensures
        free_of(drift_row(f), '#'),
{
    reveal_strlit("| `");
    reveal_strlit("` | ");
    reveal_strlit(" | ");
    reveal_strlit(" |\n");
    let parts = seq!["| `"@, f.name@, "` | "@, f.psi@, " | "@, f.ks@, " | "@, f.shift@, " | "@, f.status@, " |\n"@];
    assert(all_hash_free(parts));
    lemma_concat_all_free(parts);
    assert(concat_all(parts) =~= drift_row(f)) by {
        reveal_with_fuel(concat_all, 12);
    }
}

/// The banner line of a plain drift snapshot holds no `'#'`.
proof fn lemma_drift_banner_free(d: DriftSummary)
    requires
        drift_plain(d),
    ensures
        free_of(drift_banner(d), '#'),
{
    reveal_strlit("⚠");
    reveal_strlit("✓");
    reveal_strlit(" Max PSI = ");
    reveal_strlit("  |  observations = ");
    reveal_strlit("  |  cities = ");
    reveal_strlit("  |  status = ");
    reveal_strlit("drift detected");
    reveal_strlit("stable");
    reveal_strlit("\n\n");
    lemma_decimal_free(d.n_observations as nat);
    lemma_decimal_free(d.n_cities as nat);
    let sign = if d.any_drift { "⚠"@ } else { "✓"@ };
    let word = if d.any_drift { "drift detected"@ } else { "stable"@ };
    let parts = seq![sign, " Max PSI = "@, d.max_psi@, "  |  observations = "@, decimal(d.n_observations as nat), "  |  cities = "@, decimal(d.n_cities as nat), "  |  status = "@, word, "\n\n"@];
    assert(all_hash_free(parts));
    lemma_concat_all_free(parts);
    assert(concat_all(parts) =~= drift_banner(d)) by {
        reveal_with_fuel(concat_all, 11);
    }
}


/// A live heading is at least five characters long and starts with `'#'`.
proof fn lemma_heading_start(k: Seq<char>)
    requires
        live_heading(k),
    ensures
        k.len() >= 5,
        k[0] == '#',
{
    lemma_heading_chars();
}

/// Occurrences of a heading in `y`, shifted by `d`, are those of `t`.
spec fn shifted_occ(t: Seq<char>, y: Seq<char>, k: Seq<char>, d: int) -> bool {
    forall|j: int|
        #![trigger occurs_at(t, k, j)]
        occurs_at(t, k, j) == (j >= d && occurs_at(y, k, j - d))
}

/// When the occurrences in `t` are those in `y` shifted by `d >= 0`, the
/// pattern occurs once in `t` exactly when it occurs once in `y`.
#[verifier::rlimit(30)]
#[verifier::spinoff_prover]
proof fn lemma_once_shift(t: Seq<char>, y: Seq<char>, k: Seq<char>, d: int)
    requires
        d >= 0,
        shifted_occ(t, y, k, d),
    ensures
        occurs_once(t, k) == occurs_once(y, k),
{
    if occurs_once(y, k) {
        let j = choose|j: int| occurs_at(y, k, j) && forall|m: int| #[trigger] occurs_at(y, k, m) ==> m == j;
        assert(occurs_at(t, k, j + d));
        assert forall|m: int| #[trigger] occurs_at(t, k, m) implies m == j + d by {
            assert(occurs_at(y, k, m - d));
        }
    }
    if occurs_once(t, k) {
        let j = choose|j: int| occurs_at(t, k, j) && forall|m: int| #[trigger] occurs_at(t, k, m) ==> m == j;
        assert(occurs_at(y, k, j - d));
        assert forall|m: int| #[trigger] occurs_at(y, k, m) implies m == j - d by {
            assert(occurs_at(t, k, m + d));
        }
    }
}

/// When the occurrences in `t` are those in `y` shifted by `d >= 0`, the
/// pattern is absent from `t` exactly when it is absent from `y`.
#[verifier::rlimit(30)]
#[verifier::spinoff_prover]
proof fn lemma_absent_shift(t: Seq<char>, y: Seq<char>, k: Seq<char>, d: int)
    requires
        d >= 0,
        shifted_occ(t, y, k, d),
    ensures
        absent(t, k) == absent(y, k),
{
    if absent(y, k) {
        assert forall|j: int| !occurs_at(t, k, j) by {
            if occurs_at(t, k, j) {
                assert(occurs_at(y, k, j - d));
            }
        }
    }
    if absent(t, k) {
        assert forall|j: int| !occurs_at(y, k, j) by {
            if occurs_at(y, k, j) {
                assert(occurs_at(t, k, j + d));
            }
        }
    }
}

/// A heading occurs once in `x + y`, or nowhere, exactly as in `y`, when
/// `x` holds no `'#'`.
#[verifier::rlimit(30)]
proof fn lemma_once_after_free(x: Seq<char>, y: Seq<char>, k: Seq<char>)
    requires
        free_of(x, '#'),
        live_heading(k),
    ensures
        occurs_once(x + y, k) == occurs_once(y, k),
        absent(x + y, k) == absent(y, k),
{
    lemma_heading_start(k);
    lemma_occ_after_free(x, y, k);
    assert(shifted_occ(x + y, y, k, x.len() as int));
    lemma_once_shift(x + y, y, k, x.len() as int);
    lemma_absent_shift(x + y, y, k, x.len() as int);
}

/// A heading occurs once in `h + y`, for the same heading `h`, exactly
/// when it is absent from `y`; it is never absent from `h + y`.
#[verifier::rlimit(30)]
proof fn lemma_once_same_heading(h: Seq<char>, y: Seq<char>)
    requires
        live_heading(h),
    ensures
        occurs_once(h + y, h) == absent(y, h),
        !absent(h + y, h),
{
    lemma_heading_start(h);
    lemma_occ_after_heading(h, y, h);
    let hl = h.len() as int;
    assert(occurs_at(h + y, h, 0));
    if absent(y, h) {
        assert forall|m: int| #[trigger] occurs_at(h + y, h, m) implies m == 0 by {
            if m != 0 {
                assert(occurs_at(y, h, m - hl));
            }
        }
    }
    if occurs_once(h + y, h) {
        assert forall|m: int| !occurs_at(y, h, m) by {
            if occurs_at(y, h, m) {
                assert(occurs_at(h + y, h, m + hl));
            }
        }
    }
}

/// A heading `k` other than the heading `h` occurs once in `h + y`, or
/// nowhere, exactly as in `y`.
#[verifier::rlimit(30)]
proof fn lemma_once_other_heading(h: Seq<char>, y: Seq<char>, k: Seq<char>)
    requires
        live_heading(h),
        live_heading(k),
        k != h,
    ensures
        occurs_once(h + y, k) == occurs_once(y, k),
        absent(h + y, k) == absent(y, k),
{
    lemma_heading_start(h);
    lemma_occ_after_heading(h, y, k);
    assert(shifted_occ(h + y, y, k, h.len() as int));
    lemma_once_shift(h + y, y, k, h.len() as int);
    lemma_absent_shift(h + y, y, k, h.len() as int);
}

/// A heading `k` occurs once in `h + y`, for a heading `h`, when it is
/// `h` and absent from `y`, or is not `h` and occurs once in `y`; it is
/// absent from `h + y` when it is not `h` and absent from `y`.
proof fn lemma_once_after_heading(h: Seq<char>, y: Seq<char>, k: Seq<char>)
    requires
        live_heading(h),
        live_heading(k),
    ensures
        occurs_once(h + y, k) == (if k == h {
            absent(y, k)
        } else {
            occurs_once(y, k)
        }),
        absent(h + y, k) == (k != h && absent(y, k)),
{
    if k == h {
        lemma_once_same_heading(h, y);
    } else {
        lemma_once_other_heading(h, y, k);
    }
}

/// A text without `'#'` holds a heading nowhere, so not once.
proof fn lemma_free_absent(y: Seq<char>, k: Seq<char>)
    requires
        free_of(y, '#'),
        live_heading(k),
    ensures
        absent(y, k),
        !occurs_once(y, k),
{
    lemma_occ_none(y, k);
}


/// The markers hold no `'#'`.
proof fn lemma_marks_hash_free()
    ensures
        free_of(begin_mark(), '#'),
        free_of(end_mark(), '#'),
{
    reveal_strlit("<!-- BEGIN:LIVE_PREDICTIONS -->");
    reveal_strlit("<!-- END:LIVE_PREDICTIONS -->");
}

/// Three headings between pieces, then a tail.
spec fn chain(
    f0: Seq<char>,
    h1: Seq<char>,
    f1: Seq<char>,
    h2: Seq<char>,
    f2: Seq<char>,
    h3: Seq<char>,
    tail: Seq<char>,
) -> Seq<char> {
    let r2 = f2 + (h3 + tail);
    f0 + (h1 + (f1 + (h2 + r2)))
}

/// How many times a heading occurs in a text built from headings between
/// `'#'`-free pieces.
#[verifier::rlimit(30)]
proof fn lemma_once_chain(
    f0: Seq<char>,
    h1: Seq<char>,
    f1: Seq<char>,
    h2: Seq<char>,
    f2: Seq<char>,
    h3: Seq<char>,
    tail: Seq<char>,
    k: Seq<char>,
)
    requires
        free_of(f0, '#'),
        free_of(f1, '#'),
        free_of(f2, '#'),
        live_heading(h1),
        live_heading(h2),
        live_heading(h3),
        live_heading(k),
        h1 != h2,
        h1 != h3,
        h2 != h3,
    ensures
        occurs_once(chain(f0, h1, f1, h2, f2, h3, tail), k) == (if k == h1 || k == h2 || k == h3 {
            absent(tail, k)
        } else {
            occurs_once(tail, k)
        }),
        absent(chain(f0, h1, f1, h2, f2, h3, tail), k) == (k != h1 && k != h2 && k != h3 && absent(
            tail,
            k,
        )),
{
    let r3 = h3 + tail;
    let r2 = f2 + r3;
    let r1 = h2 + r2;
    let r0 = f1 + r1;
    let q = h1 + r0;
    lemma_once_after_heading(h3, tail, k);
    lemma_once_after_free(f2, r3, k);
    lemma_once_after_heading(h2, r2, k);
    lemma_once_after_free(f1, r1, k);
    lemma_once_after_heading(h1, r0, k);
    lemma_once_after_free(f0, q, k);
}

/// The four live headings are pairwise different.
proof fn lemma_headings_distinct()
    ensures
        forecast_header() != hourly_heading(),
        forecast_header() != performance_heading(),
        forecast_header() != drift_heading(),
        hourly_heading() != performance_heading(),
        hourly_heading() != drift_heading(),
        performance_heading() != drift_heading(),
{
    lemma_heading_chars();
}

/// The summary text after its heading, up to the hourly heading.
spec fn summary_rest(cities: Seq<SummaryCity>) -> Seq<char> {
    "\n\n"@ + SUMMARY_COLUMNS@ + SUMMARY_RULE@ + concat_all(
        cities.map_values(|c: SummaryCity| summary_row(c)),
    ) + "\n"@ + RAIN_NOTE@ + "\n"@
}

/// The hourly text after its heading, up to the performance heading.
spec fn hourly_rest(hourly: Seq<HourlyCity>) -> Seq<char> {
    "\n\n"@ + HOURLY_INTRO@ + concat_all(hourly.map_values(|c: HourlyCity| hourly_city_text(c)))
        + "\n"@
}

/// The performance text after its heading, up to the drift section.
spec fn performance_rest(metas: Seq<ModelMeta>, n_successful: nat, n_cities: nat) -> Seq<char> {
    "\n\n| Metric | Value |\n|--------|-------|\n"@ + (if metas.len() > 0 {
        metric_rows(metas[0])
    } else {
        Seq::empty()
    }) + "| Successful cities | "@ + decimal(n_successful) + " / "@ + decimal(n_cities)
        + " |\n"@
}

/// The drift text after its heading, up to the end of the block.
spec fn drift_rest(d: DriftSummary) -> Seq<char> {
    "\n\n"@ + drift_banner(d) + DRIFT_COLUMNS@ + concat_all(
        d.features@.map_values(|f: DriftFeatureRow| drift_row(f)),
    ) + "\n"@ + end_mark()
}

/// The pieces between the headings hold no `'#'` when the data texts
/// hold none.
#[verifier::rlimit(30)]
proof fn lemma_pieces_free(
    cities: Seq<SummaryCity>,
    hourly: Seq<HourlyCity>,
    metas: Seq<ModelMeta>,
    n_successful: nat,
    n_cities: nat,
)
    requires
        forall|i: int| 0 <= i < cities.len() ==> summary_city_plain(#[trigger] cities[i]),
        forall|i: int| 0 <= i < hourly.len() ==> hourly_city_plain(#[trigger] hourly[i]),
        forall|i: int| 0 <= i < metas.len() ==> meta_plain(#[trigger] metas[i]),
    ensures
        free_of(begin_mark() + "\n"@, '#'),
        free_of(summary_rest(cities), '#'),
        free_of(hourly_rest(hourly), '#'),
        free_of(performance_rest(metas, n_successful, n_cities) + "\n"@, '#'),
        free_of(performance_rest(metas, n_successful, n_cities) + "\n"@ + end_mark(), '#'),
{
    lemma_constants_hash_free();
    lemma_marks_hash_free();
    reveal_strlit("\n");
    reveal_strlit("\n\n");
    reveal_strlit("| Successful cities | ");
    reveal_strlit(" / ");
    reveal_strlit(" |\n");
    reveal_strlit("\n\n| Metric | Value |\n|--------|-------|\n");
    let rows = cities.map_values(|c: SummaryCity| summary_row(c));
    assert forall|i: int| 0 <= i < rows.len() implies free_of(#[trigger] rows[i], '#') by {
        lemma_summary_row_free(cities[i]);
    }
    lemma_concat_all_free(rows);
    let tables = hourly.map_values(|c: HourlyCity| hourly_city_text(c));
    assert forall|i: int| 0 <= i < tables.len() implies free_of(#[trigger] tables[i], '#') by {
        lemma_hourly_city_free(hourly[i]);
    }
    lemma_concat_all_free(tables);
    if metas.len() > 0 {
        lemma_metric_rows_free(metas[0]);
    }
    lemma_decimal_free(n_successful);
    lemma_decimal_free(n_cities);
}

/// The drift piece holds no `'#'` when the snapshot's texts hold none.
proof fn lemma_drift_rest_free(d: DriftSummary)
    requires
        drift_plain(d),
    ensures
        free_of(drift_rest(d), '#'),
{
    lemma_constants_hash_free();
    lemma_marks_hash_free();
    reveal_strlit("\n");
    reveal_strlit("\n\n");
    let drows = d.features@.map_values(|f: DriftFeatureRow| drift_row(f));
    assert forall|i: int| 0 <= i < drows.len() implies free_of(#[trigger] drows[i], '#') by {
        lemma_drift_row_free(d.features@[i]);
    }
    lemma_concat_all_free(drows);
    lemma_drift_banner_free(d);
}

/// The heading constants are a newline, the heading, then the rest.
proof fn lemma_heading_consts()
    ensures
        HOURLY_HEADING@ == "\n"@ + hourly_heading() + "\n\n"@,
        PERFORMANCE_HEAD@ == "\n"@ + performance_heading() + "\n\n| Metric | Value |\n|--------|-------|\n"@,
        DRIFT_HEADING@ == "\n"@ + drift_heading() + "\n\n"@,
{
    reveal_strlit("\n### Hourly Predictions (next 24 h, per city)\n\n");
    reveal_strlit("### Hourly Predictions (next 24 h, per city)");
    reveal_strlit("\n### Model Performance (held-out test set)\n\n| Metric | Value |\n|--------|-------|\n");
    reveal_strlit("### Model Performance (held-out test set)");
    reveal_strlit("\n\n| Metric | Value |\n|--------|-------|\n");
    reveal_strlit("\n### Drift Monitor (last run)\n\n");
    reveal_strlit("### Drift Monitor (last run)");
    reveal_strlit("\n");
    reveal_strlit("\n\n");
    assert(HOURLY_HEADING@ =~= "\n"@ + hourly_heading() + "\n\n"@);
    assert(PERFORMANCE_HEAD@ =~= "\n"@ + performance_heading() + "\n\n| Metric | Value |\n|--------|-------|\n"@);
    assert(DRIFT_HEADING@ =~= "\n"@ + drift_heading() + "\n\n"@);
}

/// The live block as headings between pieces.
#[verifier::rlimit(30)]
proof fn lemma_block_layout(
    cities: Seq<SummaryCity>,
    hourly: Seq<HourlyCity>,
    metas: Seq<ModelMeta>,
    n_successful: nat,
    n_cities: nat,
    drift: Option<DriftSummary>,
)
    ensures
        ({
            let n = live_block(
                summary_table(cities),
                hourly_details(hourly),
                performance_block(metas, n_successful, n_cities, drift),
            );
            let g = performance_rest(metas, n_successful, n_cities);
            let tail = match drift {
                None => g + "\n"@ + end_mark(),
                Some(d) => (g + "\n"@) + (drift_heading() + drift_rest(d)),
            };
            n == chain(
                begin_mark() + "\n"@,
                forecast_header(),
                summary_rest(cities),
                hourly_heading(),
                hourly_rest(hourly),
                performance_heading(),
                tail,
            )
        }),
{
    let nl = "\n"@;
    let g = performance_rest(metas, n_successful, n_cities);
    let dp = match drift {
        None => Seq::<char>::empty(),
        Some(d) => drift_section(d),
    };
    let z = lemma_summary_split(cities);
    let y = lemma_hourly_split(hourly);
    lemma_performance_split(metas, n_successful, n_cities, drift);
    lemma_regroup(begin_mark(), nl, forecast_header(), z, hourly_heading(), y, performance_heading(), g, dp, end_mark());
    match drift {
        None => {
            assert(g + dp + nl + end_mark() =~= g + nl + end_mark());
        },
        Some(d) => {
            let w = lemma_drift_split(d);
            assert(g + dp + nl + end_mark() =~= (g + nl) + (drift_heading() + drift_rest(d)));
        },
    }
}

/// The summary table is its heading then the rest.
proof fn lemma_summary_split(cities: Seq<SummaryCity>) -> (z: Seq<char>)
    ensures
        summary_table(cities) == forecast_header() + z,
        summary_rest(cities) == z + "\n"@,
{
    let z = "\n\n"@ + SUMMARY_COLUMNS@ + SUMMARY_RULE@ + concat_all(
        cities.map_values(|c: SummaryCity| summary_row(c)),
    ) + "\n"@ + RAIN_NOTE@;
    assert(summary_table(cities) =~= forecast_header() + z);
    assert(summary_rest(cities) =~= z + "\n"@);
    z
}

/// The hourly section is a newline, its heading, then the rest.
proof fn lemma_hourly_split(hourly: Seq<HourlyCity>) -> (y: Seq<char>)
    ensures
        hourly_details(hourly) == "\n"@ + hourly_heading() + y,
        hourly_rest(hourly) == y + "\n"@,
{
    lemma_heading_consts();
    let y = "\n\n"@ + HOURLY_INTRO@ + concat_all(hourly.map_values(|c: HourlyCity| hourly_city_text(c)));
    assert(hourly_details(hourly) =~= "\n"@ + hourly_heading() + y);
    assert(hourly_rest(hourly) =~= y + "\n"@);
    y
}

/// The performance block is a newline, its heading, the rest, then the
/// drift section when there is one.
proof fn lemma_performance_split(metas: Seq<ModelMeta>, n_successful: nat, n_cities: nat, drift: Option<DriftSummary>)
    ensures
        performance_block(metas, n_successful, n_cities, drift) == "\n"@ + performance_heading()
            + performance_rest(metas, n_successful, n_cities) + match drift {
            None => Seq::<char>::empty(),
            Some(d) => drift_section(d),
        },
{
    lemma_heading_consts();
    let dp = match drift {
        None => Seq::<char>::empty(),
        Some(d) => drift_section(d),
    };
    assert(performance_block(metas, n_successful, n_cities, drift) =~= "\n"@ + performance_heading()
        + performance_rest(metas, n_successful, n_cities) + dp);
}

/// The drift section is a newline, its heading, then the rest.
proof fn lemma_drift_split(d: DriftSummary) -> (w: Seq<char>)
    ensures
        drift_section(d) == "\n"@ + drift_heading() + w,
        drift_rest(d) == w + "\n"@ + end_mark(),
{
    lemma_heading_consts();
    let w = "\n\n"@ + drift_banner(d) + DRIFT_COLUMNS@ + concat_all(
        d.features@.map_values(|f: DriftFeatureRow| drift_row(f)),
    );
    assert(drift_section(d) =~= "\n"@ + drift_heading() + w);
    assert(drift_rest(d) =~= w + "\n"@ + end_mark());
    w
}

/// Regrouping the pieces of the live block around its headings.
#[verifier::rlimit(30)]
proof fn lemma_regroup(
    b: Seq<char>,
    nl: Seq<char>,
    h1: Seq<char>,
    z: Seq<char>,
    h2: Seq<char>,
    y: Seq<char>,
    h3: Seq<char>,
    g: Seq<char>,
    dp: Seq<char>,
    e: Seq<char>,
)
    ensures
        b + nl + (h1 + z) + (nl + h2 + y) + (nl + h3 + g + dp) + nl + e == chain(
            b + nl,
            h1,
            z + nl,
            h2,
            y + nl,
            h3,
            g + dp + nl + e,
        ),
{
    assert(b + nl + (h1 + z) + (nl + h2 + y) + (nl + h3 + g + dp) + nl + e =~= chain(
        b + nl,
        h1,
        z + nl,
        h2,
        y + nl,
        h3,
        g + dp + nl + e,
    ));
}

/// Each section heading of the live block built from data texts without
/// `'#'` occurs in it exactly once: the forecast, hourly and performance
/// headings always, the drift heading exactly when a drift snapshot is
/// shown (and nowhere otherwise).  Without the condition on `'#'` a
/// heading can be formed across two data texts: a flag `"### Hourly"`
/// followed by the name `"Predictions (next 24 h, per city)"` writes a
/// second hourly heading.
#[verifier::rlimit(30)]
pub proof fn lemma_live_block_headings(
    cities: Seq<SummaryCity>,
    hourly: Seq<HourlyCity>,
    metas: Seq<ModelMeta>,
    n_successful: nat,
    n_cities: nat,
    drift: Option<DriftSummary>,
)
    requires
        forall|i: int| 0 <= i < cities.len() ==> summary_city_plain(#[trigger] cities[i]),
        forall|i: int| 0 <= i < hourly.len() ==> hourly_city_plain(#[trigger] hourly[i]),
        forall|i: int| 0 <= i < metas.len() ==> meta_plain(#[trigger] metas[i]),
        drift matches Some(d) ==> drift_plain(d),
    ensures
        ({
            let n = live_block(
                summary_table(cities),
                hourly_details(hourly),
                performance_block(metas, n_successful, n_cities, drift),
            );
            &&& occurs_once(n, forecast_header())
            &&& occurs_once(n, hourly_heading())
            &&& occurs_once(n, performance_heading())
            &&& (drift is Some ==> occurs_once(n, drift_heading()))
            &&& (drift is None ==> absent(n, drift_heading()))
        }),
{
    lemma_headings_distinct();
    lemma_pieces_free(cities, hourly, metas, n_successful, n_cities);
    lemma_block_layout(cities, hourly, metas, n_successful, n_cities, drift);
    let f0 = begin_mark() + "\n"@;
    let h1 = forecast_header();
    let f1 = summary_rest(cities);
    let h2 = hourly_heading();
    let f2 = hourly_rest(hourly);
    let h3 = performance_heading();
    let h4 = drift_heading();
    let g = performance_rest(metas, n_successful, n_cities);
    match drift {
        None => {
            let tail = g + "\n"@ + end_mark();
            lemma_free_absent(tail, h1);
            lemma_free_absent(tail, h2);
            lemma_free_absent(tail, h3);
            lemma_free_absent(tail, h4);
            lemma_once_chain(f0, h1, f1, h2, f2, h3, tail, h1);
            lemma_once_chain(f0, h1, f1, h2, f2, h3, tail, h2);
            lemma_once_chain(f0, h1, f1, h2, f2, h3, tail, h3);
            lemma_once_chain(f0, h1, f1, h2, f2, h3, tail, h4);
        },
        Some(d) => {
            lemma_drift_rest_free(d);
            let f3 = g + "\n"@;
            let f4 = drift_rest(d);
            let tail = f3 + (h4 + f4);
            lemma_free_absent(f4, h1);
            lemma_free_absent(f4, h2);
            lemma_free_absent(f4, h3);
            lemma_free_absent(f4, h4);
            lemma_once_after_heading(h4, f4, h1);
            lemma_once_after_heading(h4, f4, h2);
            lemma_once_after_heading(h4, f4, h3);
            lemma_once_after_heading(h4, f4, h4);
            lemma_once_after_free(f3, h4 + f4, h1);
            lemma_once_after_free(f3, h4 + f4, h2);
            lemma_once_after_free(f3, h4 + f4, h3);
            lemma_once_after_free(f3, h4 + f4, h4);
            lemma_once_chain(f0, h1, f1, h2, f2, h3, tail, h1);
            lemma_once_chain(f0, h1, f1, h2, f2, h3, tail, h2);
            lemma_once_chain(f0, h1, f1, h2, f2, h3, tail, h3);
            lemma_once_chain(f0, h1, f1, h2, f2, h3, tail, h4);
        },
    }
}

/// The live headings hold neither `'<'` nor `'>'`.
proof fn lemma_headings_no_angle()
    ensures
        free_of(forecast_header(), '<'),
        free_of(forecast_header(), '>'),
        free_of(hourly_heading(), '<'),
        free_of(hourly_heading(), '>'),
        free_of(performance_heading(), '<'),
        free_of(performance_heading(), '>'),
        free_of(drift_heading(), '<'),
        free_of(drift_heading(), '>'),
{
    reveal_strlit("### 24-Hour, 48-Hour & 72-Hour Forecast");
    reveal_strlit("### Hourly Predictions (next 24 h, per city)");
    reveal_strlit("### Model Performance (held-out test set)");
    reveal_strlit("### Drift Monitor (last run)");
}

/// One of each live heading after a rewrite: when the data texts hold no
/// `'#'` and the sections hold no carriage return and neither marker, and
/// the README text kept around the live block holds no live heading, the
/// result of a successful rewrite holds the forecast, hourly and
/// performance headings exactly once each, and the drift heading exactly
/// once when a drift snapshot is shown and nowhere otherwise.
#[verifier::rlimit(30)]
pub proof fn lemma_rewrite_live_headings(
    source: Seq<char>,
    stamp: Seq<char>,
    cities: Seq<SummaryCity>,
    hourly: Seq<HourlyCity>,
    metas: Seq<ModelMeta>,
    n_successful: nat,
    n_cities: nat,
    drift: Option<DriftSummary>,
)
    requires
        clean_stamp(stamp),
        forall|i: int| 0 <= i < cities.len() ==> summary_city_plain(#[trigger] cities[i]),
        forall|i: int| 0 <= i < hourly.len() ==> hourly_city_plain(#[trigger] hourly[i]),
        forall|i: int| 0 <= i < metas.len() ==> meta_plain(#[trigger] metas[i]),
        drift matches Some(d) ==> drift_plain(d),
        free_of(
            summary_table(cities) + hourly_details(hourly) + performance_block(metas, n_successful, n_cities, drift),
            '\r',
        ),
        marker_free(
            summary_table(cities) + hourly_details(hourly) + performance_block(metas, n_successful, n_cities, drift),
        ),
    ensures
        ({
            let n = live_block(
                summary_table(cities),
                hourly_details(hourly),
                performance_block(metas, n_successful, n_cities, drift),
            );
            readme_rewrite(source, stamp, n) matches Ok(r) ==> {
                &&& collapsed(r) is Ok
                &&& (absent(collapsed(r)->Ok_0, forecast_header()) && absent(collapsed(r)->Ok_0, hourly_heading())
                    && absent(collapsed(r)->Ok_0, performance_heading()) && absent(collapsed(r)->Ok_0, drift_heading()))
                    ==> {
                    &&& occurs_once(r, forecast_header())
                    &&& occurs_once(r, hourly_heading())
                    &&& occurs_once(r, performance_heading())
                    &&& (drift is Some ==> occurs_once(r, drift_heading()))
                    &&& (drift is None ==> absent(r, drift_heading()))
                }
            }
        }),
{
    let s = summary_table(cities);
    let h = hourly_details(hourly);
    let p = performance_block(metas, n_successful, n_cities, drift);
    let n = live_block(s, h, p);
    lemma_live_block_marked(s, h, p);
    lemma_live_block_headings(cities, hourly, metas, n_successful, n_cities, drift);
    lemma_headings_no_angle();
    lemma_heading_start(forecast_header());
    lemma_heading_start(hourly_heading());
    lemma_heading_start(performance_heading());
    lemma_heading_start(drift_heading());
    lemma_rewrite_once(source, stamp, n, forecast_header());
    lemma_rewrite_once(source, stamp, n, hourly_heading());
    lemma_rewrite_once(source, stamp, n, performance_heading());
    lemma_rewrite_once(source, stamp, n, drift_heading());
}


} // verus!
