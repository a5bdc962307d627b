//! README injector: marker-anchored rewrite of the live-prediction block.
//!
//! The live block is delimited by `<!-- BEGIN:LIVE_PREDICTIONS -->` and
//! `<!-- END:LIVE_PREDICTIONS -->`.  Every run replaces the text between
//! those markers in full, which makes the rewrite idempotent; a README
//! without markers is migrated by cutting from the forecast heading up to
//! the next level-2 heading.

use vstd::prelude::*;
use vstd::string::StringExecFns;
use crate::production::clock::{clock_reading, utc_minute_text, utc_now_stamp, utc_stamp_shape};
use crate::production::readme_laws::clean_stamp;
use crate::production::text::{
    concat_all, decimal, decimal_string,
    chars_of, extend_all, extend_range, find_chars, first_occ, lemma_first_occ, occurs_at,
    occurs_at_exec, starts_with, string_of,
};

verus! {

/// Line marker of the older daily-update banner.
pub open spec fn old_mark() -> Seq<char> {
    "> Auto-updated daily at 06:00 UTC"@
}

/// Line marker of the current banner.
pub open spec fn new_mark() -> Seq<char> {
    "> Auto-updated every 3 h"@
}

/// Opening sentinel of the live block.
pub open spec fn begin_mark() -> Seq<char> {
    "<!-- BEGIN:LIVE_PREDICTIONS -->"@
}

/// Closing sentinel of the live block.
pub open spec fn end_mark() -> Seq<char> {
    "<!-- END:LIVE_PREDICTIONS -->"@
}

/// Heading of the forecast table, the anchor of a README without markers.
pub open spec fn forecast_header() -> Seq<char> {
    "### 24-Hour, 48-Hour & 72-Hour Forecast"@
}

/// Start of the level-2 heading that ends the migrated region.
pub open spec fn next_level2() -> Seq<char> {
    "\n## "@
}

/// Separator written after a migrated live block.
pub open spec fn rule_sep() -> Seq<char> {
    "\n\n---\n"@
}

/// Start of the banner line written on every run.
pub open spec fn last_run_prefix() -> Seq<char> {
    "> Auto-updated every 3 h via GitHub Actions | Last run: "@
}

/// Some marker of `ms` is a prefix of `l`.
pub open spec fn has_marker_prefix(l: Seq<char>, ms: Seq<Seq<char>>) -> bool {
    exists|j: int| 0 <= j < ms.len() && starts_with(l, #[trigger] ms[j])
}

/// A line after replacement: `nl` if it starts with a marker, else itself.
pub open spec fn swap_line(l: Seq<char>, ms: Seq<Seq<char>>, nl: Seq<char>) -> Seq<char> {
    if has_marker_prefix(l, ms) {
        nl
    } else {
        l
    }
}

/// Index of the first `'\n'` at or after `i`, or the length of `t`.
pub open spec fn line_end(t: Seq<char>, i: int) -> int
    decreases t.len() - i,
{
    if i < 0 || i >= t.len() {
        t.len() as int
    } else if t[i] == '\n' {
        i
    } else {
        line_end(t, i + 1)
    }
}

/// Drop one trailing carriage return.
pub open spec fn strip_cr(l: Seq<char>) -> Seq<char> {
    if l.len() > 0 && l.last() == '\r' {
        l.drop_last()
    } else {
        l
    }
}

/// `line_end` is the first newline at or after `i`.
pub proof fn lemma_line_end(t: Seq<char>, i: int)
    requires
        0 <= i,
    ensures
        i <= t.len() ==> i <= line_end(t, i) <= t.len(),
        i > t.len() ==> line_end(t, i) == t.len(),
        line_end(t, i) < t.len() ==> t[line_end(t, i)] == '\n',
        forall|k: int| i <= k < line_end(t, i) ==> t[k] != '\n',
    decreases t.len() - i,
{
    if i >= t.len() {
    } else if t[i] == '\n' {
    } else {
        lemma_line_end(t, i + 1);
    }
}

/// Lines of `t` from the line starting at `i` on, each replaced by
/// `swap_line` and joined with `'\n'`: the semantics of
/// `t.lines().map(..).collect::<Vec<_>>().join("\n")` from index `i`.
pub open spec fn replace_from(t: Seq<char>, i: int, ms: Seq<Seq<char>>, nl: Seq<char>) -> Seq<char>
    decreases t.len() - i,
{
    if i < 0 || i >= t.len() {
        Seq::empty()
    } else {
        let e = line_end(t, i);
        if e >= t.len() {
            swap_line(t.subrange(i, t.len() as int), ms, nl)
        } else if e + 1 >= t.len() {
            swap_line(strip_cr(t.subrange(i, e)), ms, nl)
        } else {
            proof {
                lemma_line_end(t, i);
            }
            swap_line(strip_cr(t.subrange(i, e)), ms, nl) + seq!['\n'] + replace_from(
                t,
                e + 1,
                ms,
                nl,
            )
        }
    }
}

/// Every line of `t` that starts with a marker of `ms` replaced by `nl`.
pub open spec fn replace_lines(t: Seq<char>, ms: Seq<Seq<char>>, nl: Seq<char>) -> Seq<char> {
    replace_from(t, 0, ms, nl)
}

/// The views of a list of strings.
pub open spec fn views(ms: Seq<Vec<char>>) -> Seq<Seq<char>> {
    ms.map_values(|m: Vec<char>| m@)
}

/// Some marker of `ms` is a prefix of `t[i..le]`.
fn line_has_marker(t: &Vec<char>, i: usize, le: usize, ms: &Vec<Vec<char>>) -> (b: bool)
    requires
        i <= le <= t.len(),
    ensures
        b == has_marker_prefix(t@.subrange(i as int, le as int), views(ms@)),
{
    let ghost line = t@.subrange(i as int, le as int);
    let mut j: usize = 0;
    while j < ms.len()
        invariant
            i <= le <= t.len(),
            line == t@.subrange(i as int, le as int),
            j <= ms.len(),
            forall|k: int| 0 <= k < j ==> !starts_with(line, #[trigger] views(ms@)[k]),
        decreases ms.len() - j,
    {
        let m = &ms[j];
        assert(views(ms@)[j as int] == m@);
        if m.len() <= le - i && occurs_at_exec(t, m, i) {
            assert(line.subrange(0, m@.len() as int) =~= t@.subrange(i as int, i + m@.len()));
            assert(starts_with(line, views(ms@)[j as int]));
            return true;
        }
        proof {
            if starts_with(line, m@) {
                assert(line.subrange(0, m@.len() as int) =~= t@.subrange(i as int, i + m@.len()));
            }
        }
        j = j + 1;
    }
    false
}

/// `replace_lines` over character vectors.
fn replace_lines_vec(t: &Vec<char>, ms: &Vec<Vec<char>>, nl: &Vec<char>) -> (out: Vec<char>)
    ensures
        out@ == replace_lines(t@, views(ms@), nl@),
{
    let mut out: Vec<char> = Vec::new();
    let n = t.len();
    if n == 0 {
        return out;
    }
    let mut i: usize = 0;
    loop
        invariant
            n == t.len(),
            i < n,
            replace_lines(t@, views(ms@), nl@) == out@ + replace_from(t@, i as int, views(ms@), nl@),
        decreases n - i,
    {
        let mut e = i;
        while e < n && t[e] != '\n'
            invariant
                n == t.len(),
                i <= e <= n,
                line_end(t@, i as int) == line_end(t@, e as int),
            decreases n - e,
        {
            e = e + 1;
        }
        proof {
            lemma_line_end(t@, i as int);
        }
        let le = if e < n && e > i && t[e - 1] == '\r' {
            e - 1
        } else {
            e
        };
        proof {
            if e < n {
                if e > i && t@[e - 1] == '\r' {
                    assert(t@.subrange(i as int, le as int) =~= strip_cr(
                        t@.subrange(i as int, e as int),
                    ));
                } else {
                    assert(t@.subrange(i as int, le as int) =~= strip_cr(
                        t@.subrange(i as int, e as int),
                    ));
                }
            }
        }
        let ghost before = out@;
        if line_has_marker(t, i, le, ms) {
            extend_all(&mut out, nl);
        } else {
            extend_range(&mut out, t, i, le);
        }
        if e >= n - 1 {
            return out;
        }
        out.push('\n');
        proof {
            assert(out@ == before + swap_line(t@.subrange(i as int, le as int), views(ms@), nl@)
                + seq!['\n']);
        }
        i = e + 1;
    }
}

/// Character vectors of a list of string slices.
fn chars_of_all(ms: &[&str]) -> (r: Vec<Vec<char>>)
    ensures
        views(r@) == ms@.map_values(|m: &str| m@),
{
    let mut r: Vec<Vec<char>> = Vec::new();
    let mut j: usize = 0;
    while j < ms.len()
        invariant
            j <= ms.len(),
            r.len() == j,
            forall|k: int| 0 <= k < j ==> #[trigger] r@[k]@ == ms@[k]@,
        decreases ms.len() - j,
    {
        let c = chars_of(ms[j]);
        r.push(c);
        j = j + 1;
    }
    assert(views(r@) =~= ms@.map_values(|m: &str| m@));
    r
}

/// Replace every line of `src` that starts with one of `markers` by
/// `new_line`; lines are split as `str::lines` splits them and joined
/// with `'\n'`.
pub fn replace_line_multi(src: &str, markers: &[&str], new_line: &str) -> (r: String)
    ensures
        r@ == replace_lines(src@, markers@.map_values(|m: &str| m@), new_line@),
{
    let t = chars_of(src);
    let ms = chars_of_all(markers);
    let nl = chars_of(new_line);
    let out = replace_lines_vec(&t, &ms, &nl);
    string_of(&out)
}


/// Why a README cannot be rewritten.
#[derive(Debug, Clone, Copy, PartialEq, Eq, Structural)]
pub enum ReadmeError {
    /// The end marker comes before the begin marker.
    EndBeforeBegin,
    /// Only one of the two markers is present.
    UnpairedMarker,
    /// Neither the markers nor the forecast heading are present.
    NoAnchor,
    /// The forecast heading is present but no level-2 heading follows it.
    NoLevel2After,
    /// The system clock could not be read as a UTC time for the banner.
    ClockUnavailable,
}

/// Replace the live block of `u` by `block`: between the markers when
/// both are present in order, else from the forecast heading up to the
/// next level-2 heading.
pub open spec fn splice_live_block(u: Seq<char>, block: Seq<char>) -> Result<Seq<char>, ReadmeError> {
    match (first_occ(u, begin_mark()), first_occ(u, end_mark())) {
        (Some(b), Some(e)) => {
            if e > b {
                Ok(u.subrange(0, b) + block + u.subrange(e + end_mark().len(), u.len() as int))
            } else {
                Err(ReadmeError::EndBeforeBegin)
            }
        },
        (Some(_), None) => Err(ReadmeError::UnpairedMarker),
        (None, Some(_)) => Err(ReadmeError::UnpairedMarker),
        (None, None) => match first_occ(u, forecast_header()) {
            None => Err(ReadmeError::NoAnchor),
            Some(start) => match first_occ(u.subrange(start, u.len() as int), next_level2()) {
                None => Err(ReadmeError::NoLevel2After),
                Some(off) => Ok(
                    u.subrange(0, start) + block + rule_sep() + u.subrange(
                        start + off,
                        u.len() as int,
                    ),
                ),
            },
        },
    }
}

/// The banner markers, old and new.
pub open spec fn banner_marks() -> Seq<Seq<char>> {
    seq![old_mark(), new_mark()]
}

/// The whole rewrite: refresh the banner line with `stamp`, then splice
/// `block` in as the live block.
pub open spec fn readme_rewrite(source: Seq<char>, stamp: Seq<char>, block: Seq<char>) -> Result<
    Seq<char>,
    ReadmeError,
> {
    splice_live_block(replace_lines(source, banner_marks(), last_run_prefix() + stamp), block)
}

/// View of a rewrite result.
pub open spec fn result_view(r: Result<String, ReadmeError>) -> Result<Seq<char>, ReadmeError> {
    match r {
        Ok(s) => Ok(s@),
        Err(e) => Err(e),
    }
}

/// Copy of `u[from..u.len()]`.
fn suffix_vec(u: &Vec<char>, from: usize) -> (r: Vec<char>)
    requires
        from <= u.len(),
    ensures
        r@ == u@.subrange(from as int, u.len() as int),
{
    let mut r: Vec<char> = Vec::new();
    extend_range(&mut r, u, from, u.len());
    r
}

/// `splice_live_block` over character vectors.
fn splice_vec(u: &Vec<char>, block: &Vec<char>) -> (r: Result<Vec<char>, ReadmeError>)
    ensures
        match r {
            Ok(v) => splice_live_block(u@, block@) == Ok::<Seq<char>, ReadmeError>(v@),
            Err(e) => splice_live_block(u@, block@) == Err::<Seq<char>, ReadmeError>(e),
        },
{
    let bm = chars_of("<!-- BEGIN:LIVE_PREDICTIONS -->");
    let em = chars_of("<!-- END:LIVE_PREDICTIONS -->");
    proof {
        lemma_first_occ(u@, em@);
    }
    match (find_chars(u, &bm), find_chars(u, &em)) {
        (Some(b), Some(e)) => {
            if e > b {
                let mut out: Vec<char> = Vec::new();
                extend_range(&mut out, u, 0, b);
                extend_all(&mut out, block);
                extend_range(&mut out, u, e + em.len(), u.len());
                Ok(out)
            } else {
                Err(ReadmeError::EndBeforeBegin)
            }
        },
        (Some(_), None) => Err(ReadmeError::UnpairedMarker),
        (None, Some(_)) => Err(ReadmeError::UnpairedMarker),
        (None, None) => {
            let hm = chars_of("### 24-Hour, 48-Hour & 72-Hour Forecast");
            match find_chars(u, &hm) {
                None => Err(ReadmeError::NoAnchor),
                Some(start) => {
                    proof {
                        lemma_first_occ(u@, hm@);
                    }
                    let tail = suffix_vec(u, start);
                    let l2 = chars_of("\n## ");
                    match find_chars(&tail, &l2) {
                        None => Err(ReadmeError::NoLevel2After),
                        Some(off) => {
                            proof {
                                lemma_first_occ(tail@, l2@);
                            }
                            let sep = chars_of("\n\n---\n");
                            let mut out: Vec<char> = Vec::new();
                            extend_range(&mut out, u, 0, start);
                            extend_all(&mut out, block);
                            extend_all(&mut out, &sep);
                            extend_range(&mut out, u, start + off, u.len());
                            Ok(out)
                        },
                    }
                },
            }
        },
    }
}

/// Rewrite a README body: every banner line (old or new style) becomes
/// `"> Auto-updated every 3 h via GitHub Actions | Last run: " + stamp`,
/// then `live_block` is spliced in as the live block.
pub fn rewrite_readme_at(source: &str, stamp: &str, live_block: &str) -> (r: Result<
    String,
    ReadmeError,
>)
    ensures
        result_view(r) == readme_rewrite(source@, stamp@, live_block@),
{
    let t = chars_of(source);
    let ms: Vec<Vec<char>> = vec![
        chars_of("> Auto-updated daily at 06:00 UTC"),
        chars_of("> Auto-updated every 3 h"),
    ];
    assert(views(ms@) =~= banner_marks());
    let mut nl = chars_of("> Auto-updated every 3 h via GitHub Actions | Last run: ");
    let st = chars_of(stamp);
    extend_all(&mut nl, &st);
    let u = replace_lines_vec(&t, &ms, &nl);
    let block = chars_of(live_block);
    match splice_vec(&u, &block) {
        Ok(v) => Ok(string_of(&v)),
        Err(e) => Err(e),
    }
}


/// Column header of the forecast summary table.
pub const SUMMARY_COLUMNS: &'static str = "| City | Country | As of (local) | Current | +24h | +48h | +72h | Rain 24h | NWP precip | ML only | Confidence |\n";

/// Rule line of the forecast summary table.
pub const SUMMARY_RULE: &'static str = "|------|---------|---------------|---------|------|------|------|----------|------------|---------|------------|\n";

/// Explanation printed under the forecast summary table.
pub const RAIN_NOTE: &'static str = "> **How to read the rain columns.** `Rain 24h` is the **blended** probability that there will be any rain at all in the next 24 h, computed as `α·p_NWP + (1−α)·p_ML` with `α = 0.9`. The physical NWP signal dominates because the ML classifier was trained on a target (`precip_sum_next_24h > 0 mm`) that was 73.6 % positive in the training set and therefore has a positive prior bias. `NWP precip` shows the *actual* predicted rainfall in millimetres from Open-Meteo's numerical weather model, plus how many hours will have any precipitation. `ML only` shows the bagging-ensemble probability in isolation so you can see the drift. `+24h`, `+48h`, `+72h` come from dedicated Ridge (α=10) regressors trained in Notebook 05 on `temp_next_{24,48,72}h` with RMSE 3.5 / 4.5 / 5.1 °C. `Confidence` is ±1σ = ±RMSE of the 24 h test. `As of (local)` is the city's local timestamp of the last observed hour that anchors the forecast (end of the Open-Meteo past window, typically 23:00 of the previous day).\n";

/// Heading of the hourly section.
pub const HOURLY_HEADING: &'static str = "\n### Hourly Predictions (next 24 h, per city)\n\n";

/// Introduction of the hourly section.
pub const HOURLY_INTRO: &'static str = "Click a city to expand. Each row is one hour; `temp` is our Ridge 24 h model rolled across the past 24 hours, `rain %` is the calibrated bagging probability, `precip` and `clouds` and `wind` come from Open-Meteo's own NWP forecast.\n\n";

/// Column header of an hourly table.
pub const HOURLY_COLUMNS: &'static str = "| +h | local time | temp | rain % | (NWP) | (ML) | precip | clouds | wind | conditions |\n";

/// Rule line of an hourly table.
pub const HOURLY_RULE: &'static str = "|----|------------|------|--------|-------|------|--------|--------|------|------------|\n";

/// Heading and header of the performance table.
pub const PERFORMANCE_HEAD: &'static str = "\n### Model Performance (held-out test set)\n\n| Metric | Value |\n|--------|-------|\n";

/// Heading of the drift section.
pub const DRIFT_HEADING: &'static str = "\n### Drift Monitor (last run)\n\n";

/// Column header and rule of the drift table.
pub const DRIFT_COLUMNS: &'static str = "| Feature | PSI | KS | Mean shift (σ_ref) | Status |\n|---------|-----|----|--------------------|--------|\n";

/// The summary line of one city: name, flag and the `HH:MM` of its
/// reference local time, then its figures (the rendered temperature,
/// rain and confidence cells, joined by `" | "`).
pub struct SummaryCity {
    pub city: String,
    pub flag: String,
    pub reference_local_time: String,
    pub figures: String,
}

/// Text of a city's summary line.
pub open spec fn summary_row(c: SummaryCity) -> Seq<char> {
    "| "@ + c.city@ + " | "@ + c.flag@ + " | "@ + hour_short(c.reference_local_time@) + " | "@
        + c.figures@ + " |\n"@
}

/// The forecast summary table: heading, column header, one line per
/// city in the given order, and the explanation of the rain columns.
pub open spec fn summary_table(cities: Seq<SummaryCity>) -> Seq<char> {
    forecast_header() + "\n\n"@ + SUMMARY_COLUMNS@ + SUMMARY_RULE@ + concat_all(
        cities.map_values(|c: SummaryCity| summary_row(c)),
    ) + "\n"@ + RAIN_NOTE@
}

fn append_summary_row(out: &mut String, c: &SummaryCity)
    ensures
        final(out)@ == old(out)@ + summary_row(*c),
{
    out.append("| ");
    out.append(c.city.as_str());
    out.append(" | ");
    out.append(c.flag.as_str());
    out.append(" | ");
    let hour = local_hour_short(c.reference_local_time.as_str());
    out.append(hour.as_str());
    out.append(" | ");
    out.append(c.figures.as_str());
    out.append(" |\n");
}

/// Build the forecast summary table, one line per city.
pub fn build_summary_table(cities: &[SummaryCity]) -> (out: String)
    ensures
        out@ == summary_table(cities@),
{
    let mut out = String::new();
    out.append("### 24-Hour, 48-Hour & 72-Hour Forecast");
    out.append("\n\n");
    out.append(SUMMARY_COLUMNS);
    out.append(SUMMARY_RULE);
    let ghost head = out@;
    let ghost texts = cities@.map_values(|c: SummaryCity| summary_row(c));
    let mut i: usize = 0;
    while i < cities.len()
        invariant
            i <= cities.len(),
            texts == cities@.map_values(|c: SummaryCity| summary_row(c)),
            out@ == head + concat_all(texts.take(i as int)),
        decreases cities.len() - i,
    {
        append_summary_row(&mut out, &cities[i]);
        i = i + 1;
        assert(texts.take(i as int).drop_last() =~= texts.take(i - 1));
    }
    assert(texts.take(cities.len() as int) =~= texts);
    out.append("\n");
    out.append(RAIN_NOTE);
    out
}

/// `lt` with every `'T'` replaced by a space.
pub open spec fn spaced(lt: Seq<char>) -> Seq<char> {
    lt.map_values(|c: char| if c == 'T' { ' ' } else { c })
}

/// Replace every `'T'` of a local time by a space.
pub fn spaced_time(lt: &str) -> (r: String)
    ensures
        r@ == spaced(lt@),
{
    let t = chars_of(lt);
    let mut v: Vec<char> = Vec::new();
    let mut i: usize = 0;
    while i < t.len()
        invariant
            i <= t.len(),
            v@ == spaced(t@.take(i as int)),
        decreases t.len() - i,
    {
        if t[i] == 'T' {
            v.push(' ');
        } else {
            v.push(t[i]);
        }
        i = i + 1;
        assert(v@ =~= spaced(t@.take(i as int)));
    }
    assert(t@.take(t.len() as int) =~= t@);
    string_of(&v)
}

/// A signed integer in decimal.
pub open spec fn signed_decimal(n: int) -> Seq<char> {
    if n < 0 {
        seq!['-'] + decimal((-n) as nat)
    } else {
        decimal(n as nat)
    }
}

/// A signed integer in decimal, as `{}` formats an `i32`.
pub fn signed_decimal_string(n: i32) -> (s: String)
    ensures
        s@ == signed_decimal(n as int),
{
    if n < 0 {
        let m: i64 = -(n as i64);
        let mut s = String::new();
        s.append("-");
        let d = decimal_string(m as usize);
        s.append(d.as_str());
        proof {
            reveal_strlit("-");
        }
        s
    } else {
        decimal_string(n as usize)
    }
}

/// One hour of a city's hourly table: its offset, its local time, its
/// figures (the rendered temperature, rain, precipitation, cloud and
/// wind cells, joined by `" | "`) and its condition name.
pub struct HourlyRow {
    pub hour_offset: i32,
    pub local_time: String,
    pub figures: String,
    pub condition: String,
}

/// Text of an hourly line: the local-time cell has `'T'` replaced by a
/// space.
pub open spec fn hourly_row(h: HourlyRow) -> Seq<char> {
    "| +"@ + signed_decimal(h.hour_offset as int) + " | "@ + spaced(h.local_time@) + " | "@
        + h.figures@ + " | "@ + h.condition@ + " |\n"@
}

fn append_hourly_row(out: &mut String, h: &HourlyRow)
    ensures
        final(out)@ == old(out)@ + hourly_row(*h),
{
    out.append("| +");
    let off = signed_decimal_string(h.hour_offset);
    out.append(off.as_str());
    out.append(" | ");
    let t = spaced_time(h.local_time.as_str());
    out.append(t.as_str());
    out.append(" | ");
    out.append(h.figures.as_str());
    out.append(" | ");
    out.append(h.condition.as_str());
    out.append(" |\n");
}

/// One city of the hourly section: its header fields and its hours.
pub struct HourlyCity {
    pub flag: String,
    pub name: String,
    pub climate_zone: String,
    pub timezone: String,
    pub rows: Vec<HourlyRow>,
}

/// The collapsible hourly table of one city: one line per hour, in order.
pub open spec fn hourly_city_text(c: HourlyCity) -> Seq<char> {
    "<details><summary><strong>"@ + c.flag@ + " "@ + c.name@ + "</strong> — "@ + c.climate_zone@
        + ", "@ + c.timezone@ + "</summary>\n\n"@ + HOURLY_COLUMNS@ + HOURLY_RULE@ + concat_all(
        c.rows@.map_values(|h: HourlyRow| hourly_row(h)),
    ) + "\n</details>\n\n"@
}

/// The hourly section: heading, introduction, one table per city.
pub open spec fn hourly_details(cities: Seq<HourlyCity>) -> Seq<char> {
    HOURLY_HEADING@ + HOURLY_INTRO@ + concat_all(cities.map_values(|c: HourlyCity| hourly_city_text(c)))
}

fn append_hourly_city(out: &mut String, c: &HourlyCity)
    ensures
        final(out)@ == old(out)@ + hourly_city_text(*c),
{
    out.append("<details><summary><strong>");
    out.append(c.flag.as_str());
    out.append(" ");
    out.append(c.name.as_str());
    out.append("</strong> — ");
    out.append(c.climate_zone.as_str());
    out.append(", ");
    out.append(c.timezone.as_str());
    out.append("</summary>\n\n");
    out.append(HOURLY_COLUMNS);
    out.append(HOURLY_RULE);
    let ghost head = out@;
    let ghost texts = c.rows@.map_values(|h: HourlyRow| hourly_row(h));
    let mut i: usize = 0;
    while i < c.rows.len()
        invariant
            i <= c.rows.len(),
            texts == c.rows@.map_values(|h: HourlyRow| hourly_row(h)),
            out@ == head + concat_all(texts.take(i as int)),
        decreases c.rows.len() - i,
    {
        append_hourly_row(out, &c.rows[i]);
        i = i + 1;
        assert(texts.take(i as int).drop_last() =~= texts.take(i - 1));
    }
    assert(texts.take(c.rows.len() as int) =~= texts);
    out.append("\n</details>\n\n");
}

/// Build the hourly section.
pub fn build_hourly_details(cities: &[HourlyCity]) -> (out: String)
    ensures
        out@ == hourly_details(cities@),
{
    let mut out = String::new();
    out.append(HOURLY_HEADING);
    out.append(HOURLY_INTRO);
    let ghost texts = cities@.map_values(|c: HourlyCity| hourly_city_text(c));
    let mut i: usize = 0;
    while i < cities.len()
        invariant
            i <= cities.len(),
            texts == cities@.map_values(|c: HourlyCity| hourly_city_text(c)),
            out@ == HOURLY_HEADING@ + HOURLY_INTRO@ + concat_all(texts.take(i as int)),
        decreases cities.len() - i,
    {
        append_hourly_city(&mut out, &cities[i]);
        i = i + 1;
        assert(texts.take(i as int).drop_last() =~= texts.take(i - 1));
    }
    assert(texts.take(cities.len() as int) =~= texts);
    out
}

/// Model description of a forecast: model names, contract version, and
/// the rendered RMSE and bias cells.
pub struct ModelMeta {
    pub model_24h: String,
    pub model_48h: String,
    pub model_72h: String,
    pub rain_model: String,
    pub rmse_24h: String,
    pub rmse_48h: String,
    pub rmse_72h: String,
    pub bias_24h: String,
    pub model_version: String,
}

/// The model lines of the performance table.
pub open spec fn metric_rows(m: ModelMeta) -> Seq<char> {
    "| 24 h model | "@ + m.model_24h@ + " |\n"@ + "| 48 h model | "@ + m.model_48h@ + " |\n"@
        + "| 72 h model | "@ + m.model_72h@ + " |\n"@ + "| Rain model | "@ + m.rain_model@
        + " |\n"@ + "| Test RMSE (24 h) | "@ + m.rmse_24h@ + " °C |\n"@ + "| Test RMSE (48 h) | "@
        + m.rmse_48h@ + " °C |\n"@ + "| Test RMSE (72 h) | "@ + m.rmse_72h@ + " °C |\n"@
        + "| Bias correction (24 h) | "@ + m.bias_24h@ + " °C |\n"@ + "| Contract version | "@
        + m.model_version@ + " |\n"@
}

/// One monitored feature of a drift snapshot, with its rendered PSI, KS
/// and mean-shift cells.
pub struct DriftFeatureRow {
    pub name: String,
    pub psi: String,
    pub ks: String,
    pub shift: String,
    pub status: String,
}

/// A drift snapshot as the performance block shows it.
pub struct DriftSummary {
    pub any_drift: bool,
    pub max_psi: String,
    pub n_observations: usize,
    pub n_cities: usize,
    pub features: Vec<DriftFeatureRow>,
}

/// Text of a feature line of the drift table.
pub open spec fn drift_row(f: DriftFeatureRow) -> Seq<char> {
    "| `"@ + f.name@ + "` | "@ + f.psi@ + " | "@ + f.ks@ + " | "@ + f.shift@ + " | "@ + f.status@
        + " |\n"@
}

/// The banner line of the drift section: a warning sign and "drift
/// detected" when drift was found, else a check mark and "stable".
pub open spec fn drift_banner(d: DriftSummary) -> Seq<char> {
    (if d.any_drift {
        "⚠"@
    } else {
        "✓"@
    }) + " Max PSI = "@ + d.max_psi@ + "  |  observations = "@ + decimal(d.n_observations as nat)
        + "  |  cities = "@ + decimal(d.n_cities as nat) + "  |  status = "@ + (if d.any_drift {
        "drift detected"@
    } else {
        "stable"@
    }) + "\n\n"@
}

/// The drift section: heading, banner, column header, one line per
/// feature in the given order.
pub open spec fn drift_section(d: DriftSummary) -> Seq<char> {
    DRIFT_HEADING@ + drift_banner(d) + DRIFT_COLUMNS@ + concat_all(
        d.features@.map_values(|f: DriftFeatureRow| drift_row(f)),
    )
}

/// The performance block: the model lines of the first city's forecast
/// (none when no city succeeded), the count of successful cities, and
/// the drift section when a drift snapshot exists.
pub open spec fn performance_block(
    metas: Seq<ModelMeta>,
    n_successful: nat,
    n_cities: nat,
    drift: Option<DriftSummary>,
) -> Seq<char> {
    PERFORMANCE_HEAD@ + (if metas.len() > 0 {
        metric_rows(metas[0])
    } else {
        Seq::empty()
    }) + "| Successful cities | "@ + decimal(n_successful) + " / "@ + decimal(n_cities)
        + " |\n"@ + match drift {
        None => Seq::empty(),
        Some(d) => drift_section(d),
    }
}

fn append_metric_rows(out: &mut String, m: &ModelMeta)
    ensures
        final(out)@ == old(out)@ + metric_rows(*m),
{
    out.append("| 24 h model | ");
    out.append(m.model_24h.as_str());
    out.append(" |\n");
    out.append("| 48 h model | ");
    out.append(m.model_48h.as_str());
    out.append(" |\n");
    out.append("| 72 h model | ");
    out.append(m.model_72h.as_str());
    out.append(" |\n");
    out.append("| Rain model | ");
    out.append(m.rain_model.as_str());
    out.append(" |\n");
    out.append("| Test RMSE (24 h) | ");
    out.append(m.rmse_24h.as_str());
    out.append(" °C |\n");
    out.append("| Test RMSE (48 h) | ");
    out.append(m.rmse_48h.as_str());
    out.append(" °C |\n");
    out.append("| Test RMSE (72 h) | ");
    out.append(m.rmse_72h.as_str());
    out.append(" °C |\n");
    out.append("| Bias correction (24 h) | ");
    out.append(m.bias_24h.as_str());
    out.append(" °C |\n");
    out.append("| Contract version | ");
    out.append(m.model_version.as_str());
    out.append(" |\n");
}

fn append_drift_row(out: &mut String, f: &DriftFeatureRow)
    ensures
        final(out)@ == old(out)@ + drift_row(*f),
{
    out.append("| `");
    out.append(f.name.as_str());
    out.append("` | ");
    out.append(f.psi.as_str());
    out.append(" | ");
    out.append(f.ks.as_str());
    out.append(" | ");
    out.append(f.shift.as_str());
    out.append(" | ");
    out.append(f.status.as_str());
    out.append(" |\n");
}

fn append_drift_banner(out: &mut String, d: &DriftSummary)
    ensures
        final(out)@ == old(out)@ + drift_banner(*d),
{
    if d.any_drift {
        out.append("⚠");
    } else {
        out.append("✓");
    }
    out.append(" Max PSI = ");
    out.append(d.max_psi.as_str());
    out.append("  |  observations = ");
    let n = decimal_string(d.n_observations);
    out.append(n.as_str());
    out.append("  |  cities = ");
    let c = decimal_string(d.n_cities);
    out.append(c.as_str());
    out.append("  |  status = ");
    if d.any_drift {
        out.append("drift detected");
    } else {
        out.append("stable");
    }
    out.append("\n\n");
}

#[verifier::spinoff_prover]
fn append_drift_section(out: &mut String, d: &DriftSummary)
    ensures
        final(out)@ == old(out)@ + drift_section(*d),
{
    out.append(DRIFT_HEADING);
    append_drift_banner(out, d);
    out.append(DRIFT_COLUMNS);
    let ghost head = out@;
    let ghost texts = d.features@.map_values(|f: DriftFeatureRow| drift_row(f));
    let mut i: usize = 0;
    while i < d.features.len()
        invariant
            i <= d.features.len(),
            texts == d.features@.map_values(|f: DriftFeatureRow| drift_row(f)),
            out@ == head + concat_all(texts.take(i as int)),
        decreases d.features.len() - i,
    {
        append_drift_row(out, &d.features[i]);
        i = i + 1;
        assert(texts.take(i as int).drop_last() =~= texts.take(i - 1));
    }
    assert(texts.take(d.features.len() as int) =~= texts);
}

/// Build the performance block from the model descriptions of the
/// successful cities (in order), the city counts and the drift snapshot.
pub fn build_performance_block(
    metas: &[ModelMeta],
    n_successful: usize,
    n_cities: usize,
    drift: Option<&DriftSummary>,
) -> (out: String)
    ensures
        out@ == performance_block(
            metas@,
            n_successful as nat,
            n_cities as nat,
            match drift {
                None => None,
                Some(d) => Some(*d),
            },
        ),
{
    let mut out = String::new();
    out.append(PERFORMANCE_HEAD);
    if metas.len() > 0 {
        append_metric_rows(&mut out, &metas[0]);
    }
    out.append("| Successful cities | ");
    let ok = decimal_string(n_successful);
    out.append(ok.as_str());
    out.append(" / ");
    let all = decimal_string(n_cities);
    out.append(all.as_str());
    out.append(" |\n");
    match drift {
        None => {},
        Some(d) => {
            append_drift_section(&mut out, d);
        },
    }
    out
}

/// The live block: the three sections between the two markers.
pub open spec fn live_block(summary: Seq<char>, hourly: Seq<char>, performance: Seq<char>) -> Seq<
    char,
> {
    begin_mark() + "\n"@ + summary + hourly + performance + "\n"@ + end_mark()
}

/// Wrap the rendered sections between the begin and end markers.
pub fn build_live_block(summary: &str, hourly: &str, performance: &str) -> (out: String)
    ensures
        out@ == live_block(summary@, hourly@, performance@),
{
    let mut out = String::new();
    out.append("<!-- BEGIN:LIVE_PREDICTIONS -->");
    out.append("\n");
    out.append(summary);
    out.append(hourly);
    out.append(performance);
    out.append("\n");
    out.append("<!-- END:LIVE_PREDICTIONS -->");
    out
}


/// Rewrite a README body with the current UTC time as the banner stamp.
/// When the clock cannot be read the result is `ClockUnavailable`;
/// otherwise it is the rewrite of `readme_rewrite` with the stamp that
/// renders a clock reading, of the shape `YYYY-MM-DD HH:MM UTC`.
pub fn rewrite_readme(source: &str, live_block: &str) -> (r: Result<String, ReadmeError>)
    ensures
        r == Err::<String, ReadmeError>(ReadmeError::ClockUnavailable) || exists|stamp: Seq<char>|
            clean_stamp(stamp) && utc_stamp_shape(stamp) && result_view(r) == #[trigger] readme_rewrite(
                source@,
                stamp,
                live_block@,
            ),
        r == Err::<String, ReadmeError>(ReadmeError::ClockUnavailable) || exists|secs: i64, stamp: Seq<char>|
            #![trigger clock_reading(secs), readme_rewrite(source@, stamp, live_block@)]
            clock_reading(secs) && utc_minute_text(secs as int) == Some(stamp) && result_view(r)
                == readme_rewrite(source@, stamp, live_block@),
{
    match utc_now_stamp() {
        None => Err(ReadmeError::ClockUnavailable),
        Some(stamp) => {
            let r = rewrite_readme_at(source, stamp.as_str(), live_block);
            assert(result_view(r) == readme_rewrite(source@, stamp@, live_block@));
            r
        },
    }
}

/// The second `'T'`-separated field of `iso` (the whole text when it has
/// no `'T'`), cut to its first five characters: `"HH:MM"` of an ISO
/// local time.
pub open spec fn hour_short(iso: Seq<char>) -> Seq<char> {
    let field = match first_occ(iso, seq!['T']) {
        None => iso,
        Some(i) => {
            let rest = iso.subrange(i + 1, iso.len() as int);
            match first_occ(rest, seq!['T']) {
                None => rest,
                Some(j) => rest.subrange(0, j),
            }
        },
    };
    if field.len() <= 5 {
        field
    } else {
        field.subrange(0, 5)
    }
}

/// Extract `HH:MM` from an ISO local-time string.
pub fn local_hour_short(iso: &str) -> (r: String)
    ensures
        r@ == hour_short(iso@),
{
    let t = chars_of(iso);
    let sep: Vec<char> = vec!['T'];
    assert(sep@ =~= seq!['T']);
    let found = find_chars(&t, &sep);
    proof {
        lemma_first_occ(t@, sep@);
    }
    let field: Vec<char> = if let Some(i) = found {
        assert(occurs_at(t@, sep@, i as int));
        assert(sep@.len() == 1);
        assert(i + 1 <= t@.len());
        assert(t@.len() == t.len());
        assert(i < t.len());
        let rest = suffix_vec(&t, i + 1);
        let found2 = find_chars(&rest, &sep);
        proof {
            lemma_first_occ(rest@, sep@);
        }
        if let Some(j) = found2 {
            assert(occurs_at(rest@, sep@, j as int));
            let mut f: Vec<char> = Vec::new();
            extend_range(&mut f, &rest, 0, j);
            f
        } else {
            rest
        }
    } else {
        t
    };
    let mut out: Vec<char> = Vec::new();
    if field.len() <= 5 {
        extend_all(&mut out, &field);
    } else {
        extend_range(&mut out, &field, 0, 5);
    }
    string_of(&out)
}

/// For a local time with a single `'T'` at index `p` and at least five
/// characters after it (as `"2026-04-18T01:00"`), the short local hour
/// is the five characters after the `'T'`.
pub proof fn lemma_hour_short_iso(iso: Seq<char>, p: int)
    requires
        0 <= p,
        p + 6 <= iso.len(),
        iso[p] == 'T',
        forall|k: int| 0 <= k < iso.len() && k != p ==> iso[k] != 'T',
    ensures
        hour_short(iso) == iso.subrange(p + 1, p + 6),
{
    assert forall|j: int| 0 <= j < p implies !occurs_at(iso, seq!['T'], j) by {
        if occurs_at(iso, seq!['T'], j) {
            assert(iso.subrange(j, j + 1)[0] == iso[j]);
        }
    }
    assert(iso.subrange(p, p + 1) =~= seq!['T']);
    crate::production::text::lemma_first_occ_is(iso, seq!['T'], p);
    let rest = iso.subrange(p + 1, iso.len() as int);
    assert forall|j: int| 0 <= j implies !occurs_at(rest, seq!['T'], j) by {
        if occurs_at(rest, seq!['T'], j) {
            assert(rest.subrange(j, j + 1)[0] == rest[j]);
            assert(rest[j] == iso[p + 1 + j]);
        }
    }
    crate::production::text::lemma_first_occ_none(rest, seq!['T']);
    assert(rest.subrange(0, 5) =~= iso.subrange(p + 1, p + 6));
}

} // verus!
