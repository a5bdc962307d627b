//! Feature-pipeline helpers over plain values: calendar fields of the
//! timestamps, feature-column naming, the climate-zone one-hot encoding,
//! and the row lookups of the per-city predictor.
//!
//! The floating-point feature arithmetic itself runs on data frames
//! outside this library.

use chrono::{Datelike, Timelike};
use vstd::prelude::*;
use vstd::string::StringExecFns;
use crate::production::text::{
    chars_of, decimal, decimal_string, lemma_lex_total, lemma_lex_trans, lex_le, lex_le_exec,
    lex_lt, str_eq,
};

verus! {

/// Calendar fields of a timestamp, as the cyclic encodings use them.
#[derive(Debug, Clone, Copy, PartialEq, Eq, Structural)]
pub struct CalendarFields {
    pub year: i32,
    /// 1..=12
    pub month: u32,
    /// 1..=31
    pub day: u32,
    /// 0..=23
    pub hour: u32,
    /// Monday = 0 .. Sunday = 6
    pub day_of_week: u32,
    /// 1..=366
    pub day_of_year: u32,
}

/// What `chrono::NaiveDateTime::parse_from_str(s, "%Y-%m-%dT%H:%M")`
/// yields for `s`, as calendar fields (`None` when parsing fails).
pub uninterp spec fn parsed_minute_timestamp(s: Seq<char>) -> Option<CalendarFields>;

/// Calls `chrono::NaiveDateTime::parse_from_str(s, "%Y-%m-%dT%H:%M")`
/// and reads `year`, `month`, `day`, `hour`,
/// `weekday().num_days_from_monday()` and `ordinal` of the result.
/// Claimed: the result is a function of `s` alone, and the fields lie in
/// the ranges that chrono documents for them.
#[verifier::external_body]
fn parse_minute_timestamp(s: &str) -> (r: Option<CalendarFields>)
    ensures
        r == parsed_minute_timestamp(s@),
        r matches Some(f) ==> 1 <= f.month <= 12 && 1 <= f.day <= 31 && f.hour <= 23
            && f.day_of_week <= 6 && 1 <= f.day_of_year <= 366,
{
    match chrono::NaiveDateTime::parse_from_str(s, "%Y-%m-%dT%H:%M") {
        Ok(dt) => Some(CalendarFields {
            year: dt.year(),
            month: dt.month(),
            day: dt.day(),
            hour: dt.hour(),
            day_of_week: dt.weekday().num_days_from_monday(),
            day_of_year: dt.ordinal(),
        }),
        Err(_) => None,
    }
}

/// Fields of 1970-01-01T00:00, a Thursday.
pub open spec fn epoch_fields() -> CalendarFields {
    CalendarFields { year: 1970, month: 1, day: 1, hour: 0, day_of_week: 3, day_of_year: 1 }
}

/// The parsed fields, or those of 1970-01-01T00:00 when parsing failed.
pub fn fields_or_epoch(parsed: Option<CalendarFields>) -> (f: CalendarFields)
    ensures
        f == match parsed {
            Some(p) => p,
            None => epoch_fields(),
        },
{
    match parsed {
        Some(p) => p,
        None => CalendarFields {
            year: 1970,
            month: 1,
            day: 1,
            hour: 0,
            day_of_week: 3,
            day_of_year: 1,
        },
    }
}

/// Calendar fields of an Open-Meteo timestamp (`"YYYY-MM-DDTHH:MM"`);
/// unparsable timestamps count as 1970-01-01T00:00.
pub fn timestamp_fields(s: &str) -> (f: CalendarFields)
    ensures
        f == match parsed_minute_timestamp(s@) {
            Some(p) => p,
            None => epoch_fields(),
        },
        1 <= f.month <= 12 && 1 <= f.day <= 31 && f.hour <= 23 && f.day_of_week <= 6 && 1
            <= f.day_of_year <= 366,
{
    fields_or_epoch(parse_minute_timestamp(s))
}

/// Short name of a raw variable in lag-column names.
pub open spec fn short_name_of(v: Seq<char>) -> Seq<char> {
    if v == "temperature_2m"@ {
        "temp"@
    } else if v == "dewpoint_2m"@ {
        "td"@
    } else if v == "pressure_msl"@ {
        "pres"@
    } else if v == "windspeed_10m"@ {
        "wind"@
    } else if v == "relativehumidity_2m"@ {
        "rh"@
    } else if v == "precipitation"@ {
        "precip"@
    } else {
        "x"@
    }
}

/// Short name of a raw variable in lag-column names.
pub fn short_name(v: &str) -> (s: &'static str)
    ensures
        s@ == short_name_of(v@),
{
    if str_eq(v, "temperature_2m") {
        "temp"
    } else if str_eq(v, "dewpoint_2m") {
        "td"
    } else if str_eq(v, "pressure_msl") {
        "pres"
    } else if str_eq(v, "windspeed_10m") {
        "wind"
    } else if str_eq(v, "relativehumidity_2m") {
        "rh"
    } else if str_eq(v, "precipitation") {
        "precip"
    } else {
        "x"
    }
}

/// Name of the lag column of variable `v` at `k` hours:
/// `"{short}_lag{k}h"`.
pub open spec fn lag_name(v: Seq<char>, k: nat) -> Seq<char> {
    short_name_of(v) + "_lag"@ + decimal(k) + "h"@
}

/// Name of the lag column of variable `var` at `k` hours.
pub fn lag_column_name(var: &str, k: usize) -> (name: String)
    ensures
        name@ == lag_name(var@, k as nat),
{
    let mut name = String::new();
    name.append(short_name(var));
    name.append("_lag");
    let digits = decimal_string(k);
    name.append(digits.as_str());
    name.append("h");
    name
}

/// The Köppen climate zones of the one-hot features, in feature order.
pub open spec fn climate_zones() -> Seq<Seq<char>> {
    seq!["Aw"@, "BWh"@, "Cfa"@, "Cfb"@, "Csb"@, "Cwa"@, "Dfa"@, "Dfb"@]
}

/// The Köppen climate zones of the one-hot features, in feature order.
pub fn climate_zone_names() -> (zones: Vec<&'static str>)
    ensures
        zones@.map_values(|z: &str| z@) == climate_zones(),
{
    let zones: Vec<&'static str> = vec!["Aw", "BWh", "Cfa", "Cfb", "Csb", "Cwa", "Dfa", "Dfb"];
    assert(zones@.map_values(|z: &str| z@) =~= climate_zones());
    zones
}

/// One-hot encoding of a climate zone: entry `k` is 1 when `zone` is the
/// `k`-th zone of `climate_zones()`, else 0.
pub fn climate_one_hot(zone: &str) -> (v: Vec<i32>)
    ensures
        v.len() == climate_zones().len(),
        forall|k: int|
            0 <= k < v.len() ==> #[trigger] v@[k] == if zone@ == climate_zones()[k] {
                1i32
            } else {
                0i32
            },
{
    let zones = climate_zone_names();
    let mut v: Vec<i32> = Vec::new();
    let mut k: usize = 0;
    while k < zones.len()
        invariant
            zones@.map_values(|z: &str| z@) == climate_zones(),
            k <= zones.len(),
            v.len() == k,
            forall|j: int|
                0 <= j < k ==> #[trigger] v@[j] == if zone@ == climate_zones()[j] {
                    1i32
                } else {
                    0i32
                },
        decreases zones.len() - k,
    {
        assert(climate_zones()[k as int] == zones@[k as int]@);
        if str_eq(zone, zones[k]) {
            v.push(1);
        } else {
            v.push(0);
        }
        k = k + 1;
    }
    v
}

/// Names of the one-hot columns: `"climate_" + zone`, in feature order.
pub fn climate_column_names() -> (names: Vec<String>)
    ensures
        names.len() == climate_zones().len(),
        forall|k: int| 0 <= k < names.len() ==> #[trigger] names@[k]@ == "climate_"@ + climate_zones()[k],
{
    let zones = climate_zone_names();
    let mut names: Vec<String> = Vec::new();
    let mut k: usize = 0;
    while k < zones.len()
        invariant
            zones@.map_values(|z: &str| z@) == climate_zones(),
            k <= zones.len(),
            names.len() == k,
            forall|j: int| 0 <= j < k ==> #[trigger] names@[j]@ == "climate_"@ + climate_zones()[j],
        decreases zones.len() - k,
    {
        assert(climate_zones()[k as int] == zones@[k as int]@);
        let mut n = String::new();
        n.append("climate_");
        n.append(zones[k]);
        names.push(n);
        k = k + 1;
    }
    names
}

/// At most one entry of a one-hot encoding is 1, and exactly one is 1
/// when the zone is one of the known zones.
pub proof fn lemma_one_hot_unique(zone: Seq<char>, j: int, k: int)
    requires
        0 <= j < climate_zones().len(),
        0 <= k < climate_zones().len(),
        zone == climate_zones()[j],
        zone == climate_zones()[k],
    ensures
        j == k,
{
    reveal_strlit("Aw");
    reveal_strlit("BWh");
    reveal_strlit("Cfa");
    reveal_strlit("Cfb");
    reveal_strlit("Csb");
    reveal_strlit("Cwa");
    reveal_strlit("Dfa");
    reveal_strlit("Dfb");
    let z = climate_zones();
    assert(z[0] == "Aw"@ && z[1] == "BWh"@ && z[2] == "Cfa"@ && z[3] == "Cfb"@);
    assert(z[4] == "Csb"@ && z[5] == "Cwa"@ && z[6] == "Dfa"@ && z[7] == "Dfb"@);
    if j != k {
        assert(z[j].len() == z[k].len() ==> (z[j][0] != z[k][0] || z[j][1] != z[k][1] || z[j][2] != z[k][2]));
    }
}

/// `cities[i]` names `city`.
pub open spec fn names_city(cities: Seq<Option<String>>, i: int, city: Seq<char>) -> bool {
    cities[i] is Some && cities[i]->0@ == city
}

/// First row of `city` in a city column (rows sorted by city, timestamp).
pub fn first_row_for_city(cities: &[Option<String>], city: &str) -> (r: Option<usize>)
    ensures
        r matches Some(i) ==> i < cities.len() && names_city(cities@, i as int, city@) && forall|j: int|
            0 <= j < i ==> !names_city(cities@, j, city@),
        r is None ==> forall|j: int| 0 <= j < cities.len() ==> !names_city(cities@, j, city@),
{
    let target = chars_of(city);
    let mut i: usize = 0;
    while i < cities.len()
        invariant
            i <= cities.len(),
            target@ == city@,
            forall|j: int| 0 <= j < i ==> !names_city(cities@, j, city@),
        decreases cities.len() - i,
    {
        match &cities[i] {
            Some(c) => {
                if str_eq(c.as_str(), city) {
                    return Some(i);
                }
            },
            None => {},
        }
        i = i + 1;
    }
    None
}

/// What the last-valid-row search reads of one row: its city, whether
/// its 48-hour temperature lag is a finite number, and its timestamp.
pub struct RowKey {
    pub city: Option<String>,
    pub has_lag48: bool,
    pub timestamp: Option<String>,
}

/// Row `i` belongs to `city` and has a finite 48-hour lag.
pub open spec fn valid_row(rows: Seq<RowKey>, i: int, city: Seq<char>) -> bool {
    rows[i].city is Some && rows[i].city->0@ == city && rows[i].has_lag48
}

/// Timestamp of row `i`, the empty text when absent.
pub open spec fn row_time(rows: Seq<RowKey>, i: int) -> Seq<char> {
    match rows[i].timestamp {
        Some(t) => t@,
        None => Seq::empty(),
    }
}

/// Row `i` is the latest valid row of `city` among rows `0..n`: valid,
/// no valid row has a later timestamp, and valid rows before it have
/// earlier timestamps (so ties go to the first such row).
pub open spec fn latest_valid_among(rows: Seq<RowKey>, n: int, i: int, city: Seq<char>) -> bool {
    &&& 0 <= i < n
    &&& valid_row(rows, i, city)
    &&& forall|j: int| 0 <= j < n && valid_row(rows, j, city) ==> lex_le(row_time(rows, j), row_time(rows, i))
    &&& forall|j: int| 0 <= j < i && valid_row(rows, j, city) ==> lex_lt(row_time(rows, j), row_time(rows, i))
}

fn time_chars(row: &RowKey) -> (t: Vec<char>)
    ensures
        t@ == match row.timestamp {
            Some(s) => s@,
            None => Seq::<char>::empty(),
        },
{
    match &row.timestamp {
        Some(s) => chars_of(s.as_str()),
        None => Vec::new(),
    }
}

/// Index of the latest row of `city` whose 48-hour lag is finite, the
/// most recent timestamp for which a full feature vector exists.
pub fn last_valid_row_for_city(rows: &[RowKey], city: &str) -> (r: Option<usize>)
    ensures
        r matches Some(i) ==> latest_valid_among(rows@, rows.len() as int, i as int, city@),
        r is None ==> forall|j: int| 0 <= j < rows.len() ==> !valid_row(rows@, j, city@),
{
    let mut best: Option<usize> = None;
    let mut best_ts: Vec<char> = Vec::new();
    let mut i: usize = 0;
    while i < rows.len()
        invariant
            i <= rows.len(),
            best matches Some(b) ==> latest_valid_among(rows@, i as int, b as int, city@)
                && best_ts@ == row_time(rows@, b as int),
            best is None ==> forall|j: int| 0 <= j < i ==> !valid_row(rows@, j, city@),
        decreases rows.len() - i,
    {
        let row = &rows[i];
        let is_city = match &row.city {
            Some(c) => str_eq(c.as_str(), city),
            None => false,
        };
        if is_city && row.has_lag48 {
            let ts = time_chars(row);
            assert(valid_row(rows@, i as int, city@));
            match best {
                None => {
                    proof {
                        lemma_lex_total(ts@, ts@);
                    }
                    best = Some(i);
                    best_ts = ts;
                },
                Some(b) => {
                    let later = !lex_le_exec(&ts, &best_ts);
                    proof {
                        lemma_lex_total(ts@, best_ts@);
                    }
                    if later {
                        proof {
                            assert forall|j: int|
                                0 <= j < i + 1 && valid_row(rows@, j, city@) implies lex_le(
                                row_time(rows@, j),
                                ts@,
                            ) by {
                                if j < i {
                                    lemma_lex_trans(row_time(rows@, j), best_ts@, ts@);
                                } else {
                                    lemma_lex_total(ts@, ts@);
                                }
                            }
                            assert forall|j: int|
                                0 <= j < i && valid_row(rows@, j, city@) implies lex_lt(
                                row_time(rows@, j),
                                ts@,
                            ) by {
                                lemma_lex_trans(row_time(rows@, j), best_ts@, ts@);
                                if row_time(rows@, j) == ts@ {
                                    lemma_lex_total(ts@, best_ts@);
                                }
                            }
                        }
                        best = Some(i);
                        best_ts = ts;
                    }
                },
            }
        }
        i = i + 1;
    }
    best
}

} // verus!
