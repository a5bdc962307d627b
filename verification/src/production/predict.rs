//! Row selection for a single city's forecast.

use vstd::prelude::*;

verus! {

/// Days of past observations fetched per city.
pub const PAST_DAYS: usize = 3;

/// Offset, from a city's first row, of the last past observation
/// ("now minus one hour"): `PAST_DAYS * 24 - 1`.
pub const NOW_OFFSET: usize = PAST_DAYS * 24 - 1;

/// Why no anchor row could be chosen for a city.
#[derive(Debug, Clone, Copy, PartialEq, Eq, Structural)]
pub enum AnchorError {
    /// The city has no row in the engineered table.
    CityMissing,
    /// Neither the preferred row nor any other row of the city is valid.
    NoValidRow,
}

/// The row a forecast starts from: the preferred "now" row
/// `city_start + NOW_OFFSET` when it lies inside the table and its
/// features are complete, else the city's latest valid row.
pub open spec fn anchor_of(
    city_start: Option<usize>,
    height: usize,
    preferred_complete: bool,
    last_valid: Option<usize>,
) -> Result<usize, AnchorError> {
    match city_start {
        None => Err(AnchorError::CityMissing),
        Some(s) => {
            if s + NOW_OFFSET < height && preferred_complete {
                Ok((s + NOW_OFFSET) as usize)
            } else {
                match last_valid {
                    Some(r) => Ok(r),
                    None => Err(AnchorError::NoValidRow),
                }
            }
        },
    }
}

/// The preferred "now" row of a city whose rows start at `city_start`,
/// if it lies inside a table of `height` rows.
pub fn preferred_row(city_start: usize, height: usize) -> (r: Option<usize>)
    ensures
        r == (if city_start + NOW_OFFSET < height {
            Some((city_start + NOW_OFFSET) as usize)
        } else {
            None::<usize>
        }),
{
    if city_start < height && height - city_start > NOW_OFFSET {
        Some(city_start + NOW_OFFSET)
    } else {
        None
    }
}

/// Choose the anchor row of a city.  `city_start` is the city's first
/// row, `preferred_complete` whether the preferred row's features are all
/// present (only consulted when that row lies inside the table), and
/// `last_valid` the city's latest valid row.
pub fn anchor_row(
    city_start: Option<usize>,
    height: usize,
    preferred_complete: bool,
    last_valid: Option<usize>,
) -> (r: Result<usize, AnchorError>)
    ensures
        r == anchor_of(city_start, height, preferred_complete, last_valid),
{
    match city_start {
        None => Err(AnchorError::CityMissing),
        Some(s) => match preferred_row(s, height) {
            Some(p) => {
                if preferred_complete {
                    Ok(p)
                } else {
                    match last_valid {
                        Some(v) => Ok(v),
                        None => Err(AnchorError::NoValidRow),
                    }
                }
            },
            None => match last_valid {
                Some(v) => Ok(v),
                None => Err(AnchorError::NoValidRow),
            },
        },
    }
}

/// Whether the rain classifier's first prediction is the rain class
/// (`1`); an empty prediction counts as no rain.
pub fn rain_flag(predictions: &[u32]) -> (r: bool)
    ensures
        r == (predictions.len() > 0 && predictions[0] == 1),
{
    predictions.len() > 0 && predictions[0] == 1
}

/// Progress of a daily run: cities fetched or failed at the fetch, then
/// fetched cities predicted or failed at the prediction.
#[derive(Debug, Clone, Copy, PartialEq, Eq, Structural)]
pub struct RunTally {
    pub n_cities: usize,
    pub fetched: usize,
    pub fetch_failed: usize,
    pub predicted: usize,
    pub predict_failed: usize,
}

/// Every city is counted at most once at each step: no more fetch
/// outcomes than cities, no more prediction outcomes than fetched cities.
pub open spec fn tally_wf(t: RunTally) -> bool {
    &&& t.fetched + t.fetch_failed <= t.n_cities
    &&& t.predicted + t.predict_failed <= t.fetched
}

/// Why a daily run stops before writing a report.
#[derive(Debug, Clone, Copy, PartialEq, Eq, Structural)]
pub enum RunError {
    /// No city could be fetched.
    NoCitySucceeded,
}

impl RunTally {
    /// A run over `n_cities` cities, before any fetch.
    pub fn new(n_cities: usize) -> (t: RunTally)
        ensures
            tally_wf(t),
            t == (RunTally { n_cities, fetched: 0, fetch_failed: 0, predicted: 0, predict_failed: 0 }),
    {
        RunTally { n_cities, fetched: 0, fetch_failed: 0, predicted: 0, predict_failed: 0 }
    }

    /// Record the fetch outcome of the next city.
    pub fn record_fetch(&mut self, ok: bool)
        requires
            tally_wf(*old(self)),
            old(self).fetched + old(self).fetch_failed < old(self).n_cities,
        ensures
            tally_wf(*final(self)),
            *final(self) == (if ok {
                RunTally { fetched: (old(self).fetched + 1) as usize, ..*old(self) }
            } else {
                RunTally { fetch_failed: (old(self).fetch_failed + 1) as usize, ..*old(self) }
            }),
    {
        if ok {
            self.fetched = self.fetched + 1;
        } else {
            self.fetch_failed = self.fetch_failed + 1;
        }
    }

    /// The run goes on to the predictions only when some city was
    /// fetched.
    pub fn check_fetched(&self) -> (r: Result<(), RunError>)
        ensures
            r == (if self.fetched > 0 {
                Ok::<(), RunError>(())
            } else {
                Err(RunError::NoCitySucceeded)
            }),
    {
        if self.fetched > 0 {
            Ok(())
        } else {
            Err(RunError::NoCitySucceeded)
        }
    }

    /// Record the prediction outcome of the next fetched city.
    pub fn record_prediction(&mut self, ok: bool)
        requires
            tally_wf(*old(self)),
            old(self).predicted + old(self).predict_failed < old(self).fetched,
        ensures
            tally_wf(*final(self)),
            *final(self) == (if ok {
                RunTally { predicted: (old(self).predicted + 1) as usize, ..*old(self) }
            } else {
                RunTally { predict_failed: (old(self).predict_failed + 1) as usize, ..*old(self) }
            }),
    {
        if ok {
            self.predicted = self.predicted + 1;
        } else {
            self.predict_failed = self.predict_failed + 1;
        }
    }

    /// Cities that failed at either step.
    pub fn n_failed(&self) -> (r: usize)
        requires
            tally_wf(*self),
        ensures
            r == self.fetch_failed + self.predict_failed,
    {
        self.fetch_failed + self.predict_failed
    }
}

/// Once every city was fetched or failed, and every fetched city was
/// predicted or failed, the successful and the failed cities together
/// are all the cities, each counted once.
pub proof fn lemma_tally_complete(t: RunTally)
    requires
        tally_wf(t),
        t.fetched + t.fetch_failed == t.n_cities,
        t.predicted + t.predict_failed == t.fetched,
    ensures
        t.predicted + (t.fetch_failed + t.predict_failed) == t.n_cities,
{
}


/// The anchor row of a city: the preferred "now" row `start + NOW_OFFSET`
/// whenever it lies inside the table and its features are complete,
/// whatever the latest valid row is; otherwise the latest valid row when
/// there is one, and `NoValidRow` only when there is none; `CityMissing`
/// exactly when the city has no row.
pub proof fn lemma_anchor_choice(
    city_start: Option<usize>,
    height: usize,
    preferred_complete: bool,
    last_valid: Option<usize>,
)
    ensures
        city_start is None <==> anchor_of(city_start, height, preferred_complete, last_valid)
            == Err::<usize, AnchorError>(AnchorError::CityMissing),
        city_start matches Some(s) ==> {
            &&& (s + NOW_OFFSET < height && preferred_complete) ==> anchor_of(
                city_start,
                height,
                preferred_complete,
                last_valid,
            ) == Ok::<usize, AnchorError>((s + 71) as usize)
            &&& !(s + NOW_OFFSET < height && preferred_complete) ==> anchor_of(
                city_start,
                height,
                preferred_complete,
                last_valid,
            ) == (match last_valid {
                Some(v) => Ok::<usize, AnchorError>(v),
                None => Err(AnchorError::NoValidRow),
            })
        },
        anchor_of(city_start, height, preferred_complete, last_valid) == Err::<usize, AnchorError>(
            AnchorError::NoValidRow,
        ) ==> city_start is Some && last_valid is None,
{
    assert(NOW_OFFSET == 71);
}

/// The anchor does not depend on the latest valid row when the preferred
/// row is inside the table and complete: two calls that differ only in
/// `last_valid` agree.
pub proof fn lemma_anchor_ignores_last_valid(s: usize, height: usize, v1: Option<usize>, v2: Option<usize>)
    requires
        s + NOW_OFFSET < height,
    ensures
        anchor_of(Some(s), height, true, v1) == anchor_of(Some(s), height, true, v2),
        anchor_of(Some(s), height, true, v1) is Ok,
{
}

} // verus!
