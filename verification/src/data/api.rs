//! Request planning for chunked historical downloads.
//!
//! Dates are day numbers (days since the start of the common era, as
//! `chrono::NaiveDate::num_days_from_ce` counts them).

use vstd::prelude::*;

verus! {

/// The request ranges of a chunked download of the days `start..=end`:
/// each request covers `[s, min(s + chunk_days, end)]` and the next one
/// starts the day after, until the end day has been requested.
pub open spec fn chunk_plan(start: int, end: int, chunk_days: int) -> Seq<(int, int)>
    decreases end + 1 - start,
{
    if start > end || chunk_days < 0 {
        Seq::empty()
    } else {
        let last = if start + chunk_days < end {
            start + chunk_days
        } else {
            end
        };
        seq![(start, last)] + chunk_plan(last + 1, end, chunk_days)
    }
}

/// Integer views of a plan.
pub open spec fn plan_view(v: Seq<(i64, i64)>) -> Seq<(int, int)> {
    v.map_values(|p: (i64, i64)| (p.0 as int, p.1 as int))
}

/// Plan the date ranges of a chunked historical download.
pub fn plan_chunks(start_day: i64, end_day: i64, chunk_days: i64) -> (plan: Vec<(i64, i64)>)
    requires
        chunk_days >= 0,
    ensures
        plan_view(plan@) == chunk_plan(start_day as int, end_day as int, chunk_days as int),
{
    let mut plan: Vec<(i64, i64)> = Vec::new();
    if start_day > end_day {
        assert(plan_view(plan@) =~= Seq::<(int, int)>::empty());
        return plan;
    }
    let mut current = start_day;
    loop
        invariant
            chunk_days >= 0,
            start_day <= current <= end_day,
            chunk_plan(start_day as int, end_day as int, chunk_days as int) == plan_view(plan@)
                + chunk_plan(current as int, end_day as int, chunk_days as int),
        decreases end_day - current,
    {
        let wide_last: i128 = (current as i128) + (chunk_days as i128);
        let last = if wide_last < (end_day as i128) {
            current + chunk_days
        } else {
            end_day
        };
        let ghost before = plan@;
        plan.push((current, last));
        assert(plan_view(plan@) =~= plan_view(before) + seq![(current as int, last as int)]);
        if last == end_day {
            assert(chunk_plan(last as int + 1, end_day as int, chunk_days as int) =~= Seq::empty());
            assert(plan_view(plan@) + Seq::<(int, int)>::empty() =~= plan_view(plan@));
            return plan;
        }
        current = last + 1;
    }
}

/// Shape of a chunk plan: the ranges are contiguous and disjoint (each
/// starts the day after the previous one ends), each spans at most
/// `chunk_days + 1` days (exactly that many, but for the last) and ends
/// no later than `end`, the first starts
/// at `start` and the last ends at `end`, so together they cover every
/// day of `start..=end`.  There are no ranges exactly when `start > end`.
pub proof fn lemma_chunk_plan_shape(start: int, end: int, chunk_days: int)
    requires
        chunk_days >= 0,
    ensures
        ({
            let p = chunk_plan(start, end, chunk_days);
            &&& (p.len() == 0 <==> start > end)
            &&& p.len() > 0 ==> p[0].0 == start
            &&& p.len() > 0 ==> p.last().1 == end
            &&& forall|i: int|
                0 <= i < p.len() ==> #[trigger] p[i].0 <= p[i].1 <= end && p[i].1 - p[i].0
                    <= chunk_days && start <= p[i].0
            &&& forall|i: int| 0 <= i < p.len() - 1 ==> #[trigger] p[i + 1].0 == p[i].1 + 1
            &&& forall|i: int| 0 <= i < p.len() - 1 ==> #[trigger] p[i].1 == p[i].0 + chunk_days
        }),
    decreases end + 1 - start,
{
    if start <= end {
        let last = if start + chunk_days < end {
            start + chunk_days
        } else {
            end
        };
        lemma_chunk_plan_shape(last + 1, end, chunk_days);
        let p = chunk_plan(start, end, chunk_days);
        let rest = chunk_plan(last + 1, end, chunk_days);
        assert(p == seq![(start, last)] + rest);
        assert forall|i: int| 0 <= i < p.len() implies #[trigger] p[i].0 <= p[i].1 <= end && p[i].1
            - p[i].0 <= chunk_days && start <= p[i].0 by {
            if i > 0 {
                assert(p[i] == rest[i - 1]);
            }
        }
        assert forall|i: int| 0 <= i < p.len() - 1 implies #[trigger] p[i + 1].0 == p[i].1 + 1 by {
            assert(p[i + 1] == rest[i]);
            if i > 0 {
                assert(p[i] == rest[i - 1]);
                assert(rest[(i - 1) + 1].0 == rest[i - 1].1 + 1);
            } else {
                assert(rest[0].0 == last + 1);
            }
        }
        assert forall|i: int| 0 <= i < p.len() - 1 implies #[trigger] p[i].1 == p[i].0 + chunk_days by {
            if i > 0 {
                assert(p[i] == rest[i - 1]);
            } else {
                assert(rest.len() > 0);
                assert(last + 1 <= end);
            }
        }
        if rest.len() == 0 {
            assert(last + 1 > end);
        } else {
            assert(p.last() == rest.last());
        }
    }
}

} // verus!
