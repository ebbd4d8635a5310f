//! Counts, sums and averages of event quantities over named time ranges.
use vstd::prelude::*;

use crate::models::EventMemory;

verus! {

#[derive(Debug, Clone, Copy, PartialEq, Eq, Structural)]
pub enum AggregationType {
    Sum,
    Count,
    Avg,
}

/// A time range relative to now, in the install's local days.
#[derive(Debug, Clone, Copy, PartialEq, Eq, Structural)]
pub enum TimeRange {
    Today,
    Yesterday,
    /// From local midnight `n` days ago until now.
    LastDays(i64),
    /// Monday to Sunday of this week.
    ThisWeek,
    LastWeek,
    Custom(i64, i64),
}

/// UTC start of the local day holding `now`.
pub open spec fn day_start(now: i64, offset: i32) -> int {
    ((now as int + offset as int) / 86400) * 86400 - offset as int
}

/// Days since Monday of the local day holding `now`.
pub open spec fn days_from_monday(now: i64, offset: i32) -> int {
    ((now as int + offset as int) / 86400 + 3) % 7
}

/// The first and last second of a range, at `now` with the install's offset.
pub open spec fn range_bounds(r: TimeRange, now: i64, offset: i32) -> (int, int) {
    let t = day_start(now, offset);
    let w = t - days_from_monday(now, offset) * 86400;
    match r {
        TimeRange::Today => (t, t + 86400 - 1),
        TimeRange::Yesterday => (t - 86400, t - 1),
        TimeRange::LastDays(n) => (t - n * 86400, now as int),
        TimeRange::ThisWeek => (w, w + 7 * 86400 - 1),
        TimeRange::LastWeek => (w - 7 * 86400, w - 1),
        TimeRange::Custom(s, e) => (s as int, e as int),
    }
}

/// The first and last second of a range.
pub fn time_range_bounds(r: TimeRange, now: i64, offset: i32) -> (b: (i64, i64))
    requires
        0 <= now < 0x2_0000_0000,
        -86400 < offset < 86400,
        r matches TimeRange::LastDays(n) ==> 0 <= n <= 1_000_000,
    ensures
        (b.0 as int, b.1 as int) == range_bounds(r, now, offset),
{
    let day = (now as i64 + offset as i64 + 86400) / 86400 - 1;
    let t = day * 86400 - offset as i64;
    let w = t - ((day + 3) % 7) * 86400;
    match r {
        TimeRange::Today => (t, t + 86400 - 1),
        TimeRange::Yesterday => (t - 86400, t - 1),
        TimeRange::LastDays(n) => (t - n * 86400, now),
        TimeRange::ThisWeek => (w, w + 7 * 86400 - 1),
        TimeRange::LastWeek => (w - 7 * 86400, w - 1),
        TimeRange::Custom(s, e) => (s, e),
    }
}

/// The outcome of one aggregation: the value in thousandths and the number
/// of events it covers.
#[derive(Debug, Clone, Copy)]
pub struct AggregationResult {
    pub agg_type: AggregationType,
    pub value_milli: u128,
    pub count: u64,
}

/// Event `e` belongs to `user`, lies in `[start, end]`, and has the action
/// and target asked for, if any.
pub open spec fn selected(e: EventMemory, user: Seq<char>, action: Option<Seq<char>>, target: Option<Seq<char>>, start: i64, end: i64) -> bool {
    &&& e.user_id@ == user
    &&& start <= e.timestamp <= end
    &&& (action is Some ==> e.action@ == action->Some_0)
    &&& (target is Some ==> e.target@ == target->Some_0)
}

/// Among the first `n` events selected: how many, their quantity sum, and
/// how many have a quantity.
pub open spec fn tally(evs: Seq<EventMemory>, user: Seq<char>, action: Option<Seq<char>>, target: Option<Seq<char>>, start: i64, end: i64, n: int) -> (int, int, int)
    decreases n,
{
    if n <= 0 {
        (0, 0, 0)
    } else {
        let p = tally(evs, user, action, target, start, end, n - 1);
        let e = evs[n - 1];
        if selected(e, user, action, target, start, end) {
            (p.0 + 1, p.1 + match e.quantity { Some(q) => q as int, None => 0 }, p.2 + if e.quantity is Some { 1int } else { 0 })
        } else {
            p
        }
    }
}

pub open spec fn opt_view(s: Option<&String>) -> Option<Seq<char>> {
    match s {
        Some(x) => Some(x@),
        None => None,
    }
}

/// Aggregates the quantities of the selected events: `Count` counts them,
/// `Sum` adds their quantities (absent ones add nothing) and counts them
/// all, `Avg` averages over the events that have a quantity and counts those.
pub fn aggregate_events(
    events: &[EventMemory],
    user_id: &String,
    action: Option<&String>,
    target: Option<&String>,
    start: i64,
    end: i64,
    agg_type: AggregationType,
) -> (r: AggregationResult)
    requires
        events@.len() <= 0x1_0000_0000,
    ensures
        ({
            let t = tally(events@, user_id@, opt_view(action), opt_view(target), start, end, events@.len() as int);
            &&& r.agg_type == agg_type
            &&& agg_type == AggregationType::Count ==> r.count == t.0 && r.value_milli == t.0 * 1000
            &&& agg_type == AggregationType::Sum ==> r.count == t.0 && r.value_milli == t.1 * 1000
            &&& agg_type == AggregationType::Avg ==> r.count == t.2
                && r.value_milli == if t.2 == 0 { 0 } else { t.1 * 1000 / t.2 }
        }),
{
    let mut count: u64 = 0;
    let mut sum: u128 = 0;
    let mut with_q: u64 = 0;
    let mut i: usize = 0;
    while i < events.len()
        invariant
            events@.len() <= 0x1_0000_0000,
            i <= events@.len(),
            (count as int, sum as int, with_q as int) == tally(events@, user_id@, opt_view(action), opt_view(target), start, end, i as int),
            count <= i,
            with_q <= i,
            sum <= i * 0xffff_ffff_ffff_ffff,
        decreases events@.len() - i,
    {
        let e = &events[i];
        let mut hit = e.user_id == *user_id && start <= e.timestamp && e.timestamp <= end;
        if let Some(a) = action {
            if e.action != *a {
                hit = false;
            }
        }
        if let Some(t) = target {
            if e.target != *t {
                hit = false;
            }
        }
        if hit {
            count += 1;
            if let Some(q) = e.quantity {
                sum = sum + q as u128;
                with_q += 1;
            }
        }
        proof {
            assert((i + 1) * 0xffff_ffff_ffff_ffffint == i * 0xffff_ffff_ffff_ffffint + 0xffff_ffff_ffff_ffffint) by (nonlinear_arith);
        }
        i += 1;
    }
    proof {
        assert(sum * 1000 <= 0x1_0000_0000 * 0xffff_ffff_ffff_ffff * 1000) by (nonlinear_arith)
            requires sum <= i * 0xffff_ffff_ffff_ffff, i <= 0x1_0000_0000;
    }
    match agg_type {
        AggregationType::Count => AggregationResult { agg_type, value_milli: count as u128 * 1000, count },
        AggregationType::Sum => AggregationResult { agg_type, value_milli: sum * 1000, count },
        AggregationType::Avg => AggregationResult {
            agg_type,
            value_milli: if with_q == 0 { 0 } else { sum * 1000 / with_q as u128 },
            count: with_q,
        },
    }
}

} // verus!
