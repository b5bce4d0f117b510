//! Distributions to come: those that are announced, and estimates that continue the
//! rhythm of the past ones.

use vstd::prelude::*;
use crate::calendar;
use crate::model::{DividendEvent, Position};
use crate::order;
use crate::order::SortKey;
use crate::text;

verus! {

/// A distribution to come.
#[derive(Clone, Copy, PartialEq, Eq, Structural)]
pub struct ProjectedDividend {
    pub timestamp: i64,
    /// The event whose amount it has; where there is none, no amount is known.
    pub amount: Option<usize>,
    pub estimated: bool,
}

pub open spec fn by_time(events: Seq<DividendEvent>) -> spec_fn(int) -> SortKey {
    |i: int| SortKey { first: events[i].timestamp as i128, second: 0, third: 0 }
}

/// The events from the first to the last in time.
pub open spec fn in_time(events: Seq<DividendEvent>) -> Seq<usize> {
    order::arrangement(events.len() as int, |i: int| true, by_time(events))
}

/// The last event at or before a time, in the order given.
pub open spec fn latest_by(events: Seq<DividendEvent>, order: Seq<usize>, time: int) -> Option<usize>
    decreases order.len(),
{
    if order.len() == 0 {
        None
    } else if events[order.last() as int].timestamp <= time {
        Some(order.last())
    } else {
        latest_by(events, order.drop_last(), time)
    }
}

/// The time between the last two events that have happened, where it is a rhythm: at
/// least twenty and at most four hundred days.
pub open spec fn cadence(events: Seq<DividendEvent>, now: int) -> Option<int> {
    let past = order::arrangement(
        events.len() as int,
        |i: int| events[i].timestamp <= now,
        by_time(events),
    );
    if past.len() < 2 {
        None
    } else {
        let gap = events[past[past.len() - 1] as int].timestamp - events[past[past.len()
            - 2] as int].timestamp;
        if 1_728_000 <= gap <= 34_560_000 {
            Some(gap)
        } else {
            None
        }
    }
}

/// A date of the dividend calendar that says something new: it lies ahead, within the
/// horizon, and more than two days from every announced event.
pub open spec fn calendar_adds(
    events: Seq<DividendEvent>,
    date: Option<i64>,
    now: int,
    horizon: int,
) -> bool {
    match date {
        Some(date) => now < date <= horizon && forall|i: int|
            0 <= i < events.len() && now < (#[trigger] events[i]).timestamp <= horizon ==> !(-172_800
                <= events[i].timestamp - date <= 172_800),
        None => false,
    }
}

/// The announced events that lie ahead, and behind them in the count the date of the
/// calendar.
pub open spec fn announced(
    events: Seq<DividendEvent>,
    with_calendar: bool,
    now: int,
    horizon: int,
) -> spec_fn(int) -> bool {
    |e: int|
        if e < events.len() {
            now < events[e].timestamp <= horizon
        } else {
            with_calendar
        }
}

pub open spec fn announced_keys(events: Seq<DividendEvent>, date: int) -> spec_fn(int) -> SortKey {
    |e: int|
        if e < events.len() {
            SortKey { first: events[e].timestamp as i128, second: 0, third: 0 }
        } else {
            SortKey { first: date as i128, second: 0, third: 0 }
        }
}

pub open spec fn announced_dividend(
    events: Seq<DividendEvent>,
    date: i64,
    fallback: Option<usize>,
    e: usize,
) -> ProjectedDividend {
    if e < events.len() {
        ProjectedDividend {
            timestamp: events[e as int].timestamp,
            amount: Some(e),
            estimated: false,
        }
    } else {
        ProjectedDividend { timestamp: date, amount: fallback, estimated: false }
    }
}

/// What is known to come, in the order of time.
pub open spec fn known_ahead(
    events: Seq<DividendEvent>,
    date: Option<i64>,
    with_calendar: bool,
    fallback: Option<usize>,
    now: int,
    horizon: int,
) -> Seq<ProjectedDividend> {
    let day = match date {
        Some(day) => day,
        None => 0,
    };
    let positions = order::arrangement(
        (events.len() + 1) as int,
        announced(events, with_calendar, now, horizon),
        announced_keys(events, day as int),
    );
    Seq::new(positions.len(), |k: int| announced_dividend(events, day, fallback, positions[k]))
}

/// The amount of a distribution is that of the last event before it, or else the usual
/// one.
pub open spec fn amount_after(
    events: Seq<DividendEvent>,
    fallback: Option<usize>,
    time: int,
) -> Option<usize> {
    match latest_by(events, in_time(events), time) {
        Some(i) => Some(i),
        None => fallback,
    }
}

/// The estimates after a date: every further step of the rhythm that lies ahead and
/// within the horizon.
pub open spec fn estimates_after(
    events: Seq<DividendEvent>,
    fallback: Option<usize>,
    step: int,
    now: int,
    horizon: int,
    current: int,
) -> Seq<ProjectedDividend>
    decreases horizon - current,
    when step > 0
{
    let next = current + step;
    if next > horizon {
        Seq::empty()
    } else if next <= now {
        estimates_after(events, fallback, step, now, horizon, next)
    } else {
        seq![
            ProjectedDividend {
                timestamp: next as i64,
                amount: amount_after(events, fallback, current),
                estimated: true,
            },
        ] + estimates_after(events, fallback, step, now, horizon, next)
    }
}

/// The date from which the rhythm is continued: the last known one ahead, else the one
/// of the calendar, else the last event that has happened.
pub open spec fn anchor(
    events: Seq<DividendEvent>,
    date: Option<i64>,
    known: Seq<ProjectedDividend>,
    now: int,
) -> Option<i64> {
    if known.len() > 0 {
        Some(known.last().timestamp)
    } else {
        match date {
            Some(day) => Some(day),
            None => match latest_by(events, in_time(events), now) {
                Some(i) => Some(events[i as int].timestamp),
                None => None,
            },
        }
    }
}

/// All that is known or estimated to come, in the order of time. Where `extend` does not
/// hold, only announced events are listed.
pub open spec fn projected(
    events: Seq<DividendEvent>,
    date: Option<i64>,
    fallback: Option<usize>,
    extend: bool,
    now: int,
    horizon: int,
) -> Seq<ProjectedDividend> {
    let known = known_ahead(
        events,
        date,
        extend && calendar_adds(events, date, now, horizon),
        fallback,
        now,
        horizon,
    );
    match (cadence(events, now), anchor(events, date, known, now)) {
        (Some(step), Some(start)) if extend => known + estimates_after(
            events,
            fallback,
            step,
            now,
            horizon,
            start as int,
        ),
        _ => known,
    }
}

/// Every estimate lies ahead, within the horizon, a whole number of steps after the date
/// that the rhythm is continued from, and one step after the estimate before it.
pub proof fn estimates_keep_the_rhythm(
    events: Seq<DividendEvent>,
    fallback: Option<usize>,
    step: int,
    now: int,
    horizon: int,
    current: int,
)
    requires
        step > 0,
        i64::MIN <= now,
        horizon <= i64::MAX,
    ensures
        ({
            let list = estimates_after(events, fallback, step, now, horizon, current);
            &&& forall|k: int|
                0 <= k < list.len() ==> now < (#[trigger] list[k]).timestamp <= horizon
                    && current < list[k].timestamp && list[k].estimated && (list[k].timestamp
                    - current) % step == 0
            &&& forall|k: int|
                0 < k < list.len() ==> (#[trigger] list[k]).timestamp == list[0].timestamp + k * step
        }),
    decreases horizon - current,
{
    let list = estimates_after(events, fallback, step, now, horizon, current);
    let next = current + step;
    if next <= horizon {
        estimates_keep_the_rhythm(events, fallback, step, now, horizon, next);
        let rest = estimates_after(events, fallback, step, now, horizon, next);
        assert(step % step == 0) by {
            vstd::arithmetic::div_mod::lemma_mod_self_0(step);
        }
        assert forall|k: int| 0 <= k < rest.len() implies (rest[k].timestamp - current) % step
            == 0 by {
            let d = rest[k].timestamp - next;
            assert(d % step == 0);
            vstd::arithmetic::div_mod::lemma_mod_add_multiples_vanish(d, step);
            assert(rest[k].timestamp - current == d + step);
        }
        if next > now {
            first_estimate_is_next(events, fallback, step, now, horizon, next);
            assert forall|k: int| 0 <= k < list.len() implies now < (#[trigger] list[k]).timestamp
                <= horizon && current < list[k].timestamp && list[k].estimated && (
            list[k].timestamp - current) % step == 0 by {
                if k > 0 {
                    assert(list[k] == rest[k - 1]);
                }
            }
            assert forall|k: int| 0 < k < list.len() implies (#[trigger] list[k]).timestamp
                == list[0].timestamp + k * step by {
                assert(list[k] == rest[k - 1]);
                if k - 1 > 0 {
                    assert(rest[k - 1].timestamp == rest[0].timestamp + (k - 1) * step);
                }
                assert(k * step == step + (k - 1) * step) by (nonlinear_arith);
            }
        }
    }
}

proof fn first_estimate_is_next(
    events: Seq<DividendEvent>,
    fallback: Option<usize>,
    step: int,
    now: int,
    horizon: int,
    current: int,
)
    requires
        step > 0,
        current > now,
        i64::MIN <= now,
        horizon <= i64::MAX,
    ensures
        ({
            let list = estimates_after(events, fallback, step, now, horizon, current);
            list.len() > 0 ==> list[0].timestamp == current + step
        }),
{
}

fn sort_in_time(events: &[DividendEvent], keep: &Vec<bool>) -> (r: Vec<usize>)
    requires
        keep@.len() == events@.len(),
    ensures
        order::arranged(r@, events@.len() as int, |i: int| keep@[i], by_time(events@)),
{
    let mut keys: Vec<SortKey> = Vec::new();
    let mut i: usize = 0;
    while i < events.len()
        invariant
            i <= events@.len(),
            keys@.len() == i,
            forall|k: int| 0 <= k < i ==> #[trigger] keys@[k] == by_time(events@)(k),
        decreases events@.len() - i,
    {
        keys.push(SortKey { first: events[i].timestamp as i128, second: 0, third: 0 });
        i += 1;
    }
    let r = order::arrange(keep, &keys);
    proof {
        order::arrangement_by_equals(
            r@,
            events@.len() as int,
            |i: int| keep@[i],
            |i: int| keys@[i],
            |i: int| keep@[i],
            by_time(events@),
        );
    }
    r
}

#[verifier::loop_isolation(false)]
fn order_in_time(events: &[DividendEvent]) -> (r: Vec<usize>)
    ensures
        r@ == in_time(events@),
        order::arranged(r@, events@.len() as int, |i: int| true, by_time(events@)),
{
    let mut keep: Vec<bool> = Vec::new();
    let mut i: usize = 0;
    while i < events.len()
        invariant
            i <= events@.len(),
            keep@.len() == i,
            forall|k: int| 0 <= k < i ==> #[trigger] keep@[k],
        decreases events@.len() - i,
    {
        keep.push(true);
        i += 1;
    }
    let r = sort_in_time(events, &keep);
    proof {
        order::is_arrangement(
            r@,
            events@.len() as int,
            |i: int| keep@[i],
            by_time(events@),
            |i: int| true,
            by_time(events@),
        );
    }
    r
}

fn find_latest(events: &[DividendEvent], order: &Vec<usize>, time: i64) -> (r: Option<usize>)
    requires
        forall|k: int| 0 <= k < order@.len() ==> #[trigger] order@[k] < events@.len(),
    ensures
        r == latest_by(events@, order@, time as int),
        match r {
            Some(i) => i < events@.len(),
            None => true,
        },
{
    let mut n: usize = order.len();
    assert(order@.take(n as int) =~= order@);
    while n > 0
        invariant
            n <= order@.len(),
            forall|k: int| 0 <= k < order@.len() ==> #[trigger] order@[k] < events@.len(),
            latest_by(events@, order@.take(n as int), time as int) == latest_by(
                events@,
                order@,
                time as int,
            ),
        decreases n,
    {
        assert(order@.take(n as int).last() == order@[n - 1]);
        if events[order[n - 1]].timestamp <= time {
            return Some(order[n - 1]);
        }
        assert(order@.take(n as int).drop_last() =~= order@.take(n - 1));
        n -= 1;
    }
    None
}

#[verifier::loop_isolation(false)]
fn find_cadence(events: &[DividendEvent], now: i64) -> (r: Option<i64>)
    ensures
        match r {
            Some(step) => cadence(events@, now as int) == Some(step as int),
            None => cadence(events@, now as int) is None,
        },
{
    let mut keep: Vec<bool> = Vec::new();
    let mut i: usize = 0;
    while i < events.len()
        invariant
            i <= events@.len(),
            keep@.len() == i,
            forall|k: int| 0 <= k < i ==> #[trigger] keep@[k] == (events@[k].timestamp <= now),
        decreases events@.len() - i,
    {
        keep.push(events[i].timestamp <= now);
        i += 1;
    }
    let past = sort_in_time(events, &keep);
    proof {
        order::is_arrangement(
            past@,
            events@.len() as int,
            |i: int| keep@[i],
            by_time(events@),
            |i: int| events@[i].timestamp <= now,
            by_time(events@),
        );
    }
    if past.len() < 2 {
        return None;
    }
    let last: i128 = events[past[past.len() - 1]].timestamp as i128;
    let previous: i128 = events[past[past.len() - 2]].timestamp as i128;
    let gap: i128 = last - previous;
    if 1_728_000 <= gap && gap <= 34_560_000 {
        Some(gap as i64)
    } else {
        None
    }
}

fn adds_calendar(events: &[DividendEvent], date: Option<i64>, now: i64, horizon: i64) -> (r: bool)
    ensures
        r == calendar_adds(events@, date, now as int, horizon as int),
{
    match date {
        None => false,
        Some(day) => {
            if !(now < day && day <= horizon) {
                return false;
            }
            let mut i: usize = 0;
            while i < events.len()
                invariant
                    i <= events@.len(),
                    date == Some(day),
                    forall|k: int|
                        0 <= k < i && now < (#[trigger] events@[k]).timestamp <= horizon ==> !(
                        -172_800 <= events@[k].timestamp - day <= 172_800),
                decreases events@.len() - i,
            {
                let time: i64 = events[i].timestamp;
                let apart: i128 = time as i128 - day as i128;
                if now < time && time <= horizon && -172_800 <= apart && apart <= 172_800 {
                    return false;
                }
                i += 1;
            }
            true
        },
    }
}

#[verifier::loop_isolation(false)]
fn list_known(
    events: &[DividendEvent],
    date: Option<i64>,
    with_calendar: bool,
    fallback: Option<usize>,
    now: i64,
    horizon: i64,
) -> (r: Vec<ProjectedDividend>)
    requires
        events@.len() < usize::MAX,
    ensures
        r@ == known_ahead(events@, date, with_calendar, fallback, now as int, horizon as int),
{
    let day: i64 = match date {
        Some(day) => day,
        None => 0,
    };
    let ghost wanted = announced(events@, with_calendar, now as int, horizon as int);
    let ghost wanted_keys = announced_keys(events@, day as int);
    let mut keep: Vec<bool> = Vec::new();
    let mut keys: Vec<SortKey> = Vec::new();
    let mut i: usize = 0;
    while i < events.len()
        invariant
            i <= events@.len(),
            keep@.len() == i,
            keys@.len() == i,
            forall|k: int| 0 <= k < i ==> #[trigger] keep@[k] == wanted(k),
            forall|k: int| 0 <= k < i ==> #[trigger] keys@[k] == wanted_keys(k),
        decreases events@.len() - i,
    {
        let time: i64 = events[i].timestamp;
        keep.push(now < time && time <= horizon);
        keys.push(SortKey { first: time as i128, second: 0, third: 0 });
        i += 1;
    }
    keep.push(with_calendar);
    keys.push(SortKey { first: day as i128, second: 0, third: 0 });
    let positions = order::arrange(&keep, &keys);
    proof {
        order::is_arrangement(
            positions@,
            (events@.len() + 1) as int,
            |i: int| keep@[i],
            |i: int| keys@[i],
            wanted,
            wanted_keys,
        );
    }
    let mut r: Vec<ProjectedDividend> = Vec::new();
    let mut k: usize = 0;
    while k < positions.len()
        invariant
            k <= positions@.len(),
            r@.len() == k,
            forall|q: int|
                0 <= q < k ==> #[trigger] r@[q] == announced_dividend(
                    events@,
                    day,
                    fallback,
                    positions@[q],
                ),
        decreases positions@.len() - k,
    {
        let e: usize = positions[k];
        if e < events.len() {
            r.push(
                ProjectedDividend {
                    timestamp: events[e].timestamp,
                    amount: Some(e),
                    estimated: false,
                },
            );
        } else {
            r.push(ProjectedDividend { timestamp: day, amount: fallback, estimated: false });
        }
        k += 1;
    }
    assert(r@ =~= known_ahead(
        events@,
        date,
        with_calendar,
        fallback,
        now as int,
        horizon as int,
    ));
    r
}

#[verifier::loop_isolation(false)]
fn project(
    events: &[DividendEvent],
    date: Option<i64>,
    fallback: Option<usize>,
    extend: bool,
    now: i64,
    horizon: i64,
) -> (r: Vec<ProjectedDividend>)
    requires
        events@.len() < usize::MAX,
        horizon < i64::MAX,
    ensures
        r@ == projected(events@, date, fallback, extend, now as int, horizon as int),
{
    let with_calendar = extend && adds_calendar(events, date, now, horizon);
    let mut r = list_known(events, date, with_calendar, fallback, now, horizon);
    if !extend {
        return r;
    }
    let ghost known = r@;
    let order = order_in_time(events);
    let start: Option<i64> = if r.len() > 0 {
        Some(r[r.len() - 1].timestamp)
    } else {
        match date {
            Some(day) => Some(day),
            None => match find_latest(events, &order, now) {
                Some(i) => Some(events[i].timestamp),
                None => None,
            },
        }
    };
    match (find_cadence(events, now), start) {
        (Some(step), Some(first)) => {
            let mut current: i64 = first;
            let ghost all = estimates_after(
                events@,
                fallback,
                step as int,
                now as int,
                horizon as int,
                first as int,
            );
            assert(known + all =~= r@ + all);
            while current as i128 + step as i128 <= horizon as i128
                invariant
                    step > 0,
                    step <= 34_560_000,
                    r@ + estimates_after(
                        events@,
                        fallback,
                        step as int,
                        now as int,
                        horizon as int,
                        current as int,
                    ) == known + all,
                decreases horizon - current,
            {
                let next: i64 = current + step;
                let ghost before = r@;
                let ghost rest = estimates_after(
                    events@,
                    fallback,
                    step as int,
                    now as int,
                    horizon as int,
                    next as int,
                );
                if next > now {
                    let amount: Option<usize> = match find_latest(events, &order, current) {
                        Some(i) => Some(i),
                        None => fallback,
                    };
                    r.push(ProjectedDividend { timestamp: next, amount, estimated: true });
                    assert(r@ + rest =~= before + (seq![r@.last()] + rest));
                }
                current = next;
            }
            assert(estimates_after(
                events@,
                fallback,
                step as int,
                now as int,
                horizon as int,
                current as int,
            ) =~= Seq::empty());
            assert(r@ =~= known + all);
        },
        _ => {},
    }
    r
}

/// The event whose amount a distribution has when nothing else is known: the last one
/// that has happened, or else the given one.
pub open spec fn usual_event(
    events: Seq<DividendEvent>,
    now: int,
    otherwise: Option<usize>,
) -> Option<usize> {
    match latest_by(events, in_time(events), now) {
        Some(i) => Some(i),
        None => otherwise,
    }
}

pub open spec fn first_in_time(events: Seq<DividendEvent>) -> Option<usize> {
    if events.len() == 0 {
        None
    } else {
        Some(in_time(events)[0])
    }
}

pub open spec fn last_in_time(events: Seq<DividendEvent>) -> Option<usize> {
    if events.len() == 0 {
        None
    } else {
        Some(in_time(events).last())
    }
}

/// What a forecast is made from, and the forecast.
pub struct Forecast {
    /// The event that gives estimates their currency.
    pub usual: Option<usize>,
    pub dividends: Vec<ProjectedDividend>,
}

proof fn all_listed(events: Seq<DividendEvent>, order: Seq<usize>)
    requires
        order::arranged(order, events.len() as int, |i: int| true, by_time(events)),
    ensures
        events.len() > 0 ==> order.len() > 0,
{
    if events.len() > 0 {
        assert(order.contains(0usize));
    }
}

/// The distributions of a security up to a horizon. Dates beyond those announced are
/// added only where the usual amount is above zero.
pub fn estimated_future_dividend_events(
    events: &[DividendEvent],
    calendar_ex: Option<i64>,
    now: i64,
    horizon: i64,
) -> (r: Forecast)
    requires
        events@.len() < usize::MAX,
        horizon < i64::MAX,
    ensures
        r.usual == usual_event(events@, now as int, last_in_time(events@)),
        r.dividends@ == if horizon <= now {
            Seq::empty()
        } else {
            projected(
                events@,
                calendar_ex,
                r.usual,
                r.usual is Some && events@[r.usual->0 as int].positive,
                now as int,
                horizon as int,
            )
        },
{
    let order = order_in_time(events);
    proof {
        all_listed(events@, order@);
    }
    let usual: Option<usize> = match find_latest(events, &order, now) {
        Some(i) => Some(i),
        None => if events.len() > 0 {
            Some(order[order.len() - 1])
        } else {
            None
        },
    };
    if horizon <= now {
        return Forecast { usual, dividends: Vec::new() };
    }
    let extend = match usual {
        Some(i) => events[i].positive,
        None => false,
    };
    let dividends = project(events, calendar_ex, usual, extend, now, horizon);
    Forecast { usual, dividends }
}

/// The currency of a distribution: that of its event, or of the holding where the event
/// names none. Estimates follow the usual event.
pub open spec fn dividend_currency(
    events: Seq<DividendEvent>,
    usual: Option<usize>,
    dividend: ProjectedDividend,
    holding: Seq<char>,
) -> Seq<char> {
    let source = if dividend.estimated {
        usual
    } else {
        dividend.amount
    };
    match source {
        Some(i) => if text::nothing_but_blanks(events[i as int].currency@) {
            holding
        } else {
            events[i as int].currency@
        },
        None => holding,
    }
}

pub fn projected_currency(
    events: &[DividendEvent],
    usual: Option<usize>,
    dividend: &ProjectedDividend,
    holding_currency: &str,
) -> (r: String)
    requires
        match usual {
            Some(i) => i < events@.len(),
            None => true,
        },
        match dividend.amount {
            Some(i) => i < events@.len(),
            None => true,
        },
    ensures
        r@ == dividend_currency(events@, usual, *dividend, holding_currency@),
{
    let source: Option<usize> = if dividend.estimated {
        usual
    } else {
        dividend.amount
    };
    match source {
        Some(i) => event_currency(&events[i], holding_currency),
        None => holding_currency.to_owned(),
    }
}

/// The currency of an event, or of the holding where the event names none.
pub fn event_currency(event: &DividendEvent, holding_currency: &str) -> (r: String)
    ensures
        r@ == if text::nothing_but_blanks(event.currency@) {
            holding_currency@
        } else {
            event.currency@
        },
{
    if text::is_only_blank(event.currency.as_str()) {
        holding_currency.to_owned()
    } else {
        event.currency.clone()
    }
}

/// The list of what is to come names every announced event within the horizon.
pub proof fn announced_events_are_listed(
    events: Seq<DividendEvent>,
    date: Option<i64>,
    fallback: Option<usize>,
    extend: bool,
    now: int,
    horizon: int,
    i: int,
)
    requires
        0 <= i < events.len(),
        events.len() < usize::MAX,
        now < events[i].timestamp <= horizon,
    ensures
        projected(events, date, fallback, extend, now, horizon).contains(
            (ProjectedDividend {
                timestamp: events[i].timestamp,
                amount: Some(i as usize),
                estimated: false,
            }),
        ),
{
    let with_calendar = extend && calendar_adds(events, date, now, horizon);
    let day = match date {
        Some(day) => day,
        None => 0,
    };
    let keep = announced(events, with_calendar, now, horizon);
    let keys = announced_keys(events, day as int);
    let len = (events.len() + 1) as int;
    order::every_arrangement_exists(len, keep, keys);
    let positions = order::arrangement(len, keep, keys);
    assert(keep(i));
    assert(positions.contains(i as usize));
    let k = choose|k: int| 0 <= k < positions.len() && positions[k] == i as usize;
    let known = known_ahead(events, date, with_calendar, fallback, now, horizon);
    let list = projected(events, date, fallback, extend, now, horizon);
    assert(list[k] == known[k]);
}

/// The list of what is to come runs forward in time, and every estimate lies at least
/// twenty days after all that is known.
pub proof fn projection_runs_forward(
    events: Seq<DividendEvent>,
    date: Option<i64>,
    fallback: Option<usize>,
    extend: bool,
    now: int,
    horizon: int,
    a: int,
    b: int,
)
    requires
        events.len() < usize::MAX,
        i64::MIN <= now,
        horizon <= i64::MAX,
        0 <= a < b < projected(events, date, fallback, extend, now, horizon).len(),
    ensures
        ({
            let list = projected(events, date, fallback, extend, now, horizon);
            &&& list[a].timestamp <= list[b].timestamp
            &&& list[b].estimated ==> list[a].timestamp + 1_728_000 <= list[b].timestamp
            &&& list[a].estimated ==> list[b].estimated
        }),
{
    let with_calendar = extend && calendar_adds(events, date, now, horizon);
    let day = match date {
        Some(day) => day,
        None => 0,
    };
    let keep = announced(events, with_calendar, now, horizon);
    let keys = announced_keys(events, day as int);
    let len = (events.len() + 1) as int;
    order::every_arrangement_exists(len, keep, keys);
    let positions = order::arrangement(len, keep, keys);
    let known = known_ahead(events, date, with_calendar, fallback, now, horizon);
    let list = projected(events, date, fallback, extend, now, horizon);
    let n = known.len() as int;
    assert forall|p: int, q: int| 0 <= p < q < n implies known[p].timestamp <= known[q].timestamp by {
        assert(order::comes_before(
            order::keyed(keys, positions[p]),
            order::keyed(keys, positions[q]),
        ));
    }
    assert(forall|p: int| 0 <= p < n ==> list[p] == known[p]);
    if b >= n {
        let step = cadence(events, now)->0;
        let start = anchor(events, date, known, now)->0 as int;
        let more = estimates_after(events, fallback, step, now, horizon, start);
        estimates_keep_the_rhythm(events, fallback, step, now, horizon, start);
        assert(list[b] == more[b - n]);
        let distance = more[b - n].timestamp - start;
        assert(distance >= step) by {
            vstd::arithmetic::div_mod::lemma_fundamental_div_mod(distance, step);
            let q = distance / step;
            assert(q >= 1) by (nonlinear_arith)
                requires
                    distance == step * q,
                    distance > 0,
                    step > 0,
            ;
            assert(step * q >= step) by (nonlinear_arith)
                requires
                    q >= 1,
                    step > 0,
            ;
        }
        if a < n {
            assert(list[a].timestamp <= known.last().timestamp);
        } else {
            assert(list[a] == more[a - n]);
            let gap = (b - n) - (a - n);
            assert(more[b - n].timestamp == more[0].timestamp + (b - n) * step);
            if a > n {
                assert(more[a - n].timestamp == more[0].timestamp + (a - n) * step);
            }
            assert((b - n) * step == (a - n) * step + gap * step) by (nonlinear_arith)
                requires
                    gap == (b - n) - (a - n),
            ;
            assert(gap * step >= step) by (nonlinear_arith)
                requires
                    gap >= 1,
                    step > 0,
            ;
        }
    }
}

/// A split of a security that may lie ahead.
pub struct UpcomingSplit {
    pub timestamp: i64,
    /// The ratio is below one.
    pub reverse: bool,
}

#[derive(Clone, Copy, PartialEq, Eq, Structural)]
pub enum UpcomingKind {
    ExDividend,
    EstimatedExDividend,
    Payment,
    EstimatedPayment,
    Split(usize),
    ReverseSplit(usize),
}

/// Something that lies ahead for a security.
#[derive(Clone, Copy, PartialEq, Eq, Structural)]
pub struct UpcomingAction {
    pub timestamp: i64,
    pub kind: UpcomingKind,
    /// The event whose amount is paid, for a distribution.
    pub amount: Option<usize>,
}

/// The horizon of what is shown: a leap year ahead.
pub const HORIZON_SECONDS: i64 = 31_622_400;

/// How long after its ex-dividend date the calendar has a distribution paid, where that
/// is within ninety days.
pub open spec fn payment_lag(ex: Option<i64>, payment: Option<i64>) -> Option<int> {
    match (ex, payment) {
        (Some(ex), Some(payment)) if payment >= ex && payment - ex <= 7_776_000 => Some(
            payment - ex,
        ),
        _ => None,
    }
}

/// The payments that follow from the lag: those that lie ahead within the horizon and
/// more than two days from the one in the calendar, each date once.
pub open spec fn pays(
    dividends: Seq<ProjectedDividend>,
    lag: int,
    payment: Option<i64>,
    now: int,
    horizon: int,
) -> spec_fn(int) -> bool {
    |k: int|
        {
            let paid = dividends[k].timestamp + lag;
            &&& now < paid <= horizon
            &&& match payment {
                Some(exact) => !(-172_800 <= exact - paid <= 172_800),
                None => true,
            }
            &&& forall|j: int|
                0 <= j < k ==> (#[trigger] dividends[j]).timestamp != dividends[k].timestamp
        }
}

pub open spec fn ex_action(dividend: ProjectedDividend) -> UpcomingAction {
    UpcomingAction {
        timestamp: dividend.timestamp,
        kind: if dividend.estimated {
            UpcomingKind::EstimatedExDividend
        } else {
            UpcomingKind::ExDividend
        },
        amount: dividend.amount,
    }
}

pub open spec fn ex_actions(dividends: Seq<ProjectedDividend>) -> Seq<UpcomingAction> {
    Seq::new(dividends.len(), |k: int| ex_action(dividends[k]))
}

pub open spec fn exact_payment(
    payment: Option<i64>,
    usual: Option<usize>,
    now: int,
    horizon: int,
) -> Seq<UpcomingAction> {
    match payment {
        Some(date) if now < date <= horizon => seq![
            UpcomingAction { timestamp: date, kind: UpcomingKind::Payment, amount: usual },
        ],
        _ => Seq::empty(),
    }
}

pub open spec fn lagged_payments(
    dividends: Seq<ProjectedDividend>,
    ex: Option<i64>,
    payment: Option<i64>,
    now: int,
    horizon: int,
) -> Seq<UpcomingAction> {
    match payment_lag(ex, payment) {
        Some(lag) => {
            let chosen = order::selection(
                dividends.len() as int,
                pays(dividends, lag, payment, now, horizon),
            );
            Seq::new(
                chosen.len(),
                |k: int|
                    UpcomingAction {
                        timestamp: (dividends[chosen[k] as int].timestamp + lag) as i64,
                        kind: UpcomingKind::EstimatedPayment,
                        amount: dividends[chosen[k] as int].amount,
                    },
            )
        },
        None => Seq::empty(),
    }
}

pub open spec fn split_ahead(splits: Seq<UpcomingSplit>, now: int, horizon: int) -> spec_fn(int) -> bool {
    |j: int| now < splits[j].timestamp <= horizon
}

pub open spec fn split_action(splits: Seq<UpcomingSplit>, j: usize) -> UpcomingAction {
    UpcomingAction {
        timestamp: splits[j as int].timestamp,
        kind: if splits[j as int].reverse {
            UpcomingKind::ReverseSplit(j)
        } else {
            UpcomingKind::Split(j)
        },
        amount: None,
    }
}

pub open spec fn split_actions(splits: Seq<UpcomingSplit>, now: int, horizon: int) -> Seq<UpcomingAction> {
    let chosen = order::selection(splits.len() as int, split_ahead(splits, now, horizon));
    Seq::new(chosen.len(), |k: int| split_action(splits, chosen[k]))
}

/// All that lies ahead for a security: its ex-dividend dates, the payment in the
/// calendar, the payments that follow from it, and its splits.
pub open spec fn upcoming(
    events: Seq<DividendEvent>,
    splits: Seq<UpcomingSplit>,
    ex: Option<i64>,
    payment: Option<i64>,
    now: int,
) -> Seq<UpcomingAction> {
    let horizon = now + HORIZON_SECONDS;
    let usual = usual_event(events, now, first_in_time(events));
    let dividends = projected(events, ex, usual, true, now, horizon);
    ex_actions(dividends) + exact_payment(payment, usual, now, horizon) + lagged_payments(
        dividends,
        ex,
        payment,
        now,
        horizon,
    ) + split_actions(splits, now, horizon)
}

#[verifier::loop_isolation(false)]
fn list_payments(
    dividends: &Vec<ProjectedDividend>,
    ex: Option<i64>,
    payment: Option<i64>,
    now: i64,
    horizon: i64,
) -> (r: Vec<UpcomingAction>)
    ensures
        r@ == lagged_payments(dividends@, ex, payment, now as int, horizon as int),
{
    let lag: i64 = match (ex, payment) {
        (Some(ex), Some(payment)) => {
            let apart: i128 = payment as i128 - ex as i128;
            if apart >= 0 && apart <= 7_776_000 {
                apart as i64
            } else {
                return Vec::new();
            }
        },
        _ => {
            return Vec::new();
        },
    };
    assert(payment_lag(ex, payment) == Some(lag as int));
    let ghost wanted = pays(dividends@, lag as int, payment, now as int, horizon as int);
    let mut keep: Vec<bool> = Vec::new();
    let mut k: usize = 0;
    while k < dividends.len()
        invariant
            k <= dividends@.len(),
            keep@.len() == k,
            forall|q: int| 0 <= q < k ==> #[trigger] keep@[q] == wanted(q),
        decreases dividends@.len() - k,
    {
        let paid: i128 = dividends[k].timestamp as i128 + lag as i128;
        let near = match payment {
            Some(exact) => {
                let apart: i128 = exact as i128 - paid;
                -172_800 <= apart && apart <= 172_800
            },
            None => false,
        };
        let mut fresh = true;
        let mut j: usize = 0;
        while j < k
            invariant
                j <= k,
                fresh == forall|i: int|
                    0 <= i < j ==> (#[trigger] dividends@[i]).timestamp
                        != dividends@[k as int].timestamp,
            decreases k - j,
        {
            if dividends[j].timestamp == dividends[k].timestamp {
                fresh = false;
            }
            j += 1;
        }
        let kept = (now as i128) < paid && paid <= horizon as i128 && !near && fresh;
        assert(kept == wanted(k as int));
        keep.push(kept);
        k += 1;
    }
    let chosen = order::select(&keep);
    proof {
        order::is_selection(chosen@, dividends@.len() as int, |i: int| keep@[i], wanted);
    }
    let mut r: Vec<UpcomingAction> = Vec::new();
    let mut k: usize = 0;
    while k < chosen.len()
        invariant
            k <= chosen@.len(),
            r@ == lagged_payments(dividends@, ex, payment, now as int, horizon as int).take(
                k as int,
            ),
        decreases chosen@.len() - k,
    {
        let d = &dividends[chosen[k]];
        assert(wanted(chosen@[k as int] as int));
        r.push(
            UpcomingAction {
                timestamp: d.timestamp + lag,
                kind: UpcomingKind::EstimatedPayment,
                amount: d.amount,
            },
        );
        k += 1;
    }
    assert(r@ =~= lagged_payments(dividends@, ex, payment, now as int, horizon as int));
    r
}

#[verifier::loop_isolation(false)]
fn list_splits(splits: &[UpcomingSplit], now: i64, horizon: i64) -> (r: Vec<UpcomingAction>)
    ensures
        r@ == split_actions(splits@, now as int, horizon as int),
{
    let mut keep: Vec<bool> = Vec::new();
    let mut j: usize = 0;
    while j < splits.len()
        invariant
            j <= splits@.len(),
            keep@.len() == j,
            forall|q: int|
                0 <= q < j ==> #[trigger] keep@[q] == split_ahead(
                    splits@,
                    now as int,
                    horizon as int,
                )(q),
        decreases splits@.len() - j,
    {
        keep.push(now < splits[j].timestamp && splits[j].timestamp <= horizon);
        j += 1;
    }
    let chosen = order::select(&keep);
    proof {
        order::is_selection(
            chosen@,
            splits@.len() as int,
            |i: int| keep@[i],
            split_ahead(splits@, now as int, horizon as int),
        );
    }
    let mut r: Vec<UpcomingAction> = Vec::new();
    let mut k: usize = 0;
    while k < chosen.len()
        invariant
            k <= chosen@.len(),
            r@ == split_actions(splits@, now as int, horizon as int).take(k as int),
        decreases chosen@.len() - k,
    {
        let j: usize = chosen[k];
        r.push(
            UpcomingAction {
                timestamp: splits[j].timestamp,
                kind: if splits[j].reverse {
                    UpcomingKind::ReverseSplit(j)
                } else {
                    UpcomingKind::Split(j)
                },
                amount: None,
            },
        );
        k += 1;
    }
    assert(r@ =~= split_actions(splits@, now as int, horizon as int));
    r
}

/// Lists all that lies ahead for a security.
#[verifier::loop_isolation(false)]
pub fn upcoming_actions(
    events: &[DividendEvent],
    splits: &[UpcomingSplit],
    calendar_ex: Option<i64>,
    calendar_payment: Option<i64>,
    now: i64,
) -> (r: Vec<UpcomingAction>)
    requires
        events@.len() < usize::MAX,
        now < i64::MAX - HORIZON_SECONDS,
    ensures
        r@ == upcoming(events@, splits@, calendar_ex, calendar_payment, now as int),
{
    let horizon: i64 = now + HORIZON_SECONDS;
    let order = order_in_time(events);
    proof {
        all_listed(events@, order@);
    }
    let usual: Option<usize> = match find_latest(events, &order, now) {
        Some(i) => Some(i),
        None => if events.len() > 0 {
            Some(order[0])
        } else {
            None
        },
    };
    let dividends = project(events, calendar_ex, usual, true, now, horizon);
    let mut r: Vec<UpcomingAction> = Vec::new();
    let mut k: usize = 0;
    while k < dividends.len()
        invariant
            k <= dividends@.len(),
            r@ == ex_actions(dividends@).take(k as int),
        decreases dividends@.len() - k,
    {
        let d = &dividends[k];
        r.push(
            UpcomingAction {
                timestamp: d.timestamp,
                kind: if d.estimated {
                    UpcomingKind::EstimatedExDividend
                } else {
                    UpcomingKind::ExDividend
                },
                amount: d.amount,
            },
        );
        k += 1;
    }
    assert(r@ =~= ex_actions(dividends@));
    match calendar_payment {
        Some(date) => if now < date && date <= horizon {
            r.push(
                UpcomingAction { timestamp: date, kind: UpcomingKind::Payment, amount: usual },
            );
        },
        None => {},
    }
    assert(r@ =~= ex_actions(dividends@) + exact_payment(
        calendar_payment,
        usual,
        now as int,
        horizon as int,
    ));
    let mut payments = list_payments(&dividends, calendar_ex, calendar_payment, now, horizon);
    r.append(&mut payments);
    let mut split_list = list_splits(splits, now, horizon);
    r.append(&mut split_list);
    r
}

pub open spec fn actions_by_time(actions: Seq<UpcomingAction>) -> spec_fn(int) -> SortKey {
    |i: int| SortKey { first: actions[i].timestamp as i128, second: 0, third: 0 }
}

/// The order in which the actions of all securities are shown: by time.
#[verifier::loop_isolation(false)]
pub fn upcoming_order(actions: &Vec<UpcomingAction>) -> (r: Vec<usize>)
    ensures
        r@ == order::arrangement(actions@.len() as int, |i: int| true, actions_by_time(actions@)),
{
    let mut keep: Vec<bool> = Vec::new();
    let mut keys: Vec<SortKey> = Vec::new();
    let mut i: usize = 0;
    while i < actions.len()
        invariant
            i <= actions@.len(),
            keep@.len() == i,
            keys@.len() == i,
            forall|k: int| 0 <= k < i ==> #[trigger] keep@[k],
            forall|k: int| 0 <= k < i ==> #[trigger] keys@[k] == actions_by_time(actions@)(k),
        decreases actions@.len() - i,
    {
        keep.push(true);
        keys.push(SortKey { first: actions[i].timestamp as i128, second: 0, third: 0 });
        i += 1;
    }
    let r = order::arrange(&keep, &keys);
    proof {
        order::is_arrangement(
            r@,
            actions@.len() as int,
            |i: int| keep@[i],
            |i: int| keys@[i],
            |i: int| true,
            actions_by_time(actions@),
        );
    }
    r
}

pub open spec fn action_name(kind: UpcomingKind) -> Seq<char> {
    match kind {
        UpcomingKind::ExDividend | UpcomingKind::EstimatedExDividend => "Ex-dividend"@,
        UpcomingKind::Payment | UpcomingKind::EstimatedPayment => "Dividend payment"@,
        UpcomingKind::Split(_) => "Split"@,
        UpcomingKind::ReverseSplit(_) => "Reverse Split"@,
    }
}

pub open spec fn action_lead(kind: UpcomingKind) -> Seq<char> {
    match kind {
        UpcomingKind::ExDividend => "Ex-dividend date · "@,
        UpcomingKind::EstimatedExDividend => "Estimated ex-dividend · "@,
        UpcomingKind::Payment => "Payment date · "@,
        UpcomingKind::EstimatedPayment => "Estimated payment · "@,
        UpcomingKind::Split(_) | UpcomingKind::ReverseSplit(_) => ""@,
    }
}

pub fn upcoming_title(code: &str, action: &UpcomingAction) -> (r: String)
    ensures
        r@ == code@ + " · "@ + action_name(action.kind),
{
    let mut r = code.to_owned();
    r.append(" · ");
    let name = match action.kind {
        UpcomingKind::ExDividend | UpcomingKind::EstimatedExDividend => "Ex-dividend",
        UpcomingKind::Payment | UpcomingKind::EstimatedPayment => "Dividend payment",
        UpcomingKind::Split(_) => "Split",
        UpcomingKind::ReverseSplit(_) => "Reverse Split",
    };
    r.append(name);
    r
}

pub fn upcoming_subtitle(action: &UpcomingAction) -> (r: String)
    ensures
        r@ == action_lead(action.kind) + calendar::distribution_date_text(
            action.timestamp as int,
        ),
{
    let lead = match action.kind {
        UpcomingKind::ExDividend => "Ex-dividend date · ",
        UpcomingKind::EstimatedExDividend => "Estimated ex-dividend · ",
        UpcomingKind::Payment => "Payment date · ",
        UpcomingKind::EstimatedPayment => "Estimated payment · ",
        UpcomingKind::Split(_) | UpcomingKind::ReverseSplit(_) => "",
    };
    let mut r = lead.to_owned();
    r.append(calendar::format_distribution_date(action.timestamp).as_str());
    r
}

/// Positions whose security no earlier position has.
pub open spec fn first_of_security(positions: Seq<Position>) -> spec_fn(int) -> bool {
    |i: int|
        forall|j: int|
            0 <= j < i ==> !text::alike(
                (#[trigger] positions[j]).provider_symbol@,
                positions[i].provider_symbol@,
            )
}

/// One position for each security: the first one that has it.
#[verifier::loop_isolation(false)]
pub fn one_for_each_security(positions: &[Position]) -> (r: Vec<usize>)
    ensures
        r@ == order::selection(positions@.len() as int, first_of_security(positions@)),
{
    let mut keep: Vec<bool> = Vec::new();
    let mut i: usize = 0;
    while i < positions.len()
        invariant
            i <= positions@.len(),
            keep@.len() == i,
            forall|q: int| 0 <= q < i ==> #[trigger] keep@[q] == first_of_security(positions@)(q),
        decreases positions@.len() - i,
    {
        let mut fresh = true;
        let mut j: usize = 0;
        while j < i
            invariant
                j <= i,
                fresh == forall|k: int|
                    0 <= k < j ==> !text::alike(
                        (#[trigger] positions@[k]).provider_symbol@,
                        positions@[i as int].provider_symbol@,
                    ),
            decreases i - j,
        {
            if text::same_letters(
                positions[j].provider_symbol.as_str(),
                positions[i].provider_symbol.as_str(),
            ) {
                fresh = false;
            }
            j += 1;
        }
        keep.push(fresh);
        i += 1;
    }
    let r = order::select(&keep);
    proof {
        order::is_selection(
            r@,
            positions@.len() as int,
            |i: int| keep@[i],
            first_of_security(positions@),
        );
    }
    r
}

/// The rhythm of a security is the time between its last two distributions that have
/// happened, whatever came before them, where that is at least twenty and at most four
/// hundred days. Otherwise there is none.
#[verifier::spinoff_prover]
#[verifier::rlimit(80)]
pub proof fn rhythm_is_the_last_gap(events: Seq<DividendEvent>, now: int, gap: int)
    requires
        events.len() <= usize::MAX,
    ensures
        cadence(events, now) == Some(gap) <==> 20 * 86_400 <= gap <= 400 * 86_400 && exists|
            a: int,
            b: int,
        |
            are_last_two(events, now, a, b) && (#[trigger] events[b]).timestamp - (
            #[trigger] events[a]).timestamp == gap,
{
    let keep = |i: int| events[i].timestamp <= now;
    let keys = by_time(events);
    order::arrangement_sorts_kept_positions(events.len() as int, keep, keys);
    let past = order::arrangement(events.len() as int, keep, keys);
    assert forall|k: int| 0 <= k < past.len() implies #[trigger] past[k] < events.len() && keep(
        past[k] as int,
    ) by {
        assert(past.contains(past[k]));
    }
    let n = past.len() as int;
    if n >= 2 {
        let a = past[n - 2] as int;
        let b = past[n - 1] as int;
        assert(past[n - 2] != past[n - 1]);
        assert forall|i: int|
            0 <= i < events.len() && i != b && (#[trigger] events[i]).timestamp
                <= now implies events[i].timestamp <= events[a].timestamp by {
            assert(keep(i));
            assert(past.contains(i as usize));
            let k = choose|k: int| 0 <= k < past.len() && past[k] == i as usize;
            if k < n - 2 {
                let x = past[k];
                let y = past[n - 2];
            }
        }
        assert(are_last_two(events, now, a, b));
        assert(events[b].timestamp - events[a].timestamp == events[past[n - 1] as int].timestamp
            - events[past[n - 2] as int].timestamp);
    }
    if exists|a: int, b: int|
        are_last_two(events, now, a, b) && (#[trigger] events[b]).timestamp - (
        #[trigger] events[a]).timestamp == gap {
        let (a, b) = choose|a: int, b: int|
            are_last_two(events, now, a, b) && (#[trigger] events[b]).timestamp - (
            #[trigger] events[a]).timestamp == gap;
        assert(keep(a) && keep(b));
        assert(past.contains(a as usize) && past.contains(b as usize));
        let p = choose|p: int| 0 <= p < past.len() && past[p] == a as usize;
        let q = choose|q: int| 0 <= q < past.len() && past[q] == b as usize;
        assert(p != q);
        assert(n >= 2);
        let last = past[n - 1] as int;
        let before = past[n - 2] as int;
        assert(past[n - 2] != past[n - 1]);
        assert(events[before].timestamp <= events[last].timestamp);
        assert(events[last].timestamp == events[b].timestamp) by {
            assert(events[last].timestamp <= now);
            if q < n - 1 {
                let x = past[q];
                let y = past[n - 1];
            }
        }
        assert(events[before].timestamp == events[a].timestamp) by {
            assert(events[before].timestamp <= now);
            if before == b {
                assert(events[a].timestamp <= events[b].timestamp);
                assert(events[last].timestamp <= events[a].timestamp);
            } else {
                assert(events[before].timestamp <= events[a].timestamp);
                if p < n - 2 {
                    let x = past[p];
                    let y = past[n - 2];
                } else if p == n - 1 {
                    let x = past[n - 2];
                    let y = past[n - 1];
                    assert(q < n - 1);
                    if q < n - 2 {
                        let z = past[q];
                        assert(events[b].timestamp <= events[before].timestamp);
                    }
                }
            }
        }
    }
}

/// The last two events that have happened, the later one second.
pub open spec fn are_last_two(events: Seq<DividendEvent>, now: int, a: int, b: int) -> bool {
    &&& 0 <= a < events.len()
    &&& 0 <= b < events.len()
    &&& a != b
    &&& events[a].timestamp <= events[b].timestamp <= now
    &&& forall|i: int|
        0 <= i < events.len() && i != b && (#[trigger] events[i]).timestamp <= now
            ==> events[i].timestamp <= events[a].timestamp
}

/// An older distribution changes nothing about the rhythm once there are two newer ones.
pub proof fn older_distributions_keep_the_rhythm(
    events: Seq<DividendEvent>,
    older: DividendEvent,
    now: int,
    a: int,
    b: int,
)
    requires
        events.len() < usize::MAX,
        are_last_two(events, now, a, b),
        older.timestamp <= events[a].timestamp,
    ensures
        cadence(events.push(older), now) == cadence(events, now),
{
    let more = events.push(older);
    let gap = events[b].timestamp - events[a].timestamp;
    assert(more[a] == events[a] && more[b] == events[b]);
    assert forall|i: int|
        0 <= i < more.len() && i != b && (#[trigger] more[i]).timestamp
            <= now implies more[i].timestamp <= more[a].timestamp by {
        if i < events.len() {
            assert(more[i] == events[i]);
        }
    }
    assert(are_last_two(more, now, a, b));
    rhythm_is_the_last_gap(events, now, gap);
    rhythm_is_the_last_gap(more, now, gap);
    if !(20 * 86_400 <= gap <= 400 * 86_400) {
        if let Some(other) = cadence(events, now) {
            rhythm_is_the_last_gap(events, now, other);
            last_gap_is_unique(events, now, a, b, other);
        }
        if let Some(other) = cadence(more, now) {
            rhythm_is_the_last_gap(more, now, other);
            last_gap_is_unique(more, now, a, b, other);
        }
    }
}

proof fn last_gap_is_unique(events: Seq<DividendEvent>, now: int, a: int, b: int, gap: int)
    requires
        are_last_two(events, now, a, b),
        exists|x: int, y: int|
            are_last_two(events, now, x, y) && (#[trigger] events[y]).timestamp - (
            #[trigger] events[x]).timestamp == gap,
    ensures
        gap == events[b].timestamp - events[a].timestamp,
{
    let (x, y) = choose|x: int, y: int|
        are_last_two(events, now, x, y) && (#[trigger] events[y]).timestamp - (
        #[trigger] events[x]).timestamp == gap;
    assert(events[y].timestamp == events[b].timestamp);
    assert(events[x].timestamp == events[a].timestamp);
}

/// The event that counts at a time is the newest one that has happened by then, if any has.
pub proof fn newest_event_counts(events: Seq<DividendEvent>, time: int)
    requires
        events.len() <= usize::MAX,
    ensures
        match latest_by(events, in_time(events), time) {
            None => forall|i: int|
                0 <= i < events.len() ==> (#[trigger] events[i]).timestamp > time,
            Some(newest) => newest < events.len() && events[newest as int].timestamp <= time
                && forall|i: int|
                0 <= i < events.len() && (#[trigger] events[i]).timestamp <= time
                    ==> events[i].timestamp <= events[newest as int].timestamp,
        },
{
    let keep = |i: int| true;
    let keys = by_time(events);
    order::arrangement_sorts_kept_positions(events.len() as int, keep, keys);
    let list = in_time(events);
    assert(list == order::arrangement(events.len() as int, keep, keys));
    assert forall|k: int| 0 <= k < list.len() implies #[trigger] list[k] < events.len() by {
        assert(list.contains(list[k]));
    }
    newest_in_list(events, list, time);
    assert forall|i: int| 0 <= i < events.len() implies #[trigger] list.contains(i as usize) by {
        assert(keep(i));
    }
    match latest_by(events, list, time) {
        None => {
            assert forall|i: int| 0 <= i < events.len() implies (#[trigger] events[i]).timestamp
                > time by {
                assert(list.contains(i as usize));
                let k = choose|k: int| 0 <= k < list.len() && list[k] == i as usize;
                assert(events[list[k] as int].timestamp > time);
            }
        },
        Some(newest) => {
            assert forall|i: int|
                0 <= i < events.len() && (#[trigger] events[i]).timestamp
                    <= time implies events[i].timestamp <= events[newest as int].timestamp by {
                assert(list.contains(i as usize));
                let k = choose|k: int| 0 <= k < list.len() && list[k] == i as usize;
                let n = choose|n: int|
                    0 <= n < list.len() && #[trigger] list[n] == newest && forall|m: int|
                        n < m < list.len() ==> events[#[trigger] list[m] as int].timestamp > time;
                if k < n {
                    let x = list[k];
                    let y = list[n];
                } else if k > n {
                    assert(events[list[k] as int].timestamp > time);
                }
            }
        },
    }
}

proof fn newest_in_list(events: Seq<DividendEvent>, list: Seq<usize>, time: int)
    requires
        forall|k: int| 0 <= k < list.len() ==> #[trigger] list[k] < events.len(),
    ensures
        match latest_by(events, list, time) {
            None => forall|k: int|
                0 <= k < list.len() ==> events[#[trigger] list[k] as int].timestamp > time,
            Some(newest) => newest < events.len() && events[newest as int].timestamp <= time
                && exists|n: int|
                0 <= n < list.len() && #[trigger] list[n] == newest && forall|m: int|
                    n < m < list.len() ==> events[#[trigger] list[m] as int].timestamp > time,
        },
    decreases list.len(),
{
    if list.len() > 0 {
        let rest = list.drop_last();
        let last = list.len() - 1;
        if events[list.last() as int].timestamp <= time {
            assert(list[last] == list.last());
        } else {
            newest_in_list(events, rest, time);
            match latest_by(events, rest, time) {
                None => {
                    assert forall|k: int| 0 <= k < list.len() implies events[#[trigger] list[k] as int].timestamp
                        > time by {
                        if k < last {
                            assert(rest[k] == list[k]);
                        }
                    }
                },
                Some(newest) => {
                    let n = choose|n: int|
                        0 <= n < rest.len() && #[trigger] rest[n] == newest && forall|m: int|
                            n < m < rest.len() ==> events[#[trigger] rest[m] as int].timestamp
                                > time;
                    assert(list[n] == newest);
                    assert forall|m: int| n < m < list.len() implies events[#[trigger] list[m] as int].timestamp
                        > time by {
                        if m < last {
                            assert(rest[m] == list[m]);
                        }
                    }
                },
            }
        }
    }
}

/// Every date that continues the rhythm, lies ahead and is within the horizon is estimated.
pub proof fn no_date_of_the_rhythm_is_left_out(
    events: Seq<DividendEvent>,
    fallback: Option<usize>,
    step: int,
    now: int,
    horizon: int,
    current: int,
    n: int,
)
    requires
        step > 0,
        n >= 1,
        i64::MIN <= now < current + n * step <= horizon <= i64::MAX,
    ensures
        exists|k: int|
            0 <= k < estimates_after(events, fallback, step, now, horizon, current).len() && (
            #[trigger] estimates_after(
                events,
                fallback,
                step,
                now,
                horizon,
                current,
            )[k]).timestamp == current + n * step,
    decreases n,
{
    let list = estimates_after(events, fallback, step, now, horizon, current);
    let next = current + step;
    assert(n * step >= step) by (nonlinear_arith)
        requires
            n >= 1,
            step > 0,
    ;
    let rest = estimates_after(events, fallback, step, now, horizon, next);
    if n == 1 {
        assert(n * step == step) by (nonlinear_arith)
            requires
                n == 1,
        ;
        assert(list[0].timestamp == next);
    } else {
        assert(next + (n - 1) * step == current + n * step) by (nonlinear_arith)
            requires
                next == current + step,
        ;
        no_date_of_the_rhythm_is_left_out(events, fallback, step, now, horizon, next, n - 1);
        let k = choose|k: int|
            0 <= k < rest.len() && (#[trigger] rest[k]).timestamp == next + (n - 1) * step;
        if next > now {
            assert(list[k + 1] == rest[k]);
        } else {
            assert(list[k] == rest[k]);
        }
    }
}

/// An estimate has the amount of the newest event by the date one step before it, or else
/// the usual amount.
pub proof fn estimates_repeat_the_newest_amount(
    events: Seq<DividendEvent>,
    fallback: Option<usize>,
    step: int,
    now: int,
    horizon: int,
    current: int,
    k: int,
)
    requires
        step > 0,
        i64::MIN <= now,
        horizon <= i64::MAX,
        0 <= k < estimates_after(events, fallback, step, now, horizon, current).len(),
    ensures
        ({
            let estimate = estimates_after(events, fallback, step, now, horizon, current)[k];
            estimate.amount == match latest_by(
                events,
                in_time(events),
                estimate.timestamp - step,
            ) {
                Some(i) => Some(i),
                None => fallback,
            }
        }),
    decreases horizon - current,
{
    let list = estimates_after(events, fallback, step, now, horizon, current);
    let next = current + step;
    if next <= horizon {
        let rest = estimates_after(events, fallback, step, now, horizon, next);
        if next > now {
            if k > 0 {
                assert(list[k] == rest[k - 1]);
                estimates_repeat_the_newest_amount(
                    events,
                    fallback,
                    step,
                    now,
                    horizon,
                    next,
                    k - 1,
                );
            }
        } else {
            estimates_repeat_the_newest_amount(events, fallback, step, now, horizon, next, k);
        }
    }
}

/// What is listed without being an estimate is an event that was announced, with its own
/// amount, or the date of the dividend calendar where no announced event lies within two days
/// of it. Both lie ahead and within the horizon.
pub proof fn known_dates_are_announced(
    events: Seq<DividendEvent>,
    date: Option<i64>,
    fallback: Option<usize>,
    extend: bool,
    now: int,
    horizon: int,
    k: int,
)
    requires
        events.len() < usize::MAX,
        i64::MIN <= now,
        horizon <= i64::MAX,
        0 <= k < projected(events, date, fallback, extend, now, horizon).len(),
    ensures
        ({
            let item = projected(events, date, fallback, extend, now, horizon)[k];
            &&& now < item.timestamp <= horizon
            &&& !item.estimated ==> ((exists|i: int|
                0 <= i < events.len() && (#[trigger] events[i]).timestamp == item.timestamp
                    && item.amount == Some(i as usize)) || (extend && date == Some(item.timestamp)
                && item.amount == fallback && forall|i: int|
                0 <= i < events.len() && now < (#[trigger] events[i]).timestamp <= horizon
                    ==> events[i].timestamp < item.timestamp - 2 * 86_400 || events[i].timestamp
                    > item.timestamp + 2 * 86_400))
            &&& item.estimated ==> extend && cadence(events, now) is Some
        }),
{
    let with_calendar = extend && calendar_adds(events, date, now, horizon);
    let day = match date {
        Some(day) => day,
        None => 0,
    };
    let keep = announced(events, with_calendar, now, horizon);
    let keys = announced_keys(events, day as int);
    let len = (events.len() + 1) as int;
    order::arrangement_sorts_kept_positions(len, keep, keys);
    let positions = order::arrangement(len, keep, keys);
    let known = known_ahead(events, date, with_calendar, fallback, now, horizon);
    let list = projected(events, date, fallback, extend, now, horizon);
    let n = known.len() as int;
    if k < n {
        assert(list[k] == known[k]);
        assert(positions.contains(positions[k]));
        if positions[k] < events.len() {
            assert(events[positions[k] as int].timestamp == list[k].timestamp);
        }
    } else {
        let step = cadence(events, now)->0;
        let start = anchor(events, date, known, now)->0 as int;
        estimates_keep_the_rhythm(events, fallback, step, now, horizon, start);
        assert(list[k] == estimates_after(events, fallback, step, now, horizon, start)[k - n]);
    }
}

/// The date of the dividend calendar is listed where it lies ahead within the horizon and no
/// announced event lies within two days of it.
pub proof fn calendar_date_is_listed(
    events: Seq<DividendEvent>,
    date: i64,
    fallback: Option<usize>,
    now: int,
    horizon: int,
)
    requires
        events.len() < usize::MAX,
        now < date <= horizon,
        forall|i: int|
            0 <= i < events.len() && now < (#[trigger] events[i]).timestamp <= horizon
                ==> events[i].timestamp < date - 2 * 86_400 || events[i].timestamp > date + 2
                * 86_400,
    ensures
        projected(events, Some(date), fallback, true, now, horizon).contains(
            (ProjectedDividend { timestamp: date, amount: fallback, estimated: false }),
        ),
{
    assert(calendar_adds(events, Some(date), now, horizon));
    let keep = announced(events, true, now, horizon);
    let keys = announced_keys(events, date as int);
    let len = (events.len() + 1) as int;
    order::arrangement_sorts_kept_positions(len, keep, keys);
    let positions = order::arrangement(len, keep, keys);
    assert(keep(events.len() as int));
    assert(positions.contains(events.len() as usize));
    let k = choose|k: int| 0 <= k < positions.len() && positions[k] == events.len() as usize;
    let known = known_ahead(events, Some(date), true, fallback, now, horizon);
    let list = projected(events, Some(date), fallback, true, now, horizon);
    assert(list[k] == known[k]);
}

/// Estimates continue the rhythm from the last date that is known to lie ahead; where none
/// is, from the date of the calendar; and without one from the last event that has happened.
/// They are one step apart, and all of them within the horizon are there.
pub proof fn estimates_continue_what_is_known(
    events: Seq<DividendEvent>,
    date: Option<i64>,
    fallback: Option<usize>,
    now: int,
    horizon: int,
    step: int,
    start: int,
    n: int,
)
    requires
        events.len() < usize::MAX,
        i64::MIN <= now < horizon <= i64::MAX,
        cadence(events, now) == Some(step),
        n >= 1,
        now < start + n * step <= horizon,
        ({
            let list = projected(events, date, fallback, true, now, horizon);
            let ahead = |k: int| 0 <= k < list.len() && !list[k].estimated;
            &&& (exists|k: int| #[trigger] ahead(k)) ==> (exists|k: int| #[trigger]
                ahead(k) && list[k].timestamp == start) && forall|k: int| #[trigger]
                ahead(k) ==> list[k].timestamp <= start
            &&& !(exists|k: int| #[trigger] ahead(k)) && date is Some ==> start == date->0
            &&& !(exists|k: int| #[trigger] ahead(k)) && date is None ==> (exists|i: int|
                0 <= i < events.len() && (#[trigger] events[i]).timestamp == start && start <= now)
                && forall|i: int|
                0 <= i < events.len() && (#[trigger] events[i]).timestamp <= now
                    ==> events[i].timestamp <= start
        }),
    ensures
        ({
            let list = projected(events, date, fallback, true, now, horizon);
            exists|k: int|
                0 <= k < list.len() && (#[trigger] list[k]).estimated && list[k].timestamp == start
                    + n * step
        }),
{
    let list = projected(events, date, fallback, true, now, horizon);
    let ahead = |k: int| 0 <= k < list.len() && !list[k].estimated;
    let with_calendar = calendar_adds(events, date, now, horizon);
    let known = known_ahead(events, date, with_calendar, fallback, now, horizon);
    let m = known.len() as int;
    rhythm_is_the_last_gap(events, now, step);
    let (a, b) = choose|a: int, b: int|
        are_last_two(events, now, a, b) && (#[trigger] events[b]).timestamp - (
        #[trigger] events[a]).timestamp == step;
    newest_event_counts(events, now);
    let newest = latest_by(events, in_time(events), now);
    assert(newest is Some) by {
        if newest is None {
            assert(events[b].timestamp > now);
        }
    }
    assert(anchor(events, date, known, now) is Some);
    let from = anchor(events, date, known, now)->0 as int;
    let more = estimates_after(events, fallback, step, now, horizon, from);
    assert(list == known + more);
    estimates_keep_the_rhythm(events, fallback, step, now, horizon, from);
    assert forall|k: int| #[trigger] ahead(k) implies k < m by {
        if k >= m {
            assert(list[k] == more[k - m]);
        }
    }
    assert forall|k: int| 0 <= k < m implies ahead(k) && #[trigger] list[k] == known[k] by {
        known_is_never_estimated(events, date, with_calendar, fallback, now, horizon, k);
    }
    if m > 0 {
        assert(ahead(m - 1));
        let k = choose|k: int| #[trigger] ahead(k) && list[k].timestamp == start;
        if k < m - 1 {
            projection_runs_forward(events, date, fallback, true, now, horizon, k, m - 1);
        }
        assert(list[m - 1].timestamp == start);
        assert(from == start);
    } else {
        assert(!(exists|k: int| #[trigger] ahead(k)));
        if date is None {
            assert(from == events[newest->0 as int].timestamp);
            let i = choose|i: int|
                0 <= i < events.len() && (#[trigger] events[i]).timestamp == start && start <= now;
            assert(events[i].timestamp <= from);
        }
    }
    no_date_of_the_rhythm_is_left_out(events, fallback, step, now, horizon, from, n);
    let k = choose|k: int| 0 <= k < more.len() && (#[trigger] more[k]).timestamp == from + n * step;
    assert(list[m + k] == more[k]);
}

proof fn known_is_never_estimated(
    events: Seq<DividendEvent>,
    date: Option<i64>,
    with_calendar: bool,
    fallback: Option<usize>,
    now: int,
    horizon: int,
    k: int,
)
    requires
        0 <= k < known_ahead(events, date, with_calendar, fallback, now, horizon).len(),
    ensures
        !known_ahead(events, date, with_calendar, fallback, now, horizon)[k].estimated,
{
}

/// Everything that is shown as lying ahead lies after now and within three hundred and
/// sixty-six days of it.
pub proof fn upcoming_lies_within_a_year(
    events: Seq<DividendEvent>,
    splits: Seq<UpcomingSplit>,
    ex: Option<i64>,
    payment: Option<i64>,
    now: int,
    k: int,
)
    requires
        events.len() < usize::MAX,
        splits.len() <= usize::MAX,
        i64::MIN <= now,
        now + 366 * 86_400 <= i64::MAX,
        projected(
            events,
            ex,
            usual_event(events, now, first_in_time(events)),
            true,
            now,
            now + 366 * 86_400,
        ).len() <= usize::MAX,
        0 <= k < upcoming(events, splits, ex, payment, now).len(),
    ensures
        now < upcoming(events, splits, ex, payment, now)[k].timestamp <= now + 366 * 86_400,
{
    let horizon = now + HORIZON_SECONDS;
    let usual = usual_event(events, now, first_in_time(events));
    let dividends = projected(events, ex, usual, true, now, horizon);
    let one = ex_actions(dividends);
    let two = exact_payment(payment, usual, now, horizon);
    let three = lagged_payments(dividends, ex, payment, now, horizon);
    let four = split_actions(splits, now, horizon);
    let list = upcoming(events, splits, ex, payment, now);
    if k < one.len() {
        assert(list[k] == one[k]);
        known_dates_are_announced(events, ex, usual, true, now, horizon, k);
    } else if k < one.len() + two.len() {
        assert(list[k] == two[k - one.len()]);
    } else if k < one.len() + two.len() + three.len() {
        let q = k - one.len() - two.len();
        assert(list[k] == three[q]);
        let lag = payment_lag(ex, payment)->0;
        let keep = pays(dividends, lag, payment, now, horizon);
        order::selection_lists_kept_positions(dividends.len() as int, keep);
        let chosen = order::selection(dividends.len() as int, keep);
        assert(chosen.contains(chosen[q]));
        assert(keep(chosen[q] as int));
    } else {
        let q = k - one.len() - two.len() - three.len();
        assert(list[k] == four[q]);
        let keep = split_ahead(splits, now, horizon);
        order::selection_lists_kept_positions(splits.len() as int, keep);
        let chosen = order::selection(splits.len() as int, keep);
        assert(chosen.contains(chosen[q]));
        assert(keep(chosen[q] as int));
    }
}

/// Every split ahead is shown, as a reverse one where its ratio is below one. Every
/// distribution that is known or estimated is shown with its ex-dividend date, and the
/// payment date of the calendar where it lies ahead.
pub proof fn nothing_upcoming_is_left_out(
    events: Seq<DividendEvent>,
    splits: Seq<UpcomingSplit>,
    ex: Option<i64>,
    payment: Option<i64>,
    now: int,
)
    requires
        events.len() < usize::MAX,
        splits.len() <= usize::MAX,
        i64::MIN <= now,
        now + 366 * 86_400 <= i64::MAX,
    ensures
        ({
            let list = upcoming(events, splits, ex, payment, now);
            let horizon = now + 366 * 86_400;
            let usual = usual_event(events, now, first_in_time(events));
            let dividends = projected(events, ex, usual, true, now, horizon);
            &&& forall|j: int|
                0 <= j < splits.len() && now < (#[trigger] splits[j]).timestamp <= horizon
                    ==> list.contains(
                    (UpcomingAction {
                        timestamp: splits[j].timestamp,
                        kind: if splits[j].reverse {
                            UpcomingKind::ReverseSplit(j as usize)
                        } else {
                            UpcomingKind::Split(j as usize)
                        },
                        amount: None,
                    }),
                )
            &&& forall|d: int|
                0 <= d < dividends.len() ==> list.contains(
                    (UpcomingAction {
                        timestamp: (#[trigger] dividends[d]).timestamp,
                        kind: if dividends[d].estimated {
                            UpcomingKind::EstimatedExDividend
                        } else {
                            UpcomingKind::ExDividend
                        },
                        amount: dividends[d].amount,
                    }),
                )
            &&& payment is Some && now < payment->0 <= horizon ==> list.contains(
                (UpcomingAction {
                    timestamp: payment->0,
                    kind: UpcomingKind::Payment,
                    amount: usual,
                }),
            )
        }),
{
    let horizon = now + HORIZON_SECONDS;
    let usual = usual_event(events, now, first_in_time(events));
    let dividends = projected(events, ex, usual, true, now, horizon);
    let one = ex_actions(dividends);
    let two = exact_payment(payment, usual, now, horizon);
    let three = lagged_payments(dividends, ex, payment, now, horizon);
    let four = split_actions(splits, now, horizon);
    let list = upcoming(events, splits, ex, payment, now);
    assert forall|j: int|
        0 <= j < splits.len() && now < (#[trigger] splits[j]).timestamp
            <= horizon implies list.contains(
        (UpcomingAction {
            timestamp: splits[j].timestamp,
            kind: if splits[j].reverse {
                UpcomingKind::ReverseSplit(j as usize)
            } else {
                UpcomingKind::Split(j as usize)
            },
            amount: None,
        }),
    ) by {
        let keep = split_ahead(splits, now, horizon);
        order::selection_lists_kept_positions(splits.len() as int, keep);
        let chosen = order::selection(splits.len() as int, keep);
        assert(keep(j));
        assert(chosen.contains(j as usize));
        let q = choose|q: int| 0 <= q < chosen.len() && chosen[q] == j as usize;
        assert(list[one.len() + two.len() + three.len() + q] == four[q]);
    }
    assert forall|d: int| 0 <= d < dividends.len() implies list.contains(
        (UpcomingAction {
            timestamp: (#[trigger] dividends[d]).timestamp,
            kind: if dividends[d].estimated {
                UpcomingKind::EstimatedExDividend
            } else {
                UpcomingKind::ExDividend
            },
            amount: dividends[d].amount,
        }),
    ) by {
        assert(list[d] == one[d]);
    }
    if let Some(day) = payment {
        if now < day <= horizon {
            assert(list[one.len() as int] == two[0]);
        }
    }
}

/// Payments are expected as long after the ex-dividend date as the calendar has it, where
/// that is no more than ninety days. A payment within two days of the one in the calendar is
/// that one, and counts no second time.
pub proof fn payments_follow_the_calendar(
    dividends: Seq<ProjectedDividend>,
    ex: Option<i64>,
    payment: Option<i64>,
    now: int,
    horizon: int,
    at: int,
)
    requires
        dividends.len() <= usize::MAX,
        i64::MIN <= now,
        horizon <= i64::MAX,
    ensures
        (exists|k: int|
            0 <= k < lagged_payments(dividends, ex, payment, now, horizon).len() && (
            #[trigger] lagged_payments(dividends, ex, payment, now, horizon)[k]).timestamp == at)
            <==> {
            &&& ex is Some && payment is Some
            &&& 0 <= payment->0 - ex->0 <= 90 * 86_400
            &&& now < at <= horizon
            &&& (at < payment->0 - 2 * 86_400 || at > payment->0 + 2 * 86_400)
            &&& exists|d: int|
                0 <= d < dividends.len() && (#[trigger] dividends[d]).timestamp + (payment->0
                    - ex->0) == at
        },
{
    let list = lagged_payments(dividends, ex, payment, now, horizon);
    if let Some(lag) = payment_lag(ex, payment) {
        let keep = pays(dividends, lag, payment, now, horizon);
        order::selection_lists_kept_positions(dividends.len() as int, keep);
        let chosen = order::selection(dividends.len() as int, keep);
        assert forall|k: int| 0 <= k < chosen.len() implies #[trigger] chosen[k] < dividends.len()
            && keep(chosen[k] as int) by {
            assert(chosen.contains(chosen[k]));
        }
        if exists|k: int| 0 <= k < list.len() && (#[trigger] list[k]).timestamp == at {
            let k = choose|k: int| 0 <= k < list.len() && (#[trigger] list[k]).timestamp == at;
            assert(dividends[chosen[k] as int].timestamp + lag == at);
        }
        if now < at <= horizon && (at < payment->0 - 2 * 86_400 || at > payment->0 + 2 * 86_400)
            && exists|d: int|
            0 <= d < dividends.len() && (#[trigger] dividends[d]).timestamp + lag == at {
            let d = choose|d: int|
                0 <= d < dividends.len() && (#[trigger] dividends[d]).timestamp + lag == at;
            let first = first_with_time(dividends, d);
            assert(keep(first));
            assert(chosen.contains(first as usize));
            let k = choose|k: int| 0 <= k < chosen.len() && chosen[k] == first as usize;
            assert(list[k].timestamp == at);
        }
    }
}

proof fn first_with_time(dividends: Seq<ProjectedDividend>, d: int) -> (first: int)
    requires
        0 <= d < dividends.len(),
    ensures
        0 <= first <= d,
        dividends[first].timestamp == dividends[d].timestamp,
        forall|j: int|
            0 <= j < first ==> (#[trigger] dividends[j]).timestamp != dividends[first].timestamp,
    decreases d,
{
    if exists|j: int| 0 <= j < d && (#[trigger] dividends[j]).timestamp == dividends[d].timestamp {
        let j = choose|j: int|
            0 <= j < d && (#[trigger] dividends[j]).timestamp == dividends[d].timestamp;
        first_with_time(dividends, j)
    } else {
        d
    }
}

/// One position stands for each security: no two that are listed are of the same one, and
/// every security that is held has one.
pub proof fn every_security_is_listed_once(positions: Seq<Position>, i: int)
    requires
        positions.len() <= usize::MAX,
        0 <= i < positions.len(),
    ensures
        ({
            let list = order::selection(positions.len() as int, first_of_security(positions));
            &&& exists|k: int|
                0 <= k < list.len() && text::alike(
                    positions[#[trigger] list[k] as int].provider_symbol@,
                    positions[i].provider_symbol@,
                )
            &&& forall|a: int, b: int|
                0 <= a < b < list.len() ==> !text::alike(
                    positions[#[trigger] list[a] as int].provider_symbol@,
                    positions[#[trigger] list[b] as int].provider_symbol@,
                )
        }),
{
    let keep = first_of_security(positions);
    order::selection_lists_kept_positions(positions.len() as int, keep);
    let list = order::selection(positions.len() as int, keep);
    let same = |j: int| text::alike(positions[j].provider_symbol@, positions[i].provider_symbol@);
    let first = crate::holdings::first_place(same, i);
    assert forall|j: int| 0 <= j < first implies !text::alike(
        (#[trigger] positions[j]).provider_symbol@,
        positions[first].provider_symbol@,
    ) by {
        assert(!same(j));
    }
    assert(keep(first));
    assert(list.contains(first as usize));
    let k = choose|k: int| 0 <= k < list.len() && list[k] == first as usize;
    assert(same(list[k] as int));
    assert forall|a: int, b: int| 0 <= a < b < list.len() implies !text::alike(
        positions[#[trigger] list[a] as int].provider_symbol@,
        positions[#[trigger] list[b] as int].provider_symbol@,
    ) by {
        assert(list.contains(list[b]));
        assert(keep(list[b] as int));
        assert(list[a] < list[b]);
    }
}

/// The actions are shown in the order of time, and each of them once.
pub proof fn actions_are_shown_in_time(actions: Seq<UpcomingAction>)
    requires
        actions.len() <= usize::MAX,
    ensures
        ({
            let list = order::arrangement(
                actions.len() as int,
                |i: int| true,
                actions_by_time(actions),
            );
            &&& list.no_duplicates()
            &&& forall|i: usize| #[trigger] list.contains(i) <==> i < actions.len()
            &&& forall|a: int, b: int|
                0 <= a < b < list.len() ==> actions[#[trigger] list[a] as int].timestamp
                    <= actions[#[trigger] list[b] as int].timestamp
        }),
{
    order::arrangement_sorts_kept_positions(
        actions.len() as int,
        |i: int| true,
        actions_by_time(actions),
    );
}

/// The first event is one that no other comes before, and the last one that no other comes
/// after.
pub proof fn first_and_last_event_are_the_outer_ones(events: Seq<DividendEvent>, i: int)
    requires
        events.len() <= usize::MAX,
        0 <= i < events.len(),
    ensures
        first_in_time(events) matches Some(first) && first < events.len()
            && events[first as int].timestamp <= events[i].timestamp,
        last_in_time(events) matches Some(last) && last < events.len() && events[i].timestamp
            <= events[last as int].timestamp,
{
    let all = |i: int| true;
    let list = in_time(events);
    order::arrangement_sorts_kept_positions(events.len() as int, all, by_time(events));
    assert(all(i));
    assert(list.contains(i as usize));
    let k = choose|k: int| 0 <= k < list.len() && list[k] == i as usize;
    assert(list.contains(list[0]) && list.contains(list[list.len() - 1]));
    assert forall|a: int, b: int| 0 <= a < b < list.len() implies events[
    #[trigger] list[a] as int].timestamp <= events[#[trigger] list[b] as int].timestamp by {
        assert(list.contains(list[a]) && list.contains(list[b]));
    }
}

} // verus!
