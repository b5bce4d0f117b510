//! The value of the portfolio over time: at which instants it is taken, and which events
//! count at each of them.

use vstd::prelude::*;
use crate::holdings;
use crate::holdings::{BalancePlan, HoldingPlan, Scope};
use crate::ledger;
use crate::model::{CashEntry, PricePoint, SplitEvent, Transaction};
use crate::order;
use crate::order::SortKey;
use crate::rates;
use crate::rates::{Conversion, PriceSource, SecurityHistory};
use crate::text;

verus! {

/// The time of an event: the trades are counted first, then the splits.
pub open spec fn event_time(trades: Seq<Transaction>, splits: Seq<SplitEvent>, e: int) -> i64 {
    if e < trades.len() {
        trades[e].timestamp
    } else {
        splits[e - trades.len()].timestamp
    }
}

/// Something happens at the time: a trade, a split, or a movement of cash.
pub open spec fn happens_at(
    trades: Seq<Transaction>,
    cash: Seq<CashEntry>,
    splits: Seq<SplitEvent>,
    time: i64,
) -> bool {
    ||| exists|i: int| 0 <= i < trades.len() && (#[trigger] trades[i]).timestamp == time
    ||| exists|i: int| 0 <= i < cash.len() && (#[trigger] cash[i]).occurred_at == time
    ||| exists|i: int| 0 <= i < splits.len() && (#[trigger] splits[i]).timestamp == time
}

pub open spec fn quoted_at(histories: Seq<Vec<PricePoint>>, time: i64) -> bool {
    exists|h: int, k: int|
        0 <= h < histories.len() && 0 <= k < histories[h]@.len() && (
        #[trigger] histories[h]@[k]).timestamp == time
}

/// The first time at which anything happens.
pub open spec fn is_first_event(
    trades: Seq<Transaction>,
    cash: Seq<CashEntry>,
    splits: Seq<SplitEvent>,
    time: i64,
) -> bool {
    &&& happens_at(trades, cash, splits, time)
    &&& forall|other: i64| #[trigger] happens_at(trades, cash, splits, other) ==> time <= other
}

/// The instants of a chart, and how far the events have come at each of them.
pub struct ValueTimeline {
    pub first_visible: i64,
    pub last_visible: i64,
    /// The instants, ascending.
    pub instants: Vec<i64>,
    /// The trades and splits in the order in which they take effect; the trades are
    /// counted first.
    pub share_events: Vec<usize>,
    /// The movements of cash in their order.
    pub cash_events: Vec<usize>,
    /// How many of the share events have happened by each instant.
    pub share_counts: Vec<usize>,
    /// How many of the movements of cash have happened by each instant.
    pub cash_counts: Vec<usize>,
    /// The holdings that the share events build up.
    pub holdings: Vec<HoldingPlan>,
    /// The balances that the movements of cash build up.
    pub balances: Vec<BalancePlan>,
}

pub open spec fn cash_keys(cash: Seq<CashEntry>) -> spec_fn(int) -> SortKey {
    |i: int|
        SortKey { first: cash[i].occurred_at as i128, second: cash[i].id as i128, third: 0 }
}

/// The first `count` of the events have happened by a time, and no other.
pub open spec fn happened(times: spec_fn(int) -> i64, len: int, count: int, time: i64) -> bool {
    &&& 0 <= count <= len
    &&& forall|k: int| 0 <= k < count ==> #[trigger] times(k) <= time
    &&& forall|k: int| count <= k < len ==> #[trigger] times(k) > time
}

/// The instants of a chart between two times: these two, and every time between them at
/// which something happens or a price is quoted.
pub open spec fn is_instant(
    trades: Seq<Transaction>,
    cash: Seq<CashEntry>,
    splits: Seq<SplitEvent>,
    histories: Seq<Vec<PricePoint>>,
    first: i64,
    last: i64,
    time: i64,
) -> bool {
    ||| time == first
    ||| time == last
    ||| first <= time <= last && (happens_at(trades, cash, splits, time) || quoted_at(
        histories,
        time,
    ))
}

pub open spec fn max_of(a: i64, b: i64) -> i64 {
    if a >= b {
        a
    } else {
        b
    }
}

pub open spec fn share_times(
    trades: Seq<Transaction>,
    splits: Seq<SplitEvent>,
    order: Seq<usize>,
) -> spec_fn(int) -> i64 {
    |k: int| event_time(trades, splits, order[k] as int)
}

pub open spec fn cash_times(cash: Seq<CashEntry>, order: Seq<usize>) -> spec_fn(int) -> i64 {
    |k: int| cash[order[k] as int].occurred_at
}

pub open spec fn timeline_matches(
    t: ValueTimeline,
    trades: Seq<Transaction>,
    cash: Seq<CashEntry>,
    splits: Seq<SplitEvent>,
    histories: Seq<Vec<PricePoint>>,
    minimum: i64,
    maximum: i64,
) -> bool {
    &&& exists|first: i64| #[trigger]
        is_first_event(trades, cash, splits, first) && t.first_visible == (if minimum <= 0 {
            first
        } else {
            max_of(minimum, first)
        })
    &&& t.last_visible == max_of(maximum, t.first_visible)
    &&& order::ascending(t.instants@)
    &&& forall|time: i64| #[trigger]
        t.instants@.contains(time) <==> is_instant(
            trades,
            cash,
            splits,
            histories,
            t.first_visible,
            t.last_visible,
            time,
        )
    &&& t.share_events@ == order::arrangement(
        (trades.len() + splits.len()) as int,
        |e: int| true,
        ledger::event_keys(trades, splits),
    )
    &&& t.cash_events@ == order::arrangement(
        cash.len() as int,
        |i: int| true,
        cash_keys(cash),
    )
    &&& t.share_counts@.len() == t.instants@.len()
    &&& t.cash_counts@.len() == t.instants@.len()
    &&& forall|k: int|
        0 <= k < t.instants@.len() ==> happened(
            share_times(trades, splits, t.share_events@),
            t.share_events@.len() as int,
            (#[trigger] t.share_counts@[k]) as int,
            t.instants@[k],
        )
    &&& forall|k: int|
        0 <= k < t.instants@.len() ==> happened(
            cash_times(cash, t.cash_events@),
            t.cash_events@.len() as int,
            (#[trigger] t.cash_counts@[k]) as int,
            t.instants@[k],
        )
    &&& holdings::are_holdings(t.holdings@, Scope::Account, trades, splits, t.share_events@)
    &&& holdings::are_balances(t.balances@, cash, t.cash_events@)
}

/// Along a chart no event is taken back: what has happened by an instant has happened by
/// every later one.
pub proof fn events_stay_happened(
    t: ValueTimeline,
    trades: Seq<Transaction>,
    cash: Seq<CashEntry>,
    splits: Seq<SplitEvent>,
    histories: Seq<Vec<PricePoint>>,
    minimum: i64,
    maximum: i64,
    a: int,
    b: int,
)
    requires
        timeline_matches(t, trades, cash, splits, histories, minimum, maximum),
        0 <= a <= b < t.instants@.len(),
    ensures
        t.share_counts@[a] <= t.share_counts@[b],
        t.cash_counts@[a] <= t.cash_counts@[b],
{
    let shares = share_times(trades, splits, t.share_events@);
    let moves = cash_times(cash, t.cash_events@);
    if t.share_counts@[a] > t.share_counts@[b] {
        assert(shares(t.share_counts@[b] as int) <= t.instants@[a]);
        assert(shares(t.share_counts@[b] as int) > t.instants@[b]);
    }
    if t.cash_counts@[a] > t.cash_counts@[b] {
        assert(moves(t.cash_counts@[b] as int) <= t.instants@[a]);
        assert(moves(t.cash_counts@[b] as int) > t.instants@[b]);
    }
}

/// A chart begins and ends where it was asked to, or with the first event where that is
/// later.
pub proof fn chart_spans_its_range(
    t: ValueTimeline,
    trades: Seq<Transaction>,
    cash: Seq<CashEntry>,
    splits: Seq<SplitEvent>,
    histories: Seq<Vec<PricePoint>>,
    minimum: i64,
    maximum: i64,
)
    requires
        timeline_matches(t, trades, cash, splits, histories, minimum, maximum),
    ensures
        t.instants@.len() > 0,
        t.instants@.first() == t.first_visible,
        t.instants@.last() == t.last_visible,
{
    let s = t.instants@;
    assert(s.contains(t.first_visible));
    assert(s.contains(t.last_visible));
    let i = choose|i: int| 0 <= i < s.len() && s[i] == t.first_visible;
    let j = choose|j: int| 0 <= j < s.len() && s[j] == t.last_visible;
    assert(s.contains(s[0]));
    assert(s.contains(s[s.len() - 1]));
}

proof fn one_count_at_a_time(times: spec_fn(int) -> i64, len: int, x: int, y: int, time: i64)
    requires
        happened(times, len, x, time),
        happened(times, len, y, time),
    ensures
        x == y,
{
    if x < y {
        assert(times(x) <= time);
    } else if y < x {
        assert(times(y) <= time);
    }
}

/// The value at a time does not depend on where the chart starts: at an instant of two
/// charts, the same events have happened to the same holdings and balances.
pub proof fn value_ignores_start(
    t: ValueTimeline,
    u: ValueTimeline,
    trades: Seq<Transaction>,
    cash: Seq<CashEntry>,
    splits: Seq<SplitEvent>,
    histories: Seq<Vec<PricePoint>>,
    minimum: i64,
    other_minimum: i64,
    maximum: i64,
    a: int,
    b: int,
)
    requires
        timeline_matches(t, trades, cash, splits, histories, minimum, maximum),
        timeline_matches(u, trades, cash, splits, histories, other_minimum, maximum),
        0 <= a < t.instants@.len(),
        0 <= b < u.instants@.len(),
        t.instants@[a] == u.instants@[b],
    ensures
        t.share_events@ == u.share_events@,
        t.cash_events@ == u.cash_events@,
        t.share_counts@[a] == u.share_counts@[b],
        t.cash_counts@[a] == u.cash_counts@[b],
        holdings::same_holdings(t.holdings@, u.holdings@),
        holdings::same_balances(t.balances@, u.balances@),
{
    let time = t.instants@[a];
    let shares = share_times(trades, splits, t.share_events@);
    let moves = cash_times(cash, t.cash_events@);
    assert(t.share_events@ == u.share_events@ && t.cash_events@ == u.cash_events@);
    one_count_at_a_time(
        shares,
        t.share_events@.len() as int,
        t.share_counts@[a] as int,
        u.share_counts@[b] as int,
        time,
    );
    one_count_at_a_time(
        moves,
        t.cash_events@.len() as int,
        t.cash_counts@[a] as int,
        u.cash_counts@[b] as int,
        time,
    );
    holdings::holdings_are_unique(
        t.holdings@,
        u.holdings@,
        Scope::Account,
        trades,
        splits,
        t.share_events@,
    );
    holdings::balances_are_unique(t.balances@, u.balances@, cash, t.cash_events@);
}

/// A chart that starts later leaves out no instant behind its start.
pub proof fn later_start_keeps_instants(
    t: ValueTimeline,
    u: ValueTimeline,
    trades: Seq<Transaction>,
    cash: Seq<CashEntry>,
    splits: Seq<SplitEvent>,
    histories: Seq<Vec<PricePoint>>,
    minimum: i64,
    later_minimum: i64,
    maximum: i64,
    time: i64,
)
    requires
        timeline_matches(t, trades, cash, splits, histories, minimum, maximum),
        timeline_matches(u, trades, cash, splits, histories, later_minimum, maximum),
        minimum <= later_minimum,
        t.instants@.contains(time),
        u.first_visible < time,
    ensures
        u.instants@.contains(time),
{
    let first = choose|first: i64| #[trigger]
        is_first_event(trades, cash, splits, first) && t.first_visible == (if minimum <= 0 {
            first
        } else {
            max_of(minimum, first)
        });
    let other = choose|other: i64| #[trigger]
        is_first_event(trades, cash, splits, other) && u.first_visible == (if later_minimum <= 0 {
            other
        } else {
            max_of(later_minimum, other)
        });
    assert(first == other);
    assert(is_instant(
        trades,
        cash,
        splits,
        histories,
        u.first_visible,
        u.last_visible,
        time,
    ));
}

#[verifier::loop_isolation(false)]
fn collect_times(
    transactions: &[Transaction],
    cash_entries: &[CashEntry],
    splits: &[SplitEvent],
) -> (r: Vec<i64>)
    ensures
        forall|time: i64| #[trigger]
            r@.contains(time) <==> happens_at(transactions@, cash_entries@, splits@, time),
        r@.len() == 0 ==> transactions@.len() == 0 && cash_entries@.len() == 0,
{
    let mut r: Vec<i64> = Vec::new();
    let mut i: usize = 0;
    while i < transactions.len()
        invariant
            i <= transactions@.len(),
            r@.len() == i,
            forall|k: int| 0 <= k < i ==> #[trigger] r@[k] == transactions@[k].timestamp,
        decreases transactions@.len() - i,
    {
        r.push(transactions[i].timestamp);
        i += 1;
    }
    let ghost n = transactions@.len() as int;
    let mut j: usize = 0;
    while j < cash_entries.len()
        invariant
            j <= cash_entries@.len(),
            r@.len() == n + j,
            forall|k: int| 0 <= k < n ==> #[trigger] r@[k] == transactions@[k].timestamp,
            forall|k: int| n <= k < n + j ==> #[trigger] r@[k] == cash_entries@[k - n].occurred_at,
        decreases cash_entries@.len() - j,
    {
        r.push(cash_entries[j].occurred_at);
        j += 1;
    }
    let ghost m = n + cash_entries@.len();
    let mut l: usize = 0;
    while l < splits.len()
        invariant
            l <= splits@.len(),
            r@.len() == m + l,
            forall|k: int| 0 <= k < n ==> #[trigger] r@[k] == transactions@[k].timestamp,
            forall|k: int| n <= k < m ==> #[trigger] r@[k] == cash_entries@[k - n].occurred_at,
            forall|k: int| m <= k < m + l ==> #[trigger] r@[k] == splits@[k - m].timestamp,
        decreases splits@.len() - l,
    {
        r.push(splits[l].timestamp);
        l += 1;
    }
    proof {
        assert forall|time: i64| #[trigger]
            r@.contains(time) <==> happens_at(transactions@, cash_entries@, splits@, time) by {
            if r@.contains(time) {
                let k = choose|k: int| 0 <= k < r@.len() && r@[k] == time;
                if k < n {
                    assert(transactions@[k].timestamp == time);
                } else if k < m {
                    assert(cash_entries@[k - n].occurred_at == time);
                } else {
                    assert(splits@[k - m].timestamp == time);
                }
            }
            if happens_at(transactions@, cash_entries@, splits@, time) {
                if exists|i: int|
                    0 <= i < transactions@.len() && (#[trigger] transactions@[i]).timestamp
                        == time {
                    let i = choose|i: int|
                        0 <= i < transactions@.len() && (#[trigger] transactions@[i]).timestamp
                            == time;
                    assert(r@[i] == time);
                } else if exists|i: int|
                    0 <= i < cash_entries@.len() && (#[trigger] cash_entries@[i]).occurred_at
                        == time {
                    let i = choose|i: int|
                        0 <= i < cash_entries@.len() && (#[trigger] cash_entries@[i]).occurred_at
                            == time;
                    assert(r@[n + i] == time);
                } else {
                    let i = choose|i: int|
                        0 <= i < splits@.len() && (#[trigger] splits@[i]).timestamp == time;
                    assert(r@[m + i] == time);
                }
            }
        }
    }
    r
}

/// All times of the histories.
#[verifier::loop_isolation(false)]
fn quote_times(histories: &Vec<Vec<PricePoint>>) -> (r: Vec<i64>)
    ensures
        forall|time: i64| #[trigger] r@.contains(time) <==> quoted_at(histories@, time),
{
    let mut r: Vec<i64> = Vec::new();
    let mut h: usize = 0;
    while h < histories.len()
        invariant
            h <= histories@.len(),
            forall|a: int| 0 <= a < r@.len() ==> quoted_at(histories@, #[trigger] r@[a]),
            forall|g: int, k: int|
                0 <= g < h && 0 <= k < histories@[g]@.len() ==> r@.contains(
                    (#[trigger] histories@[g]@[k]).timestamp,
                ),
        decreases histories@.len() - h,
    {
        let points = &histories[h];
        let mut i: usize = 0;
        while i < points.len()
            invariant
                i <= points@.len(),
                forall|a: int| 0 <= a < r@.len() ==> quoted_at(histories@, #[trigger] r@[a]),
                forall|g: int, k: int|
                    0 <= g < h && 0 <= k < histories@[g]@.len() ==> r@.contains(
                        (#[trigger] histories@[g]@[k]).timestamp,
                    ),
                forall|k: int| 0 <= k < i ==> r@.contains((#[trigger] points@[k]).timestamp),
            decreases points@.len() - i,
        {
            let ghost before = r@;
            assert(histories@[h as int]@[i as int].timestamp == points@[i as int].timestamp);
            r.push(points[i].timestamp);
            proof {
                assert(r@[before.len() as int] == points@[i as int].timestamp);
                assert forall|v: i64| before.contains(v) implies r@.contains(v) by {
                    let q = choose|q: int| 0 <= q < before.len() && before[q] == v;
                    assert(r@[q] == v);
                }
            }
            i += 1;
        }
        h += 1;
    }
    proof {
        assert forall|time: i64| #[trigger] r@.contains(time) <==> quoted_at(histories@, time) by {
            if r@.contains(time) {
                let a = choose|a: int| 0 <= a < r@.len() && r@[a] == time;
                assert(quoted_at(histories@, r@[a]));
            }
        }
    }
    r
}

/// How many of the first events have happened by each of the instants.
#[verifier::loop_isolation(false)]
fn counts_by(times: &Vec<i64>, instants: &Vec<i64>) -> (r: Vec<usize>)
    requires
        forall|a: int, b: int| 0 <= a < b < times@.len() ==> times@[a] <= times@[b],
    ensures
        r@.len() == instants@.len(),
        forall|k: int|
            0 <= k < instants@.len() ==> happened(
                |q: int| times@[q],
                times@.len() as int,
                (#[trigger] r@[k]) as int,
                instants@[k],
            ),
{
    let mut r: Vec<usize> = Vec::new();
    let mut k: usize = 0;
    while k < instants.len()
        invariant
            k <= instants@.len(),
            r@.len() == k,
            forall|q: int|
                0 <= q < k ==> happened(
                    |q: int| times@[q],
                    times@.len() as int,
                    (#[trigger] r@[q]) as int,
                    instants@[q],
                ),
        decreases instants@.len() - k,
    {
        let time: i64 = instants[k];
        let mut n: usize = 0;
        while n < times.len() && times[n] <= time
            invariant
                n <= times@.len(),
                forall|q: int| 0 <= q < n ==> times@[q] <= time,
            decreases times@.len() - n,
        {
            n += 1;
        }
        assert forall|q: int| n <= q < times@.len() implies times@[q] > time by {
            if q > n {
                assert(times@[n as int] <= times@[q]);
            }
        }
        assert(happened(|q: int| times@[q], times@.len() as int, n as int, time));
        r.push(n);
        k += 1;
    }
    r
}

proof fn counts_carry_over(
    times: Seq<i64>,
    other: spec_fn(int) -> i64,
    count: int,
    time: i64,
)
    requires
        happened(|q: int| times[q], times.len() as int, count, time),
        forall|q: int| 0 <= q < times.len() ==> #[trigger] times[q] == other(q),
    ensures
        happened(other, times.len() as int, count, time),
{
    let own = |q: int| times[q];
    assert forall|k: int| 0 <= k < count implies #[trigger] other(k) <= time by {
        assert(own(k) == times[k]);
    }
    assert forall|k: int| count <= k < times.len() implies #[trigger] other(k) > time by {
        assert(own(k) == times[k]);
    }
}

/// The parts of a timeline fit together, and its movements are among as many as given.
pub open spec fn timeline_fits(t: ValueTimeline, cash: int) -> bool {
    &&& t.share_counts@.len() == t.instants@.len()
    &&& t.cash_counts@.len() == t.instants@.len()
    &&& holdings::plans_fit(t.holdings@, t.share_events@.len() as int)
    &&& holdings::balances_fit(t.balances@, t.cash_events@.len() as int)
    &&& forall|k: int| 0 <= k < t.cash_events@.len() ==> #[trigger] t.cash_events@[k] < cash
}

/// What the value of a holding is made of: its history, the price, and the conversion.
#[derive(Clone, Copy, PartialEq, Eq, Structural)]
pub struct HoldingValue {
    pub history: usize,
    pub price: PriceSource,
    pub conversion: Conversion,
}

/// What a holding is valued by at an instant. It has its names from the last of its trades
/// by then; without a history, a price or a conversion it has no value.
pub open spec fn holding_value(
    t: ValueTimeline,
    trades: Seq<Transaction>,
    order: Seq<usize>,
    histories: Seq<SecurityHistory>,
    fx: Option<Seq<PricePoint>>,
    base: Seq<char>,
    instant: int,
    slot: int,
) -> Option<HoldingValue> {
    let time = t.instants@[instant] as int;
    match holdings::last_trade(
        trades.len() as int,
        t.share_events@,
        t.holdings@[slot].places@,
        t.share_counts@[instant] as int,
    ) {
        None => None,
        Some(named) => {
            let symbol = text::uppercase(trades[named as int].provider_symbol@);
            match rates::history_place(histories, symbol) {
                None => None,
                Some(history) => match rates::valuation(
                    Some(histories[history as int].points@),
                    trades,
                    order,
                    symbol,
                    time,
                    rates::exact_conversion_at(
                        trades[named as int].currency@,
                        base,
                        rates::rate_at(fx, time, None),
                    ),
                ) {
                    None => None,
                    Some((price, conversion)) => Some(HoldingValue { history, price, conversion }),
                },
            }
        },
    }
}

/// A balance has begun by an instant.
pub open spec fn begun_by(t: ValueTimeline, instant: int) -> spec_fn(int) -> bool {
    |slot: int| t.balances@[slot].opening < t.cash_counts@[instant]
}

/// How a balance is converted at an instant.
pub open spec fn balance_conversion(
    t: ValueTimeline,
    cash: Seq<CashEntry>,
    fx: Option<Seq<PricePoint>>,
    base: Seq<char>,
    instant: int,
    slot: int,
) -> Option<Conversion> {
    rates::exact_conversion_at(
        text::uppercase(cash[t.cash_events@[t.balances@[slot].opening as int] as int].currency@),
        base,
        rates::rate_at(fx, t.instants@[instant] as int, None),
    )
}

/// The value at an instant is known: every holding of any shares has a value, and every
/// balance that has begun a conversion. `held` says which holdings are of any shares.
pub open spec fn instant_is_known(
    t: ValueTimeline,
    trades: Seq<Transaction>,
    order: Seq<usize>,
    cash: Seq<CashEntry>,
    histories: Seq<SecurityHistory>,
    fx: Option<Seq<PricePoint>>,
    base: Seq<char>,
    instant: int,
    held: Seq<bool>,
) -> bool {
    &&& forall|slot: int|
        0 <= slot < t.holdings@.len() && held[slot] ==> (#[trigger] holding_value(
            t,
            trades,
            order,
            histories,
            fx,
            base,
            instant,
            slot,
        )) is Some
    &&& forall|slot: int|
        0 <= slot < t.balances@.len() && begun_by(t, instant)(slot) ==> (
        #[trigger] balance_conversion(t, cash, fx, base, instant, slot)) is Some
}

/// There is never a partial total: one holding of any shares without a history, or one
/// balance that cannot be converted, leaves the value at an instant unknown, whatever is
/// known of the rest.
pub proof fn no_partial_totals(
    t: ValueTimeline,
    trades: Seq<Transaction>,
    order: Seq<usize>,
    cash: Seq<CashEntry>,
    histories: Seq<SecurityHistory>,
    fx: Option<Seq<PricePoint>>,
    base: Seq<char>,
    instant: int,
    held: Seq<bool>,
)
    ensures
        forall|slot: int, named: usize|
            0 <= slot < t.holdings@.len() && held[slot] && #[trigger] holdings::last_trade(
                trades.len() as int,
                t.share_events@,
                t.holdings@[slot].places@,
                t.share_counts@[instant] as int,
            ) == Some(named) && #[trigger] rates::history_place(
                histories,
                text::uppercase(trades[named as int].provider_symbol@),
            ) is None ==> !instant_is_known(
                t,
                trades,
                order,
                cash,
                histories,
                fx,
                base,
                instant,
                held,
            ),
        forall|slot: int|
            0 <= slot < t.balances@.len() && begun_by(t, instant)(slot) && (
            #[trigger] balance_conversion(t, cash, fx, base, instant, slot)) is None
                ==> !instant_is_known(
                t,
                trades,
                order,
                cash,
                histories,
                fx,
                base,
                instant,
                held,
            ),
{
    assert forall|slot: int, named: usize|
        0 <= slot < t.holdings@.len() && held[slot] && #[trigger] holdings::last_trade(
            trades.len() as int,
            t.share_events@,
            t.holdings@[slot].places@,
            t.share_counts@[instant] as int,
        ) == Some(named) && #[trigger] rates::history_place(
            histories,
            text::uppercase(trades[named as int].provider_symbol@),
        ) is None implies !instant_is_known(
        t,
        trades,
        order,
        cash,
        histories,
        fx,
        base,
        instant,
        held,
    ) by {
        assert(holding_value(t, trades, order, histories, fx, base, instant, slot) is None);
    }
}

/// What the value at an instant is made of: an entry for each holding, with something in
/// it where the holding is of any shares, and one for each balance, with something in it
/// where the balance has begun.
pub struct InstantValue {
    pub holdings: Vec<Option<HoldingValue>>,
    pub balances: Vec<Option<Conversion>>,
}

/// Finds what the value of the portfolio at an instant is made of. The instant drops out
/// of the chart as soon as one part has no value: there is never a partial total.
#[verifier::loop_isolation(false)]
pub fn value_instant(
    timeline: &ValueTimeline,
    transactions: &[Transaction],
    order: &Vec<usize>,
    cash_entries: &[CashEntry],
    histories: &Vec<SecurityHistory>,
    fx_points: Option<&[PricePoint]>,
    base: &str,
    instant: usize,
    held: &Vec<bool>,
) -> (r: Option<InstantValue>)
    requires
        timeline_fits(*timeline, cash_entries@.len() as int),
        instant < timeline.instants@.len(),
        held@.len() == timeline.holdings@.len(),
        forall|k: int| 0 <= k < order@.len() ==> #[trigger] order@[k] < transactions@.len(),
    ensures
        r is Some <==> instant_is_known(
            *timeline,
            transactions@,
            order@,
            cash_entries@,
            histories@,
            rates::points_view(fx_points),
            base@,
            instant as int,
            held@,
        ),
        r matches Some(v) ==> v.holdings@ == Seq::new(
            held@.len(),
            |slot: int|
                if held@[slot] {
                    holding_value(
                        *timeline,
                        transactions@,
                        order@,
                        histories@,
                        rates::points_view(fx_points),
                        base@,
                        instant as int,
                        slot,
                    )
                } else {
                    None
                },
        ),
        r matches Some(v) ==> v.balances@ == Seq::new(
            timeline.balances@.len(),
            |slot: int|
                if begun_by(*timeline, instant as int)(slot) {
                    balance_conversion(
                        *timeline,
                        cash_entries@,
                        rates::points_view(fx_points),
                        base@,
                        instant as int,
                        slot,
                    )
                } else {
                    None
                },
        ),
{
    let ghost fx = rates::points_view(fx_points);
    let time: i64 = timeline.instants[instant];
    let share_count: usize = timeline.share_counts[instant];
    let cash_count: usize = timeline.cash_counts[instant];
    let mut values: Vec<Option<HoldingValue>> = Vec::new();
    let mut slot: usize = 0;
    while slot < timeline.holdings.len()
        invariant
            slot <= timeline.holdings@.len(),
            values@.len() == slot,
            forall|h: int|
                0 <= h < slot ==> #[trigger] values@[h] == if held@[h] {
                    holding_value(
                        *timeline,
                        transactions@,
                        order@,
                        histories@,
                        fx,
                        base@,
                        instant as int,
                        h,
                    )
                } else {
                    None
                },
            forall|h: int| 0 <= h < slot && held@[h] ==> (#[trigger] values@[h]) is Some,
        decreases timeline.holdings@.len() - slot,
    {
        if held[slot] {
            let plan = &timeline.holdings[slot];
            assert(holdings::plan_fits(*plan, timeline.share_events@.len() as int));
            let value = match holdings::named_by(
                transactions,
                &timeline.share_events,
                plan,
                share_count,
            ) {
                None => None,
                Some(named) => {
                    let symbol = text::to_upper(transactions[named].provider_symbol.as_str());
                    match rates::find_history(histories, symbol.as_str()) {
                        None => None,
                        Some(history) => match rates::value_holding_at(
                            Some(histories[history].points.as_slice()),
                            transactions,
                            order,
                            symbol.as_str(),
                            time,
                            transactions[named].currency.as_str(),
                            base,
                            fx_points,
                        ) {
                            None => None,
                            Some((price, conversion)) => Some(
                                HoldingValue { history, price, conversion },
                            ),
                        },
                    }
                },
            };
            assert(value == holding_value(
                *timeline,
                transactions@,
                order@,
                histories@,
                fx,
                base@,
                instant as int,
                slot as int,
            ));
            if value.is_none() {
                return None;
            }
            values.push(value);
        } else {
            values.push(None);
        }
        slot += 1;
    }
    let mut balances: Vec<Option<Conversion>> = Vec::new();
    let mut at: usize = 0;
    while at < timeline.balances.len()
        invariant
            at <= timeline.balances@.len(),
            balances@.len() == at,
            forall|b: int|
                0 <= b < at ==> #[trigger] balances@[b] == if begun_by(
                    *timeline,
                    instant as int,
                )(b) {
                    balance_conversion(
                        *timeline,
                        cash_entries@,
                        fx,
                        base@,
                        instant as int,
                        b,
                    )
                } else {
                    None
                },
            forall|b: int|
                0 <= b < at && begun_by(*timeline, instant as int)(b) ==> (
                #[trigger] balances@[b]) is Some,
        decreases timeline.balances@.len() - at,
    {
        let opening: usize = timeline.balances[at].opening;
        if opening < cash_count {
            let entry = &cash_entries[timeline.cash_events[opening]];
            let conversion = rates::history_convert_at(
                text::to_upper(entry.currency.as_str()).as_str(),
                base,
                fx_points,
                time,
            );
            assert(conversion == balance_conversion(
                *timeline,
                cash_entries@,
                fx,
                base@,
                instant as int,
                at as int,
            ));
            assert(begun_by(*timeline, instant as int)(at as int));
            if conversion.is_none() {
                return None;
            }
            balances.push(conversion);
        } else {
            balances.push(None);
        }
        at += 1;
    }
    proof {
        assert forall|h: int| 0 <= h < timeline.holdings@.len() && held@[h] implies (
        #[trigger] holding_value(
            *timeline,
            transactions@,
            order@,
            histories@,
            fx,
            base@,
            instant as int,
            h,
        )) is Some by {
            assert(values@[h] is Some);
        }
        assert forall|b: int| 0 <= b < timeline.balances@.len() && begun_by(
            *timeline,
            instant as int,
        )(b) implies (#[trigger] balance_conversion(
            *timeline,
            cash_entries@,
            fx,
            base@,
            instant as int,
            b,
        )) is Some by {
            assert(balances@[b] is Some);
        }
    }
    Some(InstantValue { holdings: values, balances })
}

/// Lays out the chart of the portfolio's value; nothing where nothing ever happened.
/// `maximum` is the end of the chart, where it has one; else it ends at `now`.
#[verifier::loop_isolation(false)]
#[verifier::rlimit(40)]
pub fn build_portfolio_value_points(
    transactions: &[Transaction],
    cash_entries: &[CashEntry],
    split_events: &[SplitEvent],
    histories: &Vec<Vec<PricePoint>>,
    minimum: i64,
    maximum: Option<i64>,
    now: i64,
) -> (r: Option<ValueTimeline>)
    requires
        transactions@.len() + split_events@.len() <= usize::MAX,
    ensures
        match r {
            None => transactions@.len() == 0 && cash_entries@.len() == 0,
            Some(t) => (transactions@.len() > 0 || cash_entries@.len() > 0) && timeline_matches(
                t,
                transactions@,
                cash_entries@,
                split_events@,
                histories@,
                minimum,
                match maximum {
                    Some(end) => end,
                    None => now,
                },
            ) && timeline_fits(t, cash_entries@.len() as int),
        },
{
    if transactions.len() == 0 && cash_entries.len() == 0 {
        return None;
    }
    let times = collect_times(transactions, cash_entries, split_events);
    let mut first: i64 = times[0];
    let mut i: usize = 1;
    while i < times.len()
        invariant
            1 <= i <= times@.len(),
            times@.contains(first),
            forall|k: int| 0 <= k < i ==> first <= #[trigger] times@[k],
        decreases times@.len() - i,
    {
        if times[i] < first {
            first = times[i];
        }
        i += 1;
    }
    assert(is_first_event(transactions@, cash_entries@, split_events@, first)) by {
        assert forall|other: i64| #[trigger]
            happens_at(transactions@, cash_entries@, split_events@, other) implies first
            <= other by {
            assert(times@.contains(other));
        }
    }
    let first_visible: i64 = if minimum <= 0 || minimum < first {
        first
    } else {
        minimum
    };
    let end: i64 = match maximum {
        Some(end) => end,
        None => now,
    };
    let last_visible: i64 = if end >= first_visible {
        end
    } else {
        first_visible
    };
    let quotes = quote_times(histories);
    let mut visible: Vec<i64> = Vec::new();
    visible.push(first_visible);
    visible.push(last_visible);
    assert(visible@[0] == first_visible && visible@[1] == last_visible);
    let mut k: usize = 0;
    while k < times.len()
        invariant
            k <= times@.len(),
            visible@.len() >= 2,
            visible@[0] == first_visible,
            visible@[1] == last_visible,
            forall|a: int|
                2 <= a < visible@.len() ==> first_visible <= #[trigger] visible@[a] <= last_visible
                    && times@.contains(visible@[a]),
            forall|q: int|
                0 <= q < k && first_visible <= #[trigger] times@[q] <= last_visible
                    ==> visible@.contains(times@[q]),
        decreases times@.len() - k,
    {
        let ghost before = visible@;
        if first_visible <= times[k] && times[k] <= last_visible {
            visible.push(times[k]);
            assert(visible@[before.len() as int] == times@[k as int]);
        }
        assert forall|v: i64| before.contains(v) implies visible@.contains(v) by {
            let q = choose|q: int| 0 <= q < before.len() && before[q] == v;
            assert(visible@[q] == v);
        }
        k += 1;
    }
    let ghost own = visible@.len();
    let mut k: usize = 0;
    while k < quotes.len()
        invariant
            k <= quotes@.len(),
            2 <= own <= visible@.len(),
            visible@[0] == first_visible,
            visible@[1] == last_visible,
            forall|a: int|
                2 <= a < own ==> first_visible <= #[trigger] visible@[a] <= last_visible
                    && times@.contains(visible@[a]),
            forall|a: int|
                own <= a < visible@.len() ==> first_visible <= #[trigger] visible@[a]
                    <= last_visible && quotes@.contains(visible@[a]),
            forall|q: int|
                0 <= q < times@.len() && first_visible <= #[trigger] times@[q] <= last_visible
                    ==> visible@.contains(times@[q]),
            forall|q: int|
                0 <= q < k && first_visible <= #[trigger] quotes@[q] <= last_visible
                    ==> visible@.contains(quotes@[q]),
        decreases quotes@.len() - k,
    {
        let ghost before = visible@;
        if first_visible <= quotes[k] && quotes[k] <= last_visible {
            visible.push(quotes[k]);
            assert(visible@[before.len() as int] == quotes@[k as int]);
        }
        assert forall|v: i64| before.contains(v) implies visible@.contains(v) by {
            let q = choose|q: int| 0 <= q < before.len() && before[q] == v;
            assert(visible@[q] == v);
        }
        k += 1;
    }
    let instants = order::ascending_distinct(&visible);
    proof {
        assert forall|time: i64| #[trigger]
            instants@.contains(time) <==> is_instant(
                transactions@,
                cash_entries@,
                split_events@,
                histories@,
                first_visible,
                last_visible,
                time,
            ) by {
            assert(instants@.contains(time) == visible@.contains(time));
            if visible@.contains(time) {
                let a = choose|a: int| 0 <= a < visible@.len() && visible@[a] == time;
                if a >= 2 && a < own {
                    assert(times@.contains(visible@[a]));
                } else if a >= own {
                    assert(quotes@.contains(visible@[a]));
                }
            }
            if first_visible <= time <= last_visible {
                if happens_at(transactions@, cash_entries@, split_events@, time) {
                    assert(times@.contains(time));
                    let q = choose|q: int| 0 <= q < times@.len() && times@[q] == time;
                    assert(visible@.contains(times@[q]));
                }
                if quoted_at(histories@, time) {
                    assert(quotes@.contains(time));
                    let q = choose|q: int| 0 <= q < quotes@.len() && quotes@[q] == time;
                    assert(visible@.contains(quotes@[q]));
                }
            }
            if time == first_visible {
                assert(visible@[0] == time);
            }
            if time == last_visible {
                assert(visible@[1] == time);
            }
        }
    }
    let share_events = all_share_events(transactions, split_events);
    let cash_events = all_cash_events(cash_entries);
    let mut event_times: Vec<i64> = Vec::new();
    let mut k: usize = 0;
    while k < share_events.len()
        invariant
            k <= share_events@.len(),
            event_times@.len() == k,
            forall|q: int|
                0 <= q < k ==> #[trigger] event_times@[q] == share_times(
                    transactions@,
                    split_events@,
                    share_events@,
                )(q),
        decreases share_events@.len() - k,
    {
        let e: usize = share_events[k];
        if e < transactions.len() {
            event_times.push(transactions[e].timestamp);
        } else {
            event_times.push(split_events[e - transactions.len()].timestamp);
        }
        k += 1;
    }
    proof {
        let keys = ledger::event_keys(transactions@, split_events@);
        assert forall|a: int, b: int| 0 <= a < b < event_times@.len() implies event_times@[a]
            <= event_times@[b] by {
            assert(order::comes_before(
                order::keyed(keys, share_events@[a]),
                order::keyed(keys, share_events@[b]),
            ));
        }
    }
    let share_counts = counts_by(&event_times, &instants);
    let mut moves: Vec<i64> = Vec::new();
    let mut k: usize = 0;
    while k < cash_events.len()
        invariant
            k <= cash_events@.len(),
            moves@.len() == k,
            forall|q: int|
                0 <= q < k ==> #[trigger] moves@[q] == cash_times(cash_entries@, cash_events@)(q),
        decreases cash_events@.len() - k,
    {
        moves.push(cash_entries[cash_events[k]].occurred_at);
        k += 1;
    }
    proof {
        let keys = cash_keys(cash_entries@);
        assert forall|a: int, b: int| 0 <= a < b < moves@.len() implies moves@[a] <= moves@[b] by {
            assert(order::comes_before(
                order::keyed(keys, cash_events@[a]),
                order::keyed(keys, cash_events@[b]),
            ));
        }
    }
    let cash_counts = counts_by(&moves, &instants);
    proof {
        assert forall|k: int| 0 <= k < instants@.len() implies happened(
            share_times(transactions@, split_events@, share_events@),
            share_events@.len() as int,
            (#[trigger] share_counts@[k]) as int,
            instants@[k],
        ) by {
            counts_carry_over(
                event_times@,
                share_times(transactions@, split_events@, share_events@),
                share_counts@[k] as int,
                instants@[k],
            );
        }
        assert forall|k: int| 0 <= k < instants@.len() implies happened(
            cash_times(cash_entries@, cash_events@),
            cash_events@.len() as int,
            (#[trigger] cash_counts@[k]) as int,
            instants@[k],
        ) by {
            counts_carry_over(
                moves@,
                cash_times(cash_entries@, cash_events@),
                cash_counts@[k] as int,
                instants@[k],
            );
        }
    }
    let holding_plans = holdings::holdings(Scope::Account, transactions, split_events, &share_events);
    let balance_plans = holdings::balances(cash_entries, &cash_events);
    Some(
        ValueTimeline {
            first_visible,
            last_visible,
            instants,
            share_events,
            cash_events,
            share_counts,
            cash_counts,
            holdings: holding_plans,
            balances: balance_plans,
        },
    )
}

#[verifier::loop_isolation(false)]
fn all_share_events(transactions: &[Transaction], splits: &[SplitEvent]) -> (r: Vec<usize>)
    ensures
        r@ == order::arrangement(
            (transactions@.len() + splits@.len()) as int,
            |e: int| true,
            ledger::event_keys(transactions@, splits@),
        ),
        order::arranged(
            r@,
            (transactions@.len() + splits@.len()) as int,
            |e: int| true,
            ledger::event_keys(transactions@, splits@),
        ),
{
    let mut keep: Vec<bool> = Vec::new();
    let keys = ledger::event_sort_keys(transactions, splits);
    let mut i: usize = 0;
    while i < keys.len()
        invariant
            i <= keys@.len(),
            keep@.len() == i,
            forall|e: int| 0 <= e < i ==> #[trigger] keep@[e],
        decreases keys@.len() - i,
    {
        keep.push(true);
        i += 1;
    }
    let r = ledger::arrange_events(transactions, splits, &keep);
    proof {
        order::is_arrangement(
            r@,
            keep@.len() as int,
            |i: int| keep@[i],
            ledger::event_keys(transactions@, splits@),
            |e: int| true,
            ledger::event_keys(transactions@, splits@),
        );
    }
    r
}

#[verifier::loop_isolation(false)]
fn all_cash_events(cash: &[CashEntry]) -> (r: Vec<usize>)
    ensures
        r@ == order::arrangement(cash@.len() as int, |i: int| true, cash_keys(cash@)),
        order::arranged(r@, cash@.len() as int, |i: int| true, cash_keys(cash@)),
{
    let mut keep: Vec<bool> = Vec::new();
    let mut keys: Vec<SortKey> = Vec::new();
    let mut i: usize = 0;
    while i < cash.len()
        invariant
            i <= cash@.len(),
            keep@.len() == i,
            keys@.len() == i,
            forall|e: int| 0 <= e < i ==> #[trigger] keep@[e],
            forall|e: int| 0 <= e < i ==> #[trigger] keys@[e] == cash_keys(cash@)(e),
        decreases cash@.len() - i,
    {
        keep.push(true);
        keys.push(
            SortKey { first: cash[i].occurred_at as i128, second: cash[i].id as i128, third: 0 },
        );
        i += 1;
    }
    let r = order::arrange(&keep, &keys);
    proof {
        order::is_arrangement(
            r@,
            keep@.len() as int,
            |i: int| keep@[i],
            |i: int| keys@[i],
            |i: int| true,
            cash_keys(cash@),
        );
    }
    r
}

/// What a chart shows and from what: it begins with the first record, or with the start of
/// the range where that is later, and ends no earlier than it begins. Its instants are these
/// two and, between them, every time of a trade, a split, a movement of cash or a closing
/// price, each once and in the order of time.
pub proof fn chart_has_an_instant_for_everything(
    t: ValueTimeline,
    trades: Seq<Transaction>,
    cash: Seq<CashEntry>,
    splits: Seq<SplitEvent>,
    histories: Seq<Vec<PricePoint>>,
    minimum: i64,
    maximum: i64,
)
    requires
        timeline_matches(t, trades, cash, splits, histories, minimum, maximum),
    ensures
        forall|i: int|
            0 <= i < trades.len() && t.first_visible <= (#[trigger] trades[i]).timestamp
                <= t.last_visible ==> t.instants@.contains(trades[i].timestamp),
        forall|i: int|
            0 <= i < cash.len() && t.first_visible <= (#[trigger] cash[i]).occurred_at
                <= t.last_visible ==> t.instants@.contains(cash[i].occurred_at),
        forall|i: int|
            0 <= i < splits.len() && t.first_visible <= (#[trigger] splits[i]).timestamp
                <= t.last_visible ==> t.instants@.contains(splits[i].timestamp),
        forall|h: int, k: int|
            0 <= h < histories.len() && 0 <= k < histories[h]@.len() && t.first_visible <= (
            #[trigger] histories[h]@[k]).timestamp <= t.last_visible ==> t.instants@.contains(
                histories[h]@[k].timestamp,
            ),
        t.instants@.contains(t.first_visible),
        t.instants@.contains(t.last_visible),
        t.first_visible <= t.last_visible,
        maximum <= t.last_visible,
        t.last_visible == maximum || t.last_visible == t.first_visible,
        minimum > 0 ==> minimum <= t.first_visible,
        forall|i: int|
            0 <= i < trades.len() && t.first_visible != minimum ==> t.first_visible <= (
            #[trigger] trades[i]).timestamp,
        forall|i: int|
            0 <= i < cash.len() && t.first_visible != minimum ==> t.first_visible <= (
            #[trigger] cash[i]).occurred_at,
        forall|a: int, b: int|
            0 <= a < b < t.instants@.len() ==> #[trigger] t.instants@[a]
                < #[trigger] t.instants@[b],
        forall|k: int|
            0 <= k < t.instants@.len() ==> t.first_visible <= #[trigger] t.instants@[k]
                <= t.last_visible,
{
    let first = choose|first: i64| #[trigger]
        is_first_event(trades, cash, splits, first) && t.first_visible == (if minimum <= 0 {
            first
        } else {
            max_of(minimum, first)
        });
    assert forall|i: int| 0 <= i < trades.len() implies first <= (#[trigger] trades[i]).timestamp
        && happens_at(trades, cash, splits, trades[i].timestamp) by {
        assert(happens_at(trades, cash, splits, trades[i].timestamp));
    }
    assert forall|i: int| 0 <= i < cash.len() implies first <= (#[trigger] cash[i]).occurred_at
        && happens_at(trades, cash, splits, cash[i].occurred_at) by {
        assert(happens_at(trades, cash, splits, cash[i].occurred_at));
    }
    assert forall|i: int| 0 <= i < splits.len() implies happens_at(
        trades,
        cash,
        splits,
        (#[trigger] splits[i]).timestamp,
    ) by {
    }
    assert forall|h: int, k: int|
        0 <= h < histories.len() && 0 <= k < histories[h]@.len() implies quoted_at(
        histories,
        (#[trigger] histories[h]@[k]).timestamp,
    ) by {
    }
    assert forall|k: int| 0 <= k < t.instants@.len() implies t.first_visible
        <= #[trigger] t.instants@[k] <= t.last_visible by {
        assert(t.instants@.contains(t.instants@[k]));
    }
}

/// At every instant of a chart the trades and splits up to it have taken effect and no others,
/// and so it is with the movements of cash, which come by their times and then by the order of
/// entry.
pub proof fn chart_replays_up_to_each_instant(
    t: ValueTimeline,
    trades: Seq<Transaction>,
    cash: Seq<CashEntry>,
    splits: Seq<SplitEvent>,
    histories: Seq<Vec<PricePoint>>,
    minimum: i64,
    maximum: i64,
    k: int,
)
    requires
        timeline_matches(t, trades, cash, splits, histories, minimum, maximum),
        trades.len() + splits.len() <= usize::MAX,
        cash.len() <= usize::MAX,
        0 <= k < t.instants@.len(),
    ensures
        forall|i: int|
            0 <= i < trades.len() ==> ((#[trigger] trades[i]).timestamp <= t.instants@[k] <==> exists|
                p: int,
            |
                0 <= p < t.share_counts@[k] && #[trigger] t.share_events@[p] == i),
        forall|j: int|
            0 <= j < splits.len() ==> ((#[trigger] splits[j]).timestamp <= t.instants@[k] <==> exists|
                p: int,
            |
                0 <= p < t.share_counts@[k] && #[trigger] t.share_events@[p] == trades.len() + j),
        forall|i: int|
            0 <= i < cash.len() ==> ((#[trigger] cash[i]).occurred_at <= t.instants@[k] <==> exists|
                p: int,
            |
                0 <= p < t.cash_counts@[k] && #[trigger] t.cash_events@[p] == i),
        forall|a: int, b: int|
            0 <= a < b < t.cash_events@.len() ==> {
                let x = cash[#[trigger] t.cash_events@[a] as int];
                let y = cash[#[trigger] t.cash_events@[b] as int];
                x.occurred_at < y.occurred_at || (x.occurred_at == y.occurred_at && x.id <= y.id)
            },
{
    let len = (trades.len() + splits.len()) as int;
    let keys = ledger::event_keys(trades, splits);
    order::arrangement_sorts_kept_positions(len, |e: int| true, keys);
    order::arrangement_sorts_kept_positions(cash.len() as int, |i: int| true, cash_keys(cash));
    let events = t.share_events@;
    let moves = t.cash_events@;
    let n = t.share_counts@[k] as int;
    let m = t.cash_counts@[k] as int;
    let times = share_times(trades, splits, events);
    let moved = cash_times(cash, moves);
    assert(happened(times, events.len() as int, n, t.instants@[k]));
    assert(happened(moved, moves.len() as int, m, t.instants@[k]));
    assert forall|e: int| 0 <= e < len implies (#[trigger] event_time(trades, splits, e)
        <= t.instants@[k] <==> exists|p: int| 0 <= p < n && #[trigger] events[p] == e) by {
        assert(events.contains(e as usize));
        let q = choose|q: int| 0 <= q < events.len() && events[q] == e as usize;
        assert(times(q) == event_time(trades, splits, e));
        if exists|p: int| 0 <= p < n && #[trigger] events[p] == e {
            let p = choose|p: int| 0 <= p < n && #[trigger] events[p] == e;
            assert(times(p) <= t.instants@[k]);
        }
        if event_time(trades, splits, e) <= t.instants@[k] {
            assert(q < n);
            assert(events[q] == e);
        }
    }
    assert forall|i: int| 0 <= i < trades.len() implies ((#[trigger] trades[i]).timestamp
        <= t.instants@[k] <==> exists|p: int|
        0 <= p < t.share_counts@[k] && #[trigger] t.share_events@[p] == i) by {
        assert(event_time(trades, splits, i) == trades[i].timestamp);
    }
    assert forall|j: int| 0 <= j < splits.len() implies ((#[trigger] splits[j]).timestamp
        <= t.instants@[k] <==> exists|p: int|
        0 <= p < t.share_counts@[k] && #[trigger] t.share_events@[p] == trades.len() + j) by {
        assert(event_time(trades, splits, trades.len() + j) == splits[j].timestamp);
    }
    assert forall|i: int| 0 <= i < cash.len() implies ((#[trigger] cash[i]).occurred_at
        <= t.instants@[k] <==> exists|p: int|
        0 <= p < t.cash_counts@[k] && #[trigger] t.cash_events@[p] == i) by {
        assert(moves.contains(i as usize));
        let q = choose|q: int| 0 <= q < moves.len() && moves[q] == i as usize;
        assert(moved(q) == cash[i].occurred_at);
        if exists|p: int| 0 <= p < m && #[trigger] moves[p] == i {
            let p = choose|p: int| 0 <= p < m && #[trigger] moves[p] == i;
            assert(moved(p) <= t.instants@[k]);
        }
        if cash[i].occurred_at <= t.instants@[k] {
            assert(q < m);
            assert(moves[q] == i);
        }
    }
}

/// A holding has its value at an instant under the symbol and in the currency of its last
/// trade by then: the last closing price by the instant counts, else the last trade of the
/// security with a price, converted by the rate of the instant.
pub proof fn holdings_are_valued_at_the_instant(
    t: ValueTimeline,
    trades: Seq<Transaction>,
    order: Seq<usize>,
    histories: Seq<SecurityHistory>,
    fx: Option<Seq<PricePoint>>,
    base: Seq<char>,
    instant: int,
    slot: int,
    named: usize,
    h: int,
)
    requires
        histories.len() <= usize::MAX,
        0 <= h < histories.len(),
        histories[h].points@.len() <= usize::MAX,
        forall|k: int| 0 <= k < h ==> (#[trigger] histories[k]).symbol@ != histories[h].symbol@,
        histories[h].symbol@ == text::uppercase(trades[named as int].provider_symbol@),
        holdings::last_trade(
            trades.len() as int,
            t.share_events@,
            t.holdings@[slot].places@,
            t.share_counts@[instant] as int,
        ) == Some(named),
    ensures
        ({
            let time = t.instants@[instant] as int;
            let conversion = rates::exact_conversion_at(
                trades[named as int].currency@,
                base,
                rates::rate_at(fx, time, None),
            );
            let value = holding_value(t, trades, order, histories, fx, base, instant, slot);
            &&& value matches Some(v) ==> v.history == h && conversion == Some(v.conversion)
            &&& conversion is None ==> value is None
            &&& conversion is Some && (exists|i: int|
                0 <= i < histories[h].points@.len() && (#[trigger] histories[h].points@[i]).timestamp
                    <= time) ==> (value matches Some(v) && v.price matches PriceSource::Close(k)
                && histories[h].points@[k as int].timestamp <= time && forall|i: int|
                k < i < histories[h].points@.len() ==> (
                #[trigger] histories[h].points@[i]).timestamp > time)
            &&& conversion is Some && (forall|i: int|
                0 <= i < histories[h].points@.len() ==> (
                #[trigger] histories[h].points@[i]).timestamp > time) ==> match rates::last_priced(
                trades,
                order,
                histories[h].symbol@,
                time,
            ) {
                Some(i) => value matches Some(v) && v.price == PriceSource::Trade(i),
                None => value is None,
            }
        }),
{
    let time = t.instants@[instant] as int;
    rates::history_is_found_by_symbol(histories, histories[h].symbol@);
    rates::last_point_splits_history(histories[h].points@, time);
}

/// The chart has no other instants than the bounds of what it shows, the times of records and
/// the times of prices; and it begins where it was asked to, or else with a record.
pub proof fn chart_has_no_other_instants(
    t: ValueTimeline,
    trades: Seq<Transaction>,
    cash: Seq<CashEntry>,
    splits: Seq<SplitEvent>,
    histories: Seq<Vec<PricePoint>>,
    minimum: i64,
    maximum: i64,
    time: i64,
)
    requires
        timeline_matches(t, trades, cash, splits, histories, minimum, maximum),
        t.instants@.contains(time),
    ensures
        ({
            ||| time == t.first_visible
            ||| time == t.last_visible
            ||| exists|i: int| 0 <= i < trades.len() && (#[trigger] trades[i]).timestamp == time
            ||| exists|i: int| 0 <= i < cash.len() && (#[trigger] cash[i]).occurred_at == time
            ||| exists|i: int| 0 <= i < splits.len() && (#[trigger] splits[i]).timestamp == time
            ||| exists|h: int, k: int|
                0 <= h < histories.len() && 0 <= k < histories[h]@.len() && (
                #[trigger] histories[h]@[k]).timestamp == time
        }),
        t.first_visible != minimum || minimum <= 0 ==> {
            ||| exists|i: int|
                0 <= i < trades.len() && (#[trigger] trades[i]).timestamp == t.first_visible
            ||| exists|i: int|
                0 <= i < cash.len() && (#[trigger] cash[i]).occurred_at == t.first_visible
            ||| exists|i: int|
                0 <= i < splits.len() && (#[trigger] splits[i]).timestamp == t.first_visible
        },
{
}

/// A balance counts at an instant once its first movement has happened, and not before.
pub proof fn balance_counts_from_its_first_movement(
    t: ValueTimeline,
    trades: Seq<Transaction>,
    cash: Seq<CashEntry>,
    splits: Seq<SplitEvent>,
    histories: Seq<Vec<PricePoint>>,
    minimum: i64,
    maximum: i64,
    instant: int,
    slot: int,
)
    requires
        timeline_matches(t, trades, cash, splits, histories, minimum, maximum),
        0 <= instant < t.instants@.len(),
        0 <= slot < t.balances@.len(),
        t.balances@[slot].opening < t.cash_events@.len(),
    ensures
        begun_by(t, instant)(slot) <==> cash[t.cash_events@[t.balances@[slot].opening as int]
            as int].occurred_at <= t.instants@[instant],
{
    let times = cash_times(cash, t.cash_events@);
    let count = t.cash_counts@[instant] as int;
    assert(happened(times, t.cash_events@.len() as int, count, t.instants@[instant]));
    let k = t.balances@[slot].opening as int;
    assert(times(k) == cash[t.cash_events@[k] as int].occurred_at);
}

/// An instant has a value exactly where each holding that is held then has one and each
/// balance that has begun can be converted.
pub proof fn instant_needs_every_part(
    t: ValueTimeline,
    trades: Seq<Transaction>,
    order: Seq<usize>,
    cash: Seq<CashEntry>,
    histories: Seq<SecurityHistory>,
    fx: Option<Seq<PricePoint>>,
    base: Seq<char>,
    instant: int,
    held: Seq<bool>,
    slot: int,
)
    ensures
        0 <= slot < t.holdings@.len() && held[slot] && holding_value(
            t,
            trades,
            order,
            histories,
            fx,
            base,
            instant,
            slot,
        ) is None ==> !instant_is_known(
            t,
            trades,
            order,
            cash,
            histories,
            fx,
            base,
            instant,
            held,
        ),
        0 <= slot < t.balances@.len() && t.balances@[slot].opening < t.cash_counts@[instant]
            && balance_conversion(t, cash, fx, base, instant, slot) is None ==> !instant_is_known(
            t,
            trades,
            order,
            cash,
            histories,
            fx,
            base,
            instant,
            held,
        ),
        (forall|s: int| 0 <= s < t.holdings@.len() ==> !held[s]) && (forall|s: int|
            0 <= s < t.balances@.len() ==> (#[trigger] t.balances@[s]).opening
                >= t.cash_counts@[instant]) ==> instant_is_known(
            t,
            trades,
            order,
            cash,
            histories,
            fx,
            base,
            instant,
            held,
        ),
{
    if 0 <= slot < t.balances@.len() && t.balances@[slot].opening < t.cash_counts@[instant] {
        assert(begun_by(t, instant)(slot));
    }
}

/// Cash in the base currency needs no rate, at any instant.
pub proof fn base_cash_needs_no_rate(
    t: ValueTimeline,
    cash: Seq<CashEntry>,
    fx: Option<Seq<PricePoint>>,
    base: Seq<char>,
    instant: int,
    slot: int,
)
    requires
        text::uppercase(cash[t.cash_events@[t.balances@[slot].opening as int] as int].currency@)
            == base,
    ensures
        balance_conversion(t, cash, fx, base, instant, slot) == Some(Conversion::Same),
{
}

} // verus!
