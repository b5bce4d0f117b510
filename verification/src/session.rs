//! One trading session and longer spans of the portfolio's history: which activity lies
//! within them, and which of it brings money in from outside.

use vstd::prelude::*;
use crate::calendar;
use crate::holdings;
use crate::holdings::{BalancePlan, HoldingPlan, Scope};
use crate::ledger;
use crate::ledger::ActivityKind;
use crate::model::{CashEntry, PricePoint, SplitEvent, Transaction};
use crate::numbers;
use crate::order;
use crate::order::SortKey;
use crate::rates;
use crate::rates::{Conversion, SecurityHistory};
use crate::text;

verus! {

/// The spans of time that a chart can show.
#[derive(Clone, Copy, PartialEq, Eq, Structural)]
pub enum HistoryRange {
    OneDay,
    OneWeek,
    OneMonth,
    ThreeMonths,
    OneYear,
    FiveYears,
    All,
}

pub open spec fn change_suffix(range: HistoryRange) -> Seq<char> {
    match range {
        HistoryRange::OneDay => "today"@,
        HistoryRange::OneWeek => "this week"@,
        HistoryRange::OneMonth => "this month"@,
        HistoryRange::ThreeMonths => "over 3 months"@,
        HistoryRange::OneYear => "over 1 year"@,
        HistoryRange::FiveYears => "over 5 years"@,
        HistoryRange::All => "all time"@,
    }
}

pub fn history_range_change_suffix(range: HistoryRange) -> (r: &'static str)
    ensures
        r@ == change_suffix(range),
{
    match range {
        HistoryRange::OneDay => "today",
        HistoryRange::OneWeek => "this week",
        HistoryRange::OneMonth => "this month",
        HistoryRange::ThreeMonths => "over 3 months",
        HistoryRange::OneYear => "over 1 year",
        HistoryRange::FiveYears => "over 5 years",
        HistoryRange::All => "all time",
    }
}

pub open spec fn unavailable_label(range: HistoryRange) -> Seq<char> {
    match range {
        HistoryRange::OneDay => "Today's change unavailable"@,
        HistoryRange::OneWeek => "This week's change unavailable"@,
        HistoryRange::OneMonth => "This month's change unavailable"@,
        HistoryRange::ThreeMonths => "3-month change unavailable"@,
        HistoryRange::OneYear => "1-year change unavailable"@,
        HistoryRange::FiveYears => "5-year change unavailable"@,
        HistoryRange::All => "All-time change unavailable"@,
    }
}

pub fn history_range_unavailable_label(range: HistoryRange) -> (r: &'static str)
    ensures
        r@ == unavailable_label(range),
{
    match range {
        HistoryRange::OneDay => "Today's change unavailable",
        HistoryRange::OneWeek => "This week's change unavailable",
        HistoryRange::OneMonth => "This month's change unavailable",
        HistoryRange::ThreeMonths => "3-month change unavailable",
        HistoryRange::OneYear => "1-year change unavailable",
        HistoryRange::FiveYears => "5-year change unavailable",
        HistoryRange::All => "All-time change unavailable",
    }
}

/// The date of the day on which a session starts, as trades carry it.
pub open spec fn session_date(start: int) -> Seq<char> {
    let date = calendar::civil_parts(start / 86_400);
    calendar::date_text(date.0 as int, date.1 as int, date.2 as int)
}

fn date_of_session(start: i64) -> (r: String)
    ensures
        r@ == session_date(start as int),
{
    let (year, month, day) = calendar::civil_from_days(calendar::day_of(start));
    calendar::date_string(year, month, day)
}

/// The session lies within one day and has an end.
pub open spec fn one_day_session(start: int, end: Option<i64>) -> bool {
    match end {
        Some(end) => end > start && start / 86_400 == end as int / 86_400,
        None => false,
    }
}

/// The time at which the activity of a session's day takes effect in it.
pub open spec fn activity_time(start: int, end: int) -> int {
    if numbers::saturated(start + 1) <= end {
        numbers::saturated(start + 1)
    } else {
        end
    }
}

/// The time of a trade in the chart of a session.
pub open spec fn trade_time(t: Transaction, start: int, end: Option<i64>) -> int {
    if one_day_session(start, end) && t.trade_date@ == session_date(start) {
        activity_time(start, end->0 as int)
    } else {
        t.timestamp as int
    }
}

/// The time of a movement of cash in the chart of a session.
pub open spec fn cash_time(c: CashEntry, start: int, end: Option<i64>) -> int {
    if one_day_session(start, end) && c.occurred_at as int / 86_400 == start / 86_400 {
        activity_time(start, end->0 as int)
    } else {
        c.occurred_at as int
    }
}

/// The times of the trades and of the movements of cash in the chart of a session: what
/// was recorded for the day of the session takes effect right after its start.
#[verifier::loop_isolation(false)]
pub fn normalize_one_day_activity_to_session_start(
    transactions: &[Transaction],
    cash_entries: &[CashEntry],
    session_start: i64,
    session_end: Option<i64>,
) -> (r: (Vec<i64>, Vec<i64>))
    ensures
        r.0@.len() == transactions@.len(),
        r.1@.len() == cash_entries@.len(),
        forall|i: int|
            0 <= i < r.0@.len() ==> #[trigger] r.0@[i] == trade_time(
                transactions@[i],
                session_start as int,
                session_end,
            ),
        forall|i: int|
            0 <= i < r.1@.len() ==> #[trigger] r.1@[i] == cash_time(
                cash_entries@[i],
                session_start as int,
                session_end,
            ),
{
    let day: i64 = calendar::day_of(session_start);
    let within = match session_end {
        Some(end) => end > session_start && calendar::day_of(end) == day,
        None => false,
    };
    let moved: i64 = match session_end {
        Some(end) => {
            let next: i64 = numbers::saturating_sum(session_start, 1);
            if next <= end {
                next
            } else {
                end
            }
        },
        None => 0,
    };
    let date = date_of_session(session_start);
    let mut trades: Vec<i64> = Vec::new();
    let mut i: usize = 0;
    while i < transactions.len()
        invariant
            i <= transactions@.len(),
            trades@.len() == i,
            forall|k: int|
                0 <= k < i ==> #[trigger] trades@[k] == trade_time(
                    transactions@[k],
                    session_start as int,
                    session_end,
                ),
        decreases transactions@.len() - i,
    {
        let t = &transactions[i];
        if within && text::same_text(t.trade_date.as_str(), date.as_str()) {
            trades.push(moved);
        } else {
            trades.push(t.timestamp);
        }
        i += 1;
    }
    let mut cash: Vec<i64> = Vec::new();
    let mut j: usize = 0;
    while j < cash_entries.len()
        invariant
            j <= cash_entries@.len(),
            cash@.len() == j,
            forall|k: int|
                0 <= k < j ==> #[trigger] cash@[k] == cash_time(
                    cash_entries@[k],
                    session_start as int,
                    session_end,
                ),
        decreases cash_entries@.len() - j,
    {
        let c = &cash_entries[j];
        if within && calendar::day_of(c.occurred_at) == day {
            cash.push(moved);
        } else {
            cash.push(c.occurred_at);
        }
        j += 1;
    }
    (trades, cash)
}

/// Activity of the day of a session takes effect after its opening and not after its
/// end; any other activity keeps its time.
pub proof fn session_activity_follows_opening(t: Transaction, c: CashEntry, start: i64, end: Option<i64>)
    ensures
        one_day_session(start as int, end) && t.trade_date@ == session_date(start as int) ==> start
            < trade_time(t, start as int, end) <= end->0,
        one_day_session(start as int, end) && c.occurred_at as int / 86_400 == start as int / 86_400
            ==> start < cash_time(c, start as int, end) <= end->0,
        t.trade_date@ != session_date(start as int) ==> trade_time(t, start as int, end) == t.timestamp,
        c.occurred_at as int / 86_400 != start as int / 86_400 ==> cash_time(c, start as int, end)
            == c.occurred_at,
{
}

/// Money or shares that enter or leave the portfolio.
#[derive(Clone, Copy, PartialEq, Eq, Structural)]
pub enum ExternalFlow {
    /// The cost of the trade at this position comes from outside.
    Contribution(usize),
    /// The proceeds of the trade at this position leave.
    Withdrawal(usize),
}

/// The position of the trade of a flow.
pub open spec fn flow_place(flow: ExternalFlow) -> usize {
    match flow {
        ExternalFlow::Contribution(i) => i,
        ExternalFlow::Withdrawal(i) => i,
    }
}

/// A trade that does not settle against the cash of its account moves money across the
/// border of the portfolio; a transfer between accounts does not.
pub open spec fn crosses_border(t: Transaction) -> bool {
    !t.settle_cash && match ledger::kind_of(t.transaction_type@) {
        ActivityKind::Buy | ActivityKind::Open | ActivityKind::Sell => true,
        _ => false,
    }
}

pub open spec fn flow_of(t: Transaction, position: usize) -> ExternalFlow {
    if ledger::kind_of(t.transaction_type@) == ActivityKind::Sell {
        ExternalFlow::Withdrawal(position)
    } else {
        ExternalFlow::Contribution(position)
    }
}

pub open spec fn flows_of(trades: Seq<Transaction>, order: Seq<usize>) -> Seq<ExternalFlow> {
    Seq::new(order.len(), |k: int| flow_of(trades[order[k] as int], order[k]))
}

fn moves_across(t: &Transaction) -> (r: bool)
    ensures
        r == crosses_border(*t),
{
    if t.settle_cash {
        return false;
    }
    match ledger::activity_kind(t.transaction_type.as_str()) {
        ActivityKind::Buy | ActivityKind::Open | ActivityKind::Sell => true,
        _ => false,
    }
}

#[verifier::loop_isolation(false)]
fn list_flows(transactions: &[Transaction], order: &Vec<usize>) -> (r: Vec<ExternalFlow>)
    requires
        forall|k: int| 0 <= k < order@.len() ==> #[trigger] order@[k] < transactions@.len(),
    ensures
        r@ == flows_of(transactions@, order@),
        forall|k: int|
            0 <= k < r@.len() ==> #[trigger] flow_place(r@[k]) < transactions@.len(),
{
    let mut r: Vec<ExternalFlow> = Vec::new();
    let mut k: usize = 0;
    while k < order.len()
        invariant
            k <= order@.len(),
            r@ == flows_of(transactions@, order@).take(k as int),
        decreases order@.len() - k,
    {
        let i: usize = order[k];
        if ledger::activity_kind(transactions[i].transaction_type.as_str()) == ActivityKind::Sell {
            r.push(ExternalFlow::Withdrawal(i));
        } else {
            r.push(ExternalFlow::Contribution(i));
        }
        k += 1;
    }
    assert(r@ =~= flows_of(transactions@, order@));
    r
}

/// What the gain of one session is computed from.
pub struct OneDayPlan {
    /// The trades and splits that lead to the holdings at the opening; the trades are
    /// counted first.
    pub opening_events: Vec<usize>,
    /// The splits of the session.
    pub session_splits: Vec<usize>,
    /// The trades of the day of the session, in the order of entry.
    pub session_trades: Vec<usize>,
    /// The movements of cash before the day of the session.
    pub opening_cash: Vec<usize>,
    /// The movements of cash up to and including that day.
    pub closing_cash: Vec<usize>,
    /// The deposits and withdrawals of that day.
    pub deposits: Vec<usize>,
    /// The trades of that day that move money across the border of the portfolio.
    pub flows: Vec<ExternalFlow>,
    /// All events up to the close: those of the opening, the splits of the session, and
    /// the trades of its day. The trades are counted first.
    pub events: Vec<usize>,
    /// The securities of the portfolio over these events. The first events, as many as
    /// there are for the opening, lead to what was held at the opening, and all of them to
    /// what is held at the close.
    pub holdings: Vec<HoldingPlan>,
    /// The balances before the day of the session, over the movements before it.
    pub opening_balances: Vec<BalancePlan>,
    /// The balances at the end of that day, over the movements up to then.
    pub closing_balances: Vec<BalancePlan>,
}

/// The events before the opening: trades of earlier dates, and splits of earlier days. A
/// split of the session's own day comes after the opening, so that the holdings at the
/// opening are those before it, and the holdings at the close those after it.
pub open spec fn before_opening(
    trades: Seq<Transaction>,
    splits: Seq<SplitEvent>,
    start: int,
) -> spec_fn(int) -> bool {
    |e: int|
        if e < trades.len() {
            text::sorts_before(trades[e].trade_date@, session_date(start))
        } else {
            splits[e - trades.len()].timestamp as int / 86_400 < start / 86_400
        }
}

pub open spec fn splits_in_session(splits: Seq<SplitEvent>, start: int, end: int) -> spec_fn(int) -> bool {
    |j: int|
        splits[j].timestamp as int / 86_400 == start / 86_400 && splits[j].timestamp <= end
}

pub open spec fn trades_of_day(trades: Seq<Transaction>, start: int) -> spec_fn(int) -> bool {
    |i: int| trades[i].trade_date@ == session_date(start)
}

pub open spec fn flows_of_day(trades: Seq<Transaction>, start: int) -> spec_fn(int) -> bool {
    |i: int| trades[i].trade_date@ == session_date(start) && crosses_border(trades[i])
}

pub open spec fn by_entry(trades: Seq<Transaction>) -> spec_fn(int) -> SortKey {
    |i: int| SortKey { first: trades[i].id as i128, second: 0, third: 0 }
}

pub open spec fn cash_day(cash: Seq<CashEntry>, i: int) -> int {
    cash[i].occurred_at as int / 86_400
}

/// A trade that was recorded for the day of the session is never part of the holdings at
/// its opening, whatever its timestamp; it is one of the trades of the day.
pub proof fn day_trades_stay_out_of_opening(
    trades: Seq<Transaction>,
    splits: Seq<SplitEvent>,
    start: int,
    i: int,
)
    requires
        0 <= i < trades.len(),
        trades[i].trade_date@ == session_date(start),
    ensures
        !before_opening(trades, splits, start)(i),
        trades_of_day(trades, start)(i),
{
    text::texts_are_comparable(trades[i].trade_date@, session_date(start));
}

/// What moves within the portfolio is no flow across its border: trades that are settled
/// with its cash, and transfers between its accounts.
pub proof fn inner_moves_are_no_flow(t: Transaction)
    ensures
        t.settle_cash || t.transaction_type@ == "TRANSFER_IN"@ || t.transaction_type@
            == "TRANSFER_OUT"@ ==> !crosses_border(t),
{
    reveal_strlit("SPLIT");
    reveal_strlit("BUY");
    reveal_strlit("OPEN");
    reveal_strlit("SELL");
    reveal_strlit("TRANSFER_IN");
    reveal_strlit("TRANSFER_OUT");
    assert("TRANSFER_IN"@.len() == 11 && "TRANSFER_OUT"@.len() == 12);
    assert("SPLIT"@.len() == 5 && "BUY"@.len() == 3 && "OPEN"@.len() == 4 && "SELL"@.len() == 4);
}

/// The events of a session in their order: those of the opening, then the splits of the
/// session, then the trades of its day.
pub open spec fn session_events(
    trades: int,
    opening: Seq<usize>,
    session_splits: Seq<usize>,
    session_trades: Seq<usize>,
) -> Seq<usize> {
    opening + Seq::new(session_splits.len(), |k: int| (trades + session_splits[k]) as usize)
        + session_trades
}

pub open spec fn one_day_plan_matches(
    p: OneDayPlan,
    trades: Seq<Transaction>,
    cash: Seq<CashEntry>,
    splits: Seq<SplitEvent>,
    start: int,
    end: int,
) -> bool {
    let day = start / 86_400;
    &&& p.opening_events@ == order::arrangement(
        (trades.len() + splits.len()) as int,
        before_opening(trades, splits, start),
        ledger::event_keys(trades, splits),
    )
    &&& p.session_splits@ == order::selection(
        splits.len() as int,
        splits_in_session(splits, start, end),
    )
    &&& p.session_trades@ == order::arrangement(
        trades.len() as int,
        trades_of_day(trades, start),
        by_entry(trades),
    )
    &&& p.opening_cash@ == order::selection(
        cash.len() as int,
        |i: int| cash_day(cash, i) < day,
    )
    &&& p.closing_cash@ == order::selection(
        cash.len() as int,
        |i: int| cash_day(cash, i) <= day,
    )
    &&& p.deposits@ == order::selection(
        cash.len() as int,
        |i: int| cash_day(cash, i) == day && cash[i].kind@ == "DEPOSIT"@,
    )
    &&& p.flows@ == flows_of(
        trades,
        order::arrangement(trades.len() as int, flows_of_day(trades, start), by_entry(trades)),
    )
    &&& p.events@ == session_events(
        trades.len() as int,
        p.opening_events@,
        p.session_splits@,
        p.session_trades@,
    )
    &&& holdings::are_holdings(p.holdings@, Scope::Portfolio, trades, splits, p.events@)
    &&& holdings::are_balances(p.opening_balances@, cash, p.opening_cash@)
    &&& holdings::are_balances(p.closing_balances@, cash, p.closing_cash@)
}

#[verifier::loop_isolation(false)]
fn list_events(
    trades: usize,
    splits: usize,
    opening: &Vec<usize>,
    session_splits: &Vec<usize>,
    session_trades: &Vec<usize>,
) -> (r: Vec<usize>)
    requires
        trades + splits <= usize::MAX,
        forall|k: int| 0 <= k < opening@.len() ==> #[trigger] opening@[k] < trades + splits,
        forall|k: int| 0 <= k < session_splits@.len() ==> #[trigger] session_splits@[k] < splits,
        forall|k: int| 0 <= k < session_trades@.len() ==> #[trigger] session_trades@[k] < trades,
    ensures
        r@ == session_events(trades as int, opening@, session_splits@, session_trades@),
        forall|k: int| 0 <= k < r@.len() ==> #[trigger] r@[k] < trades + splits,
{
    let ghost whole = session_events(trades as int, opening@, session_splits@, session_trades@);
    let mut r: Vec<usize> = Vec::new();
    let mut i: usize = 0;
    while i < opening.len()
        invariant
            i <= opening@.len(),
            r@ == whole.take(i as int),
        decreases opening@.len() - i,
    {
        r.push(opening[i]);
        i += 1;
    }
    let mut j: usize = 0;
    while j < session_splits.len()
        invariant
            j <= session_splits@.len(),
            r@ == whole.take(opening@.len() + j),
        decreases session_splits@.len() - j,
    {
        r.push(trades + session_splits[j]);
        j += 1;
    }
    let mut k: usize = 0;
    while k < session_trades.len()
        invariant
            k <= session_trades@.len(),
            r@ == whole.take(opening@.len() + session_splits@.len() + k),
        decreases session_trades@.len() - k,
    {
        r.push(session_trades[k]);
        k += 1;
    }
    assert(r@ =~= whole);
    assert forall|k: int| 0 <= k < r@.len() implies #[trigger] r@[k] < trades + splits by {
        if k < opening@.len() {
            assert(r@[k] == opening@[k]);
        } else if k < opening@.len() + session_splits@.len() {
            assert(session_splits@[k - opening@.len()] < splits);
        } else {
            assert(session_trades@[k - opening@.len() - session_splits@.len()] < trades);
        }
    }
    r
}

/// A split of the day of a session counts once: it is never among the events of the
/// opening, whatever its time, so that the splits of the session are the only ones that
/// tell the close from the opening. And no split up to the close of the session is left
/// out.
pub proof fn split_counts_once(
    trades: Seq<Transaction>,
    splits: Seq<SplitEvent>,
    start: int,
    end: int,
    j: int,
)
    requires
        0 <= j < splits.len(),
    ensures
        !(before_opening(trades, splits, start)(trades.len() + j) && splits_in_session(
            splits,
            start,
            end,
        )(j)),
        splits[j].timestamp <= end && splits[j].timestamp as int / 86_400 <= start / 86_400
            ==> before_opening(trades, splits, start)(trades.len() + j) || splits_in_session(
            splits,
            start,
            end,
        )(j),
{
}

/// The parts of a plan fit together, and speak of as many trades and movements as given.
pub open spec fn one_day_plan_fits(p: OneDayPlan, trades: int, cash: int) -> bool {
    &&& holdings::plans_fit(p.holdings@, p.events@.len() as int)
    &&& holdings::balances_fit(p.opening_balances@, p.opening_cash@.len() as int)
    &&& holdings::balances_fit(p.closing_balances@, p.closing_cash@.len() as int)
    &&& forall|k: int| 0 <= k < p.opening_cash@.len() ==> #[trigger] p.opening_cash@[k] < cash
    &&& forall|k: int| 0 <= k < p.closing_cash@.len() ==> #[trigger] p.closing_cash@[k] < cash
    &&& flows_fit(p.deposits@, p.flows@, trades, cash)
}

/// Deposits and flows speak of as many trades and movements as given.
pub open spec fn flows_fit(
    deposits: Seq<usize>,
    flows: Seq<ExternalFlow>,
    trades: int,
    cash: int,
) -> bool {
    &&& forall|k: int| 0 <= k < deposits.len() ==> #[trigger] deposits[k] < cash
    &&& forall|k: int| 0 <= k < flows.len() ==> #[trigger] flow_place(flows[k]) < trades
}

pub open spec fn all_convert(parts: Seq<Option<Conversion>>) -> bool {
    forall|i: int| 0 <= i < parts.len() ==> (#[trigger] parts[i]) is Some
}

/// How movements of cash are converted, at a given time or each at its own.
pub open spec fn entry_parts(
    places: Seq<usize>,
    cash: Seq<CashEntry>,
    fx: Option<Seq<PricePoint>>,
    base: Seq<char>,
    time: Option<i64>,
) -> Seq<Option<Conversion>> {
    Seq::new(
        places.len(),
        |k: int|
            {
                let entry = cash[places[k] as int];
                let at = match time {
                    Some(time) => time,
                    None => entry.occurred_at,
                };
                rates::conversion_at(entry.currency@, base, rates::rate_at(fx, at as int, None))
            },
    )
}

/// How the flows of trades are converted, at a given time or each at its own.
pub open spec fn flow_parts(
    flows: Seq<ExternalFlow>,
    trades: Seq<Transaction>,
    fx: Option<Seq<PricePoint>>,
    base: Seq<char>,
    time: Option<i64>,
) -> Seq<Option<Conversion>> {
    Seq::new(
        flows.len(),
        |k: int|
            {
                let trade = trades[flow_place(flows[k]) as int];
                let at = match time {
                    Some(time) => time,
                    None => trade.timestamp,
                };
                rates::conversion_at(trade.currency@, base, rates::rate_at(fx, at as int, None))
            },
    )
}

/// How balances are converted at a time. `places` are the movements that they are made of.
pub open spec fn balance_parts(
    balances: Seq<BalancePlan>,
    places: Seq<usize>,
    cash: Seq<CashEntry>,
    fx: Option<Seq<PricePoint>>,
    base: Seq<char>,
    time: int,
) -> Seq<Option<Conversion>> {
    Seq::new(
        balances.len(),
        |b: int|
            rates::conversion_at(
                cash[places[balances[b].opening as int] as int].currency@,
                base,
                rates::rate_at(fx, time, None),
            ),
    )
}

fn convert_entries(
    places: &Vec<usize>,
    cash_entries: &[CashEntry],
    fx_points: Option<&[PricePoint]>,
    base: &str,
    time: Option<i64>,
) -> (r: Vec<Option<Conversion>>)
    requires
        forall|k: int| 0 <= k < places@.len() ==> #[trigger] places@[k] < cash_entries@.len(),
    ensures
        r@ == entry_parts(places@, cash_entries@, rates::points_view(fx_points), base@, time),
{
    let ghost whole = entry_parts(
        places@,
        cash_entries@,
        rates::points_view(fx_points),
        base@,
        time,
    );
    let mut r: Vec<Option<Conversion>> = Vec::new();
    let mut k: usize = 0;
    while k < places.len()
        invariant
            k <= places@.len(),
            forall|k: int| 0 <= k < places@.len() ==> #[trigger] places@[k] < cash_entries@.len(),
            whole == entry_parts(
                places@,
                cash_entries@,
                rates::points_view(fx_points),
                base@,
                time,
            ),
            r@ == whole.take(k as int),
        decreases places@.len() - k,
    {
        let entry = &cash_entries[places[k]];
        let at: i64 = match time {
            Some(time) => time,
            None => entry.occurred_at,
        };
        r.push(rates::report_convert_at(entry.currency.as_str(), base, fx_points, at, None));
        k += 1;
    }
    assert(r@ =~= whole);
    r
}

fn convert_flows(
    flows: &Vec<ExternalFlow>,
    transactions: &[Transaction],
    fx_points: Option<&[PricePoint]>,
    base: &str,
    time: Option<i64>,
) -> (r: Vec<Option<Conversion>>)
    requires
        forall|k: int|
            0 <= k < flows@.len() ==> #[trigger] flow_place(flows@[k]) < transactions@.len(),
    ensures
        r@ == flow_parts(flows@, transactions@, rates::points_view(fx_points), base@, time),
{
    let ghost whole = flow_parts(
        flows@,
        transactions@,
        rates::points_view(fx_points),
        base@,
        time,
    );
    let mut r: Vec<Option<Conversion>> = Vec::new();
    let mut k: usize = 0;
    while k < flows.len()
        invariant
            k <= flows@.len(),
            forall|k: int|
                0 <= k < flows@.len() ==> #[trigger] flow_place(flows@[k]) < transactions@.len(),
            whole == flow_parts(
                flows@,
                transactions@,
                rates::points_view(fx_points),
                base@,
                time,
            ),
            r@ == whole.take(k as int),
        decreases flows@.len() - k,
    {
        assert(flow_place(flows@[k as int]) < transactions@.len());
        let place: usize = match flows[k] {
            ExternalFlow::Contribution(i) => i,
            ExternalFlow::Withdrawal(i) => i,
        };
        let trade = &transactions[place];
        let at: i64 = match time {
            Some(time) => time,
            None => trade.timestamp,
        };
        r.push(rates::report_convert_at(trade.currency.as_str(), base, fx_points, at, None));
        k += 1;
    }
    assert(r@ =~= whole);
    r
}

fn convert_balances(
    balances: &Vec<BalancePlan>,
    places: &Vec<usize>,
    cash_entries: &[CashEntry],
    fx_points: Option<&[PricePoint]>,
    base: &str,
    time: i64,
) -> (r: Vec<Option<Conversion>>)
    requires
        holdings::balances_fit(balances@, places@.len() as int),
        forall|k: int| 0 <= k < places@.len() ==> #[trigger] places@[k] < cash_entries@.len(),
    ensures
        r@ == balance_parts(
            balances@,
            places@,
            cash_entries@,
            rates::points_view(fx_points),
            base@,
            time as int,
        ),
{
    let ghost whole = balance_parts(
        balances@,
        places@,
        cash_entries@,
        rates::points_view(fx_points),
        base@,
        time as int,
    );
    let mut r: Vec<Option<Conversion>> = Vec::new();
    let mut b: usize = 0;
    while b < balances.len()
        invariant
            b <= balances@.len(),
            holdings::balances_fit(balances@, places@.len() as int),
            forall|k: int| 0 <= k < places@.len() ==> #[trigger] places@[k] < cash_entries@.len(),
            whole == balance_parts(
                balances@,
                places@,
                cash_entries@,
                rates::points_view(fx_points),
                base@,
                time as int,
            ),
            r@ == whole.take(b as int),
        decreases balances@.len() - b,
    {
        let entry = &cash_entries[places[balances[b].opening]];
        r.push(rates::report_convert_at(entry.currency.as_str(), base, fx_points, time, None));
        b += 1;
    }
    assert(r@ =~= whole);
    r
}

/// What a security is valued by at the opening and at the close of a session.
#[derive(Clone, Copy, PartialEq, Eq, Structural)]
pub struct SessionValue {
    pub history: usize,
    pub opening_close: usize,
    pub closing_close: usize,
    pub opening_conversion: Conversion,
    pub closing_conversion: Conversion,
}

/// The value of a security, under the names of its last trade. There is none without a
/// history, without a price at both ends of the session, or without a conversion at both.
pub open spec fn session_value(
    p: OneDayPlan,
    trades: Seq<Transaction>,
    histories: Seq<SecurityHistory>,
    fx: Option<Seq<PricePoint>>,
    base: Seq<char>,
    start: int,
    end: int,
    slot: int,
) -> Option<SessionValue> {
    match holdings::last_trade(
        trades.len() as int,
        p.events@,
        p.holdings@[slot].places@,
        p.events@.len() as int,
    ) {
        None => None,
        Some(named) => {
            let trade = trades[named as int];
            match rates::history_place(histories, text::uppercase(trade.provider_symbol@)) {
                None => None,
                Some(history) => {
                    let points = histories[history as int].points@;
                    match (
                        rates::last_by(points, start),
                        rates::last_by(points, end),
                        rates::conversion_at(
                            trade.currency@,
                            base,
                            rates::rate_at(fx, start, None),
                        ),
                        rates::conversion_at(trade.currency@, base, rates::rate_at(fx, end, None)),
                    ) {
                        (
                            Some(opening_close),
                            Some(closing_close),
                            Some(opening_conversion),
                            Some(closing_conversion),
                        ) => Some(
                            SessionValue {
                                history,
                                opening_close,
                                closing_close,
                                opening_conversion,
                                closing_conversion,
                            },
                        ),
                        _ => None,
                    }
                },
            }
        },
    }
}

/// What the gain of a session is made of: an entry for each security, with something in it
/// where any shares are held, and the conversions of the cash and of the flows.
pub struct OneDayValue {
    pub holdings: Vec<Option<SessionValue>>,
    pub opening_balances: Vec<Conversion>,
    pub closing_balances: Vec<Conversion>,
    pub deposits: Vec<Conversion>,
    pub flows: Vec<Conversion>,
}

fn value_security(
    plan: &OneDayPlan,
    transactions: &[Transaction],
    histories: &Vec<SecurityHistory>,
    fx_points: Option<&[PricePoint]>,
    base: &str,
    start: i64,
    end: i64,
    slot: usize,
) -> (r: Option<SessionValue>)
    requires
        holdings::plans_fit(plan.holdings@, plan.events@.len() as int),
        slot < plan.holdings@.len(),
    ensures
        r == session_value(
            *plan,
            transactions@,
            histories@,
            rates::points_view(fx_points),
            base@,
            start as int,
            end as int,
            slot as int,
        ),
{
    let holding = &plan.holdings[slot];
    assert(holdings::plan_fits(*holding, plan.events@.len() as int));
    match holdings::named_by(transactions, &plan.events, holding, plan.events.len()) {
        None => None,
        Some(named) => {
            let trade = &transactions[named];
            let symbol = text::to_upper(trade.provider_symbol.as_str());
            match rates::find_history(histories, symbol.as_str()) {
                None => None,
                Some(history) => {
                    let points = Some(histories[history].points.as_slice());
                    let currency = trade.currency.as_str();
                    match (
                        rates::historical_close_at(points, start),
                        rates::historical_close_at(points, end),
                        rates::report_convert_at(currency, base, fx_points, start, None),
                        rates::report_convert_at(currency, base, fx_points, end, None),
                    ) {
                        (
                            Some(opening_close),
                            Some(closing_close),
                            Some(opening_conversion),
                            Some(closing_conversion),
                        ) => Some(
                            SessionValue {
                                history,
                                opening_close,
                                closing_close,
                                opening_conversion,
                                closing_conversion,
                            },
                        ),
                        _ => None,
                    }
                },
            }
        },
    }
}

/// Everything that the gain of a session is made of is known: the value of each security
/// that is held at either end, and the conversion of each balance, deposit and flow.
/// `held` says which securities are held at either end.
pub open spec fn session_is_known(
    p: OneDayPlan,
    trades: Seq<Transaction>,
    cash: Seq<CashEntry>,
    histories: Seq<SecurityHistory>,
    fx: Option<Seq<PricePoint>>,
    base: Seq<char>,
    start: i64,
    end: i64,
    held: Seq<bool>,
) -> bool {
    &&& forall|slot: int|
        0 <= slot < p.holdings@.len() && held[slot] ==> (#[trigger] session_value(
            p,
            trades,
            histories,
            fx,
            base,
            start as int,
            end as int,
            slot,
        )) is Some
    &&& all_convert(
        balance_parts(p.opening_balances@, p.opening_cash@, cash, fx, base, start as int),
    )
    &&& all_convert(
        balance_parts(p.closing_balances@, p.closing_cash@, cash, fx, base, end as int),
    )
    &&& all_convert(entry_parts(p.deposits@, cash, fx, base, Some(start)))
    &&& all_convert(flow_parts(p.flows@, trades, fx, base, Some(start)))
}

/// A gain is never a partial one: where a security that is held at either end has no price
/// at one of them, the gain of the session is unknown.
pub proof fn no_gain_without_prices(
    p: OneDayPlan,
    trades: Seq<Transaction>,
    cash: Seq<CashEntry>,
    histories: Seq<SecurityHistory>,
    fx: Option<Seq<PricePoint>>,
    base: Seq<char>,
    start: i64,
    end: i64,
    held: Seq<bool>,
    slot: int,
)
    requires
        0 <= slot < p.holdings@.len(),
        held[slot],
        session_is_known(p, trades, cash, histories, fx, base, start, end, held),
    ensures
        session_value(p, trades, histories, fx, base, start as int, end as int, slot) matches Some(
            value,
        ) && rates::last_by(histories[value.history as int].points@, start as int) == Some(
            value.opening_close,
        ) && rates::last_by(histories[value.history as int].points@, end as int) == Some(
            value.closing_close,
        ),
{
    let value = session_value(p, trades, histories, fx, base, start as int, end as int, slot);
    assert(value is Some);
}

/// Finds what the gain of a session is made of. The securities and the cash are valued at
/// the opening and at the close, and the flows at the opening. The gain is unknown as soon
/// as one part is: there is never a partial one.
pub fn value_session(
    plan: &OneDayPlan,
    transactions: &[Transaction],
    cash_entries: &[CashEntry],
    histories: &Vec<SecurityHistory>,
    fx_points: Option<&[PricePoint]>,
    base: &str,
    start: i64,
    end: i64,
    held: &Vec<bool>,
) -> (r: Option<OneDayValue>)
    requires
        one_day_plan_fits(*plan, transactions@.len() as int, cash_entries@.len() as int),
        held@.len() == plan.holdings@.len(),
    ensures
        ({
            let fx = rates::points_view(fx_points);
            let p = *plan;
            let cash = cash_entries@;
            &&& r is Some <==> session_is_known(
                p,
                transactions@,
                cash,
                histories@,
                fx,
                base@,
                start,
                end,
                held@,
            )
            &&& r matches Some(v) ==> {
                &&& v.holdings@ == Seq::new(
                    held@.len(),
                    |slot: int|
                        if held@[slot] {
                            session_value(
                                p,
                                transactions@,
                                histories@,
                                fx,
                                base@,
                                start as int,
                                end as int,
                                slot,
                            )
                        } else {
                            None
                        },
                )
                &&& rates::are_whole(
                    Some(v.opening_balances@),
                    balance_parts(
                        p.opening_balances@,
                        p.opening_cash@,
                        cash,
                        fx,
                        base@,
                        start as int,
                    ),
                )
                &&& rates::are_whole(
                    Some(v.closing_balances@),
                    balance_parts(p.closing_balances@, p.closing_cash@, cash, fx, base@, end as int),
                )
                &&& rates::are_whole(
                    Some(v.deposits@),
                    entry_parts(p.deposits@, cash, fx, base@, Some(start)),
                )
                &&& rates::are_whole(
                    Some(v.flows@),
                    flow_parts(p.flows@, transactions@, fx, base@, Some(start)),
                )
            }
        }),
{
    let ghost fx = rates::points_view(fx_points);
    let mut values: Vec<Option<SessionValue>> = Vec::new();
    let mut slot: usize = 0;
    while slot < plan.holdings.len()
        invariant
            slot <= plan.holdings@.len(),
            held@.len() == plan.holdings@.len(),
            one_day_plan_fits(*plan, transactions@.len() as int, cash_entries@.len() as int),
            fx == rates::points_view(fx_points),
            values@.len() == slot,
            forall|h: int|
                0 <= h < slot ==> #[trigger] values@[h] == if held@[h] {
                    session_value(
                        *plan,
                        transactions@,
                        histories@,
                        fx,
                        base@,
                        start as int,
                        end as int,
                        h,
                    )
                } else {
                    None
                },
            forall|h: int| 0 <= h < slot && held@[h] ==> (#[trigger] values@[h]) is Some,
        decreases plan.holdings@.len() - slot,
    {
        if held[slot] {
            let value = value_security(
                plan,
                transactions,
                histories,
                fx_points,
                base,
                start,
                end,
                slot,
            );
            if value.is_none() {
                return None;
            }
            values.push(value);
        } else {
            values.push(None);
        }
        slot += 1;
    }
    proof {
        assert forall|h: int| 0 <= h < plan.holdings@.len() && held@[h] implies (
        #[trigger] session_value(
            *plan,
            transactions@,
            histories@,
            fx,
            base@,
            start as int,
            end as int,
            h,
        )) is Some by {
            assert(values@[h] is Some);
        }
    }
    let opening = rates::every_conversion(
        &convert_balances(
            &plan.opening_balances,
            &plan.opening_cash,
            cash_entries,
            fx_points,
            base,
            start,
        ),
    );
    let closing = rates::every_conversion(
        &convert_balances(
            &plan.closing_balances,
            &plan.closing_cash,
            cash_entries,
            fx_points,
            base,
            end,
        ),
    );
    let deposits = rates::every_conversion(
        &convert_entries(&plan.deposits, cash_entries, fx_points, base, Some(start)),
    );
    let flows = rates::every_conversion(
        &convert_flows(&plan.flows, transactions, fx_points, base, Some(start)),
    );
    match (opening, closing, deposits, flows) {
        (Some(opening_balances), Some(closing_balances), Some(deposits), Some(flows)) => Some(
            OneDayValue { holdings: values, opening_balances, closing_balances, deposits, flows },
        ),
        _ => None,
    }
}

/// Lays out the gain of one session; nothing where the session has no length.
#[verifier::loop_isolation(false)]
#[verifier::rlimit(60)]
pub fn portfolio_one_day_investment_return(
    transactions: &[Transaction],
    cash_entries: &[CashEntry],
    split_events: &[SplitEvent],
    session_start: i64,
    session_end: i64,
) -> (r: Option<OneDayPlan>)
    requires
        transactions@.len() + split_events@.len() <= usize::MAX,
    ensures
        match r {
            None => session_end <= session_start,
            Some(p) => session_end > session_start && one_day_plan_matches(
                p,
                transactions@,
                cash_entries@,
                split_events@,
                session_start as int,
                session_end as int,
            ) && one_day_plan_fits(p, transactions@.len() as int, cash_entries@.len() as int),
        },
{
    if session_end <= session_start {
        return None;
    }
    let ghost trades = transactions@;
    let ghost cash = cash_entries@;
    let ghost splits = split_events@;
    let ghost start = session_start as int;
    let date = date_of_session(session_start);
    let day: i64 = calendar::day_of(session_start);
    let mut opening: Vec<bool> = Vec::new();
    let mut of_day: Vec<bool> = Vec::new();
    let mut flowing: Vec<bool> = Vec::new();
    let mut entry: Vec<SortKey> = Vec::new();
    let ghost wanted = before_opening(trades, splits, start);
    let mut i: usize = 0;
    while i < transactions.len()
        invariant
            i <= trades.len(),
            opening@.len() == i,
            of_day@.len() == i,
            flowing@.len() == i,
            entry@.len() == i,
            forall|k: int| 0 <= k < i ==> #[trigger] opening@[k] == wanted(k),
            forall|k: int| 0 <= k < i ==> #[trigger] of_day@[k] == trades_of_day(trades, start)(k),
            forall|k: int| 0 <= k < i ==> #[trigger] flowing@[k] == flows_of_day(trades, start)(k),
            forall|k: int| 0 <= k < i ==> #[trigger] entry@[k] == by_entry(trades)(k),
        decreases trades.len() - i,
    {
        let t = &transactions[i];
        let same = text::same_text(t.trade_date.as_str(), date.as_str());
        opening.push(text::is_sorted_before(t.trade_date.as_str(), date.as_str()));
        of_day.push(same);
        flowing.push(same && moves_across(t));
        entry.push(SortKey { first: t.id as i128, second: 0, third: 0 });
        i += 1;
    }
    let mut in_session: Vec<bool> = Vec::new();
    let mut j: usize = 0;
    while j < split_events.len()
        invariant
            j <= splits.len(),
            opening@.len() == trades.len() + j,
            in_session@.len() == j,
            forall|k: int| 0 <= k < trades.len() + j ==> #[trigger] opening@[k] == wanted(k),
            forall|k: int|
                0 <= k < j ==> #[trigger] in_session@[k] == splits_in_session(
                    splits,
                    start,
                    session_end as int,
                )(k),
        decreases splits.len() - j,
    {
        let s = &split_events[j];
        opening.push(calendar::day_of(s.timestamp) < day);
        in_session.push(calendar::day_of(s.timestamp) == day && s.timestamp <= session_end);
        j += 1;
    }
    let mut before: Vec<bool> = Vec::new();
    let mut until: Vec<bool> = Vec::new();
    let mut deposited: Vec<bool> = Vec::new();
    let mut l: usize = 0;
    while l < cash_entries.len()
        invariant
            l <= cash.len(),
            before@.len() == l,
            until@.len() == l,
            deposited@.len() == l,
            forall|k: int| 0 <= k < l ==> #[trigger] before@[k] == (cash_day(cash, k) < day),
            forall|k: int| 0 <= k < l ==> #[trigger] until@[k] == (cash_day(cash, k) <= day),
            forall|k: int|
                0 <= k < l ==> #[trigger] deposited@[k] == (cash_day(cash, k) == day && cash[k].kind@
                    == "DEPOSIT"@),
        decreases cash.len() - l,
    {
        let c = &cash_entries[l];
        let its_day: i64 = calendar::day_of(c.occurred_at);
        before.push(its_day < day);
        until.push(its_day <= day);
        deposited.push(its_day == day && text::same_text(c.kind.as_str(), "DEPOSIT"));
        l += 1;
    }
    let opening_events = ledger::arrange_events(transactions, split_events, &opening);
    let session_splits = order::select(&in_session);
    let session_trades = order::arrange(&of_day, &entry);
    let flow_trades = order::arrange(&flowing, &entry);
    let opening_cash = order::select(&before);
    let closing_cash = order::select(&until);
    let deposits = order::select(&deposited);
    proof {
        order::is_arrangement(
            opening_events@,
            opening@.len() as int,
            |i: int| opening@[i],
            ledger::event_keys(trades, splits),
            wanted,
            ledger::event_keys(trades, splits),
        );
        order::is_selection(
            session_splits@,
            splits.len() as int,
            |i: int| in_session@[i],
            splits_in_session(splits, start, session_end as int),
        );
        order::is_arrangement(
            session_trades@,
            trades.len() as int,
            |i: int| of_day@[i],
            |i: int| entry@[i],
            trades_of_day(trades, start),
            by_entry(trades),
        );
        order::is_arrangement(
            flow_trades@,
            trades.len() as int,
            |i: int| flowing@[i],
            |i: int| entry@[i],
            flows_of_day(trades, start),
            by_entry(trades),
        );
        order::is_selection(
            opening_cash@,
            cash.len() as int,
            |i: int| before@[i],
            |i: int| cash_day(cash, i) < start / 86_400,
        );
        order::is_selection(
            closing_cash@,
            cash.len() as int,
            |i: int| until@[i],
            |i: int| cash_day(cash, i) <= start / 86_400,
        );
        order::is_selection(
            deposits@,
            cash.len() as int,
            |i: int| deposited@[i],
            |i: int| cash_day(cash, i) == start / 86_400 && cash[i].kind@ == "DEPOSIT"@,
        );
    }
    let flows = list_flows(transactions, &flow_trades);
    let events = list_events(
        transactions.len(),
        split_events.len(),
        &opening_events,
        &session_splits,
        &session_trades,
    );
    let plans = holdings::holdings(Scope::Portfolio, transactions, split_events, &events);
    let opening_balances = holdings::balances(cash_entries, &opening_cash);
    let closing_balances = holdings::balances(cash_entries, &closing_cash);
    Some(
        OneDayPlan {
            opening_events,
            session_splits,
            session_trades,
            opening_cash,
            closing_cash,
            deposits,
            flows,
            events,
            holdings: plans,
            opening_balances,
            closing_balances,
        },
    )
}

/// The sum of what stands at the given places.
pub open spec fn total(places: Seq<usize>, amount: spec_fn(int) -> int) -> int
    decreases places.len(),
{
    if places.len() == 0 {
        0
    } else {
        total(places.drop_last(), amount) + amount(places.last() as int)
    }
}

/// The sum of flows across the border of the portfolio.
pub open spec fn flow_total(flows: Seq<ExternalFlow>, value: spec_fn(ExternalFlow) -> int) -> int
    decreases flows.len(),
{
    if flows.len() == 0 {
        0
    } else {
        flow_total(flows.drop_last(), value) + value(flows.last())
    }
}

/// What a session gains besides the change in the value of its holdings: the cash at the
/// close, less the cash at the opening and what came in from outside. A movement is worth
/// one amount at the opening and one at the close, as exchange rates change.
pub open spec fn cash_gain(
    p: OneDayPlan,
    at_opening: spec_fn(int) -> int,
    at_close: spec_fn(int) -> int,
    value: spec_fn(ExternalFlow) -> int,
) -> int {
    total(p.closing_cash@, at_close) - total(p.opening_cash@, at_opening) - total(
        p.deposits@,
        at_opening,
    ) - flow_total(p.flows@, value)
}

/// Two plans have the same events and the same holdings, at the opening and at the close.
pub open spec fn same_events(p: OneDayPlan, q: OneDayPlan) -> bool {
    &&& p.opening_events@ == q.opening_events@
    &&& p.session_splits@ == q.session_splits@
    &&& p.session_trades@ == q.session_trades@
    &&& p.events@ == q.events@
    &&& holdings::same_holdings(p.holdings@, q.holdings@)
}

proof fn total_of_one_more(places: Seq<usize>, place: usize, amount: spec_fn(int) -> int)
    ensures
        total(places.push(place), amount) == total(places, amount) + amount(place as int),
{
    assert(places.push(place).drop_last() =~= places);
}

proof fn flow_total_without(flows: Seq<ExternalFlow>, at: int, value: spec_fn(ExternalFlow) -> int)
    requires
        0 <= at < flows.len(),
    ensures
        flow_total(flows.remove(at), value) == flow_total(flows, value) - value(flows[at]),
    decreases flows.len(),
{
    let rest = flows.remove(at);
    if at == flows.len() - 1 {
        assert(rest =~= flows.drop_last());
    } else {
        flow_total_without(flows.drop_last(), at, value);
        assert(rest.drop_last() =~= flows.drop_last().remove(at));
        assert(rest.last() == flows.last());
    }
}

/// The places of the movements of a session when one more movement of its day is recorded:
/// it joins those of the close, and, if it is a deposit, the deposits, but never those of
/// the opening.
proof fn movement_of_day_joins(
    p: OneDayPlan,
    q: OneDayPlan,
    trades: Seq<Transaction>,
    trades2: Seq<Transaction>,
    cash: Seq<CashEntry>,
    entry: CashEntry,
    splits: Seq<SplitEvent>,
    start: int,
    end: int,
)
    requires
        cash.len() < usize::MAX,
        one_day_plan_matches(p, trades, cash, splits, start, end),
        one_day_plan_matches(q, trades2, cash.push(entry), splits, start, end),
        entry.occurred_at as int / 86_400 == start / 86_400,
    ensures
        q.opening_cash@ == p.opening_cash@,
        q.closing_cash@ == p.closing_cash@.push(cash.len() as usize),
        q.deposits@ == if entry.kind@ == "DEPOSIT"@ {
            p.deposits@.push(cash.len() as usize)
        } else {
            p.deposits@
        },
{
    let day = start / 86_400;
    let more = cash.push(entry);
    let n = cash.len() as int;
    assert(cash_day(more, n) == day);
    assert(forall|i: int| 0 <= i < n ==> #[trigger] more[i] == cash[i]);
    assert(forall|i: int| 0 <= i < n ==> #[trigger] cash_day(more, i) == cash_day(cash, i));
    order::selection_of_one_more(
        n,
        |i: int| cash_day(cash, i) < day,
        |i: int| cash_day(more, i) < day,
    );
    order::selection_of_one_more(
        n,
        |i: int| cash_day(cash, i) <= day,
        |i: int| cash_day(more, i) <= day,
    );
    order::selection_of_one_more(
        n,
        |i: int| cash_day(cash, i) == day && cash[i].kind@ == "DEPOSIT"@,
        |i: int| cash_day(more, i) == day && more[i].kind@ == "DEPOSIT"@,
    );
}

/// A deposit or a withdrawal is no gain. One that is recorded for the day of a session
/// counts at the close and as money from outside, but not at the opening, and cancels out
/// where it is worth the same at the close as at the opening.
pub proof fn deposits_are_no_gain(
    p: OneDayPlan,
    q: OneDayPlan,
    trades: Seq<Transaction>,
    cash: Seq<CashEntry>,
    entry: CashEntry,
    splits: Seq<SplitEvent>,
    start: int,
    end: int,
    at_opening: spec_fn(int) -> int,
    at_close: spec_fn(int) -> int,
    value: spec_fn(ExternalFlow) -> int,
)
    requires
        cash.len() < usize::MAX,
        one_day_plan_matches(p, trades, cash, splits, start, end),
        one_day_plan_matches(q, trades, cash.push(entry), splits, start, end),
        entry.kind@ == "DEPOSIT"@,
        entry.occurred_at as int / 86_400 == start / 86_400,
        at_close(cash.len() as int) == at_opening(cash.len() as int),
    ensures
        q.opening_cash@ == p.opening_cash@,
        q.closing_cash@ == p.closing_cash@.push(cash.len() as usize),
        q.deposits@ == p.deposits@.push(cash.len() as usize),
        q.flows@ == p.flows@,
        same_events(p, q),
        cash_gain(q, at_opening, at_close, value) == cash_gain(p, at_opening, at_close, value),
{
    movement_of_day_joins(p, q, trades, trades, cash, entry, splits, start, end);
    total_of_one_more(p.closing_cash@, cash.len() as usize, at_close);
    total_of_one_more(p.deposits@, cash.len() as usize, at_opening);
    holdings::holdings_are_unique(
        p.holdings@,
        q.holdings@,
        Scope::Portfolio,
        trades,
        splits,
        p.events@,
    );
}

/// How a trade of the day is paid for changes no gain. Settled with the cash of the
/// account, it is no flow from outside any more, and the movement that settles it takes as
/// much from the cash at the close.
pub proof fn settlement_is_no_gain(
    p: OneDayPlan,
    q: OneDayPlan,
    trades: Seq<Transaction>,
    i: usize,
    cash: Seq<CashEntry>,
    entry: CashEntry,
    splits: Seq<SplitEvent>,
    start: int,
    end: int,
    at_opening: spec_fn(int) -> int,
    at_close: spec_fn(int) -> int,
    value: spec_fn(ExternalFlow) -> int,
)
    requires
        i < trades.len(),
        trades.len() + splits.len() <= usize::MAX,
        cash.len() < usize::MAX,
        trades[i as int].trade_date@ == session_date(start),
        crosses_border(trades[i as int]),
        one_day_plan_matches(p, trades, cash, splits, start, end),
        one_day_plan_matches(
            q,
            trades.update(i as int, settled(trades[i as int])),
            cash.push(entry),
            splits,
            start,
            end,
        ),
        entry.kind@ != "DEPOSIT"@,
        entry.occurred_at as int / 86_400 == start / 86_400,
        at_close(cash.len() as int) == -value(flow_of(trades[i as int], i)),
    ensures
        same_events(p, q),
        cash_gain(q, at_opening, at_close, value) == cash_gain(p, at_opening, at_close, value),
{
    let trades2 = trades.update(i as int, settled(trades[i as int]));
    let n = trades.len() as int;
    let all = (trades.len() + splits.len()) as int;
    assert(forall|k: int|
        0 <= k < n ==> (#[trigger] trades2[k]).trade_date == trades[k].trade_date && trades2[k].id
            == trades[k].id && trades2[k].timestamp == trades[k].timestamp
            && trades2[k].transaction_type == trades[k].transaction_type && trades2[k].account_id
            == trades[k].account_id && trades2[k].provider_symbol == trades[k].provider_symbol);
    assert forall|e: int| 0 <= e < all implies #[trigger] before_opening(trades, splits, start)(e)
        == before_opening(trades2, splits, start)(e) by {
        if e < n {
            assert(trades2[e].trade_date == trades[e].trade_date);
        }
    }
    assert forall|e: int| 0 <= e < all implies #[trigger] ledger::event_keys(trades, splits)(e)
        == ledger::event_keys(trades2, splits)(e) by {
        if e < n {
            assert(trades2[e].trade_date == trades[e].trade_date);
        }
    }
    order::same_arrangement(
        all,
        before_opening(trades, splits, start),
        ledger::event_keys(trades, splits),
        before_opening(trades2, splits, start),
        ledger::event_keys(trades2, splits),
    );
    assert forall|k: int| 0 <= k < n implies #[trigger] by_entry(trades)(k) == by_entry(trades2)(
        k,
    ) by {
        assert(trades2[k].id == trades[k].id);
    }
    assert forall|k: int| 0 <= k < n implies #[trigger] trades_of_day(trades, start)(k)
        == trades_of_day(trades2, start)(k) by {
        assert(trades2[k].trade_date == trades[k].trade_date);
    }
    order::same_arrangement(
        n,
        trades_of_day(trades, start),
        by_entry(trades),
        trades_of_day(trades2, start),
        by_entry(trades2),
    );
    let keep = flows_of_day(trades, start);
    let keep2 = flows_of_day(trades2, start);
    assert forall|k: int| 0 <= k < n implies #[trigger] keep2(k) == (keep(k) && k != i) by {
        assert(trades2[k].trade_date == trades[k].trade_date);
        if k != i {
            assert(trades2[k] == trades[k]);
        }
    }
    let at = order::arrangement_without(n, keep, by_entry(trades), keep2, i);
    order::same_arrangement(n, keep2, by_entry(trades), keep2, by_entry(trades2));
    let chosen = order::arrangement(n, keep, by_entry(trades));
    let rest = chosen.remove(at);
    assert forall|k: int| 0 <= k < rest.len() implies #[trigger] flows_of(trades2, rest)[k]
        == flows_of(trades, chosen).remove(at)[k] by {
        let from = if k < at {
            k
        } else {
            k + 1
        };
        assert(chosen[from] < n);
        assert(rest[k] == chosen[from]);
        assert(trades2[chosen[from] as int].transaction_type
            == trades[chosen[from] as int].transaction_type);
    }
    assert(q.flows@ =~= p.flows@.remove(at));
    flow_total_without(p.flows@, at, value);
    assert(p.flows@[at] == flow_of(trades[i as int], i));
    movement_of_day_joins(p, q, trades, trades2, cash, entry, splits, start, end);
    total_of_one_more(p.closing_cash@, cash.len() as usize, at_close);
    events_are_in_range(p, trades, cash, splits, start, end);
    assert(q.events.len() == q.events@.len());
    holdings::holdings_follow_shares(
        q.holdings@,
        Scope::Portfolio,
        trades2,
        trades,
        splits,
        q.events@,
    );
    holdings::holdings_are_unique(
        p.holdings@,
        q.holdings@,
        Scope::Portfolio,
        trades,
        splits,
        p.events@,
    );
}

/// The trade, settled with the cash of its account.
pub open spec fn settled(t: Transaction) -> Transaction {
    Transaction { settle_cash: true, ..t }
}

proof fn events_are_in_range(
    p: OneDayPlan,
    trades: Seq<Transaction>,
    cash: Seq<CashEntry>,
    splits: Seq<SplitEvent>,
    start: int,
    end: int,
)
    requires
        trades.len() + splits.len() <= usize::MAX,
        one_day_plan_matches(p, trades, cash, splits, start, end),
    ensures
        forall|k: int|
            0 <= k < p.events@.len() ==> #[trigger] p.events@[k] < trades.len() + splits.len(),
{
    order::every_arrangement_exists(
        (trades.len() + splits.len()) as int,
        before_opening(trades, splits, start),
        ledger::event_keys(trades, splits),
    );
    order::every_selection_exists(splits.len() as int, splits_in_session(splits, start, end));
    order::every_arrangement_exists(
        trades.len() as int,
        trades_of_day(trades, start),
        by_entry(trades),
    );
    let a = p.opening_events@.len() as int;
    let b = p.session_splits@.len() as int;
    assert forall|k: int| 0 <= k < p.events@.len() implies #[trigger] p.events@[k] < trades.len()
        + splits.len() by {
        if k < a {
            assert(p.events@[k] == p.opening_events@[k]);
        } else if k < a + b {
            assert(p.session_splits@[k - a] < splits.len());
            assert(p.events@[k] == trades.len() + p.session_splits@[k - a]);
        } else {
            assert(p.events@[k] == p.session_trades@[k - a - b]);
        }
    }
}

/// The deposits and withdrawals, and the trades, that move money across the border of
/// the portfolio in a span of time.
pub struct RangeFlows {
    pub deposits: Vec<usize>,
    pub flows: Vec<ExternalFlow>,
}

pub open spec fn deposited_between(cash: Seq<CashEntry>, first: int, last: int) -> spec_fn(int) -> bool {
    |i: int| cash[i].kind@ == "DEPOSIT"@ && first < cash[i].occurred_at <= last
}

pub open spec fn flowed_between(trades: Seq<Transaction>, first: int, last: int) -> spec_fn(int) -> bool {
    |i: int| crosses_border(trades[i]) && first < trades[i].timestamp <= last
}

/// Lists what moved money across the border of the portfolio after its first point and
/// up to its last; nothing where there is no span between them.
#[verifier::loop_isolation(false)]
pub fn portfolio_range_investment_return(
    points: &[PricePoint],
    transactions: &[Transaction],
    cash_entries: &[CashEntry],
) -> (r: Option<RangeFlows>)
    ensures
        match r {
            None => points@.len() == 0 || points@.last().timestamp <= points@[0].timestamp,
            Some(f) => {
                let first = points@[0].timestamp as int;
                let last = points@.last().timestamp as int;
                &&& points@.len() > 0
                &&& last > first
                &&& f.deposits@ == order::selection(
                    cash_entries@.len() as int,
                    deposited_between(cash_entries@, first, last),
                )
                &&& f.flows@ == flows_of(
                    transactions@,
                    order::selection(
                        transactions@.len() as int,
                        flowed_between(transactions@, first, last),
                    ),
                )
                &&& flows_fit(f.deposits@, f.flows@, transactions@.len() as int, cash_entries@.len() as int)
            },
        },
{
    if points.len() == 0 {
        return None;
    }
    let first: i64 = points[0].timestamp;
    let last: i64 = points[points.len() - 1].timestamp;
    if last <= first {
        return None;
    }
    let mut deposited: Vec<bool> = Vec::new();
    let mut i: usize = 0;
    while i < cash_entries.len()
        invariant
            i <= cash_entries@.len(),
            deposited@.len() == i,
            forall|k: int|
                0 <= k < i ==> #[trigger] deposited@[k] == deposited_between(
                    cash_entries@,
                    first as int,
                    last as int,
                )(k),
        decreases cash_entries@.len() - i,
    {
        let c = &cash_entries[i];
        deposited.push(
            text::same_text(c.kind.as_str(), "DEPOSIT") && first < c.occurred_at && c.occurred_at
                <= last,
        );
        i += 1;
    }
    let mut flowing: Vec<bool> = Vec::new();
    let mut j: usize = 0;
    while j < transactions.len()
        invariant
            j <= transactions@.len(),
            flowing@.len() == j,
            forall|k: int|
                0 <= k < j ==> #[trigger] flowing@[k] == flowed_between(
                    transactions@,
                    first as int,
                    last as int,
                )(k),
        decreases transactions@.len() - j,
    {
        let t = &transactions[j];
        flowing.push(moves_across(t) && first < t.timestamp && t.timestamp <= last);
        j += 1;
    }
    let deposits = order::select(&deposited);
    let chosen = order::select(&flowing);
    proof {
        order::is_selection(
            deposits@,
            cash_entries@.len() as int,
            |i: int| deposited@[i],
            deposited_between(cash_entries@, first as int, last as int),
        );
        order::is_selection(
            chosen@,
            transactions@.len() as int,
            |i: int| flowing@[i],
            flowed_between(transactions@, first as int, last as int),
        );
    }
    let flows = list_flows(transactions, &chosen);
    Some(RangeFlows { deposits, flows })
}

/// What the deposits, withdrawals and trades of a span of time are converted by.
pub struct FlowValues {
    pub deposits: Vec<Conversion>,
    pub flows: Vec<Conversion>,
}

/// Finds how the flows of a span of time are converted: each by the rate of its own time.
/// The gain over the span is unknown as soon as one of them cannot be converted.
pub fn value_flows(
    flows: &RangeFlows,
    transactions: &[Transaction],
    cash_entries: &[CashEntry],
    fx_points: Option<&[PricePoint]>,
    base: &str,
) -> (r: Option<FlowValues>)
    requires
        flows_fit(
            flows.deposits@,
            flows.flows@,
            transactions@.len() as int,
            cash_entries@.len() as int,
        ),
    ensures
        ({
            let fx = rates::points_view(fx_points);
            let deposits = entry_parts(flows.deposits@, cash_entries@, fx, base@, None);
            let trades = flow_parts(flows.flows@, transactions@, fx, base@, None);
            &&& r is Some <==> all_convert(deposits) && all_convert(trades)
            &&& r matches Some(v) ==> rates::are_whole(Some(v.deposits@), deposits)
                && rates::are_whole(Some(v.flows@), trades)
        }),
{
    let deposits = convert_entries(&flows.deposits, cash_entries, fx_points, base, None);
    let trades = convert_flows(&flows.flows, transactions, fx_points, base, None);
    match (rates::every_conversion(&deposits), rates::every_conversion(&trades)) {
        (Some(deposits), Some(flows)) => Some(FlowValues { deposits, flows }),
        _ => None,
    }
}

/// The date of a session is written as trades carry their dates, and reads back as the date
/// of the day on which the session starts.
pub proof fn session_date_reads_back(start: int)
    requires
        0 <= calendar::civil(start / 86_400).0 <= 9999,
    ensures
        calendar::read_date(session_date(start)) == Some(calendar::civil(start / 86_400)),
{
    let n = start / 86_400;
    calendar::every_day_is_dated(n);
    let date = calendar::civil(n);
    calendar::printed_date_reads_back(date.0, date.1, date.2);
}

/// What counts in a session. At the opening are the trades of earlier dates and the splits of
/// earlier days; during it come the splits of its day up to its end, and the trades that are
/// dated on its day in the order of entry. Cash is there at the opening from earlier days, and
/// at the close from that day too.
pub proof fn session_parts_the_records_by_day(
    p: OneDayPlan,
    trades: Seq<Transaction>,
    cash: Seq<CashEntry>,
    splits: Seq<SplitEvent>,
    start: int,
    end: int,
)
    requires
        one_day_plan_matches(p, trades, cash, splits, start, end),
        trades.len() + splits.len() <= usize::MAX,
        cash.len() <= usize::MAX,
    ensures
        forall|i: int|
            0 <= i < trades.len() ==> {
                &&& p.opening_events@.contains(i as usize) <==> text::sorts_before(
                    (#[trigger] trades[i]).trade_date@,
                    session_date(start),
                )
                &&& p.session_trades@.contains(i as usize) <==> trades[i].trade_date@
                    == session_date(start)
            },
        forall|j: int|
            0 <= j < splits.len() ==> {
                &&& p.opening_events@.contains((trades.len() + j) as usize) <==> (
                #[trigger] splits[j]).timestamp as int / 86_400 < start / 86_400
                &&& p.session_splits@.contains(j as usize) <==> splits[j].timestamp as int / 86_400
                    == start / 86_400 && splits[j].timestamp <= end
            },
        forall|i: int|
            0 <= i < cash.len() ==> {
                let day = (#[trigger] cash[i]).occurred_at as int / 86_400;
                &&& p.opening_cash@.contains(i as usize) <==> day < start / 86_400
                &&& p.closing_cash@.contains(i as usize) <==> day <= start / 86_400
                &&& p.deposits@.contains(i as usize) <==> day == start / 86_400 && cash[i].kind@
                    == "DEPOSIT"@
            },
        forall|a: int, b: int|
            0 <= a < b < p.session_trades@.len() ==> trades[#[trigger] p.session_trades@[a] as int].id
                <= trades[#[trigger] p.session_trades@[b] as int].id,
        p.opening_events@.no_duplicates(),
        p.session_trades@.no_duplicates(),
        p.session_splits@.no_duplicates(),
        p.opening_cash@.no_duplicates(),
        p.closing_cash@.no_duplicates(),
        p.deposits@.no_duplicates(),
{
    let n = trades.len() as int;
    let all = (trades.len() + splits.len()) as int;
    let c = cash.len() as int;
    let day = start / 86_400;
    let early = before_opening(trades, splits, start);
    let today = trades_of_day(trades, start);
    let split_today = splits_in_session(splits, start, end);
    let cash_before = |i: int| cash_day(cash, i) < day;
    let cash_until = |i: int| cash_day(cash, i) <= day;
    let paid = |i: int| cash_day(cash, i) == day && cash[i].kind@ == "DEPOSIT"@;
    order::arrangement_sorts_kept_positions(all, early, ledger::event_keys(trades, splits));
    order::arrangement_sorts_kept_positions(n, today, by_entry(trades));
    order::selection_lists_kept_positions(splits.len() as int, split_today);
    order::selection_lists_kept_positions(c, cash_before);
    order::selection_lists_kept_positions(c, cash_until);
    order::selection_lists_kept_positions(c, paid);
    assert forall|i: int| 0 <= i < trades.len() implies {
        &&& p.opening_events@.contains(i as usize) <==> text::sorts_before(
            (#[trigger] trades[i]).trade_date@,
            session_date(start),
        )
        &&& p.session_trades@.contains(i as usize) <==> trades[i].trade_date@ == session_date(start)
    } by {
        assert(p.opening_events@.contains(i as usize) <==> early(i));
        assert(p.session_trades@.contains(i as usize) <==> today(i));
    }
    assert forall|j: int| 0 <= j < splits.len() implies {
        &&& p.opening_events@.contains((trades.len() + j) as usize) <==> (
        #[trigger] splits[j]).timestamp as int / 86_400 < start / 86_400
        &&& p.session_splits@.contains(j as usize) <==> splits[j].timestamp as int / 86_400 == start
            / 86_400 && splits[j].timestamp <= end
    } by {
        assert(p.opening_events@.contains((trades.len() + j) as usize) <==> early(n + j));
        assert(p.session_splits@.contains(j as usize) <==> split_today(j));
    }
    assert forall|i: int| 0 <= i < cash.len() implies {
        let its = (#[trigger] cash[i]).occurred_at as int / 86_400;
        &&& p.opening_cash@.contains(i as usize) <==> its < start / 86_400
        &&& p.closing_cash@.contains(i as usize) <==> its <= start / 86_400
        &&& p.deposits@.contains(i as usize) <==> its == start / 86_400 && cash[i].kind@
            == "DEPOSIT"@
    } by {
        assert(p.opening_cash@.contains(i as usize) <==> cash_before(i));
        assert(p.closing_cash@.contains(i as usize) <==> cash_until(i));
        assert(p.deposits@.contains(i as usize) <==> paid(i));
    }
}

/// Money crosses the border of the portfolio in a session with the trades of its day that are
/// not settled with the cash of an account: purchases and opening positions bring money in,
/// sales take money out, and nothing else does either.
pub proof fn unsettled_trades_cross_the_border(
    p: OneDayPlan,
    trades: Seq<Transaction>,
    cash: Seq<CashEntry>,
    splits: Seq<SplitEvent>,
    start: int,
    end: int,
    i: int,
)
    requires
        one_day_plan_matches(p, trades, cash, splits, start, end),
        trades.len() + splits.len() <= usize::MAX,
        0 <= i < trades.len(),
    ensures
        ({
            let kind = trades[i].transaction_type@;
            let crosses = trades[i].trade_date@ == session_date(start) && !trades[i].settle_cash;
            &&& p.flows@.contains(ExternalFlow::Contribution(i as usize)) <==> crosses && (kind
                == "BUY"@ || kind == "OPEN"@)
            &&& p.flows@.contains(ExternalFlow::Withdrawal(i as usize)) <==> crosses && kind
                == "SELL"@
        }),
{
    let keep = flows_of_day(trades, start);
    order::arrangement_sorts_kept_positions(trades.len() as int, keep, by_entry(trades));
    let list = order::arrangement(trades.len() as int, keep, by_entry(trades));
    assert(list.contains(i as usize) <==> keep(i));
    flows_are_by_type(trades, list, i);
}

/// The same over a longer span: the deposits and the trades that are not settled with cash,
/// after its first moment and up to its last.
pub proof fn flows_between_two_times(
    trades: Seq<Transaction>,
    cash: Seq<CashEntry>,
    first: int,
    last: int,
    i: int,
    c: int,
)
    requires
        trades.len() <= usize::MAX,
        cash.len() <= usize::MAX,
        0 <= i < trades.len(),
        0 <= c < cash.len(),
    ensures
        ({
            let flows = flows_of(
                trades,
                order::selection(trades.len() as int, flowed_between(trades, first, last)),
            );
            let kind = trades[i].transaction_type@;
            let crosses = first < trades[i].timestamp <= last && !trades[i].settle_cash;
            &&& flows.contains(ExternalFlow::Contribution(i as usize)) <==> crosses && (kind
                == "BUY"@ || kind == "OPEN"@)
            &&& flows.contains(ExternalFlow::Withdrawal(i as usize)) <==> crosses && kind == "SELL"@
        }),
        order::selection(cash.len() as int, deposited_between(cash, first, last)).contains(
            c as usize,
        ) <==> cash[c].kind@ == "DEPOSIT"@ && first < cash[c].occurred_at <= last,
{
    let keep = flowed_between(trades, first, last);
    order::selection_lists_kept_positions(trades.len() as int, keep);
    let list = order::selection(trades.len() as int, keep);
    assert(list.contains(i as usize) <==> keep(i));
    flows_are_by_type(trades, list, i);
    order::selection_lists_kept_positions(cash.len() as int, deposited_between(cash, first, last));
    assert(deposited_between(cash, first, last)(c) <==> cash[c].kind@ == "DEPOSIT"@ && first
        < cash[c].occurred_at <= last);
}

proof fn flows_are_by_type(trades: Seq<Transaction>, list: Seq<usize>, i: int)
    requires
        trades.len() <= usize::MAX,
        0 <= i < trades.len(),
        list.contains(i as usize) ==> crosses_border(trades[i]),
    ensures
        ({
            let flows = flows_of(trades, list);
            let kind = trades[i].transaction_type@;
            let counts = list.contains(i as usize) && !trades[i].settle_cash;
            &&& flows.contains(ExternalFlow::Contribution(i as usize)) <==> counts && (kind
                == "BUY"@ || kind == "OPEN"@)
            &&& flows.contains(ExternalFlow::Withdrawal(i as usize)) <==> counts && kind == "SELL"@
        }),
        crosses_border(trades[i]) <==> !trades[i].settle_cash && (trades[i].transaction_type@
            == "BUY"@ || trades[i].transaction_type@ == "OPEN"@ || trades[i].transaction_type@
            == "SELL"@),
{
    ledger::kinds_by_name();
    let flows = flows_of(trades, list);
    if list.contains(i as usize) {
        let k = choose|k: int| 0 <= k < list.len() && list[k] == i as usize;
        assert(flows[k] == flow_of(trades[i], i as usize));
    }
    assert forall|k: int|
        0 <= k < flows.len() && (#[trigger] flows[k] == ExternalFlow::Contribution(i as usize)
            || flows[k] == ExternalFlow::Withdrawal(i as usize)) implies list[k] == i as usize
        && flows[k] == flow_of(trades[i], i as usize) by {
        assert(flows[k] == flow_of(trades[list[k] as int], list[k]));
    }
}

/// In the chart of a session, what is dated on its day takes effect one second after its
/// start, whatever time it was recorded with, and all else at its own time.
pub proof fn activity_of_the_day_follows_the_start(
    t: Transaction,
    c: CashEntry,
    start: i64,
    end: i64,
)
    requires
        start < end,
        start as int / 86_400 == end as int / 86_400,
    ensures
        trade_time(t, start as int, Some(end)) == if t.trade_date@ == session_date(start as int) {
            start + 1
        } else {
            t.timestamp as int
        },
        cash_time(c, start as int, Some(end)) == if c.occurred_at as int / 86_400 == start as int
            / 86_400 {
            start + 1
        } else {
            c.occurred_at as int
        },
        trade_time(t, start as int, None) == t.timestamp,
        cash_time(c, start as int, None) == c.occurred_at,
{
}

/// A security of a session is valued by its last closing price at the opening and by its last
/// closing price at the close, each converted by the rate of its own time.
pub proof fn sessions_are_valued_at_both_ends(
    p: OneDayPlan,
    trades: Seq<Transaction>,
    histories: Seq<SecurityHistory>,
    fx: Option<Seq<PricePoint>>,
    base: Seq<char>,
    start: int,
    end: int,
    slot: int,
    named: usize,
)
    requires
        histories.len() <= usize::MAX,
        forall|h: int|
            0 <= h < histories.len() ==> (#[trigger] histories[h]).points@.len() <= usize::MAX,
        holdings::last_trade(
            trades.len() as int,
            p.events@,
            p.holdings@[slot].places@,
            p.events@.len() as int,
        ) == Some(named),
    ensures
        session_value(p, trades, histories, fx, base, start, end, slot) matches Some(v) ==> {
            let points = histories[v.history as int].points@;
            let currency = trades[named as int].currency@;
            &&& v.history < histories.len()
            &&& histories[v.history as int].symbol@ == text::uppercase(
                trades[named as int].provider_symbol@,
            )
            &&& points[v.opening_close as int].timestamp <= start
            &&& forall|i: int|
                v.opening_close < i < points.len() ==> (#[trigger] points[i]).timestamp > start
            &&& points[v.closing_close as int].timestamp <= end
            &&& forall|i: int|
                v.closing_close < i < points.len() ==> (#[trigger] points[i]).timestamp > end
            &&& rates::conversion_at(currency, base, rates::rate_at(fx, start, None)) == Some(
                v.opening_conversion,
            )
            &&& rates::conversion_at(currency, base, rates::rate_at(fx, end, None)) == Some(
                v.closing_conversion,
            )
        },
{
    let symbol = text::uppercase(trades[named as int].provider_symbol@);
    rates::history_is_found_by_symbol(histories, symbol);
    if let Some(h) = rates::history_place(histories, symbol) {
        rates::last_point_splits_history(histories[h as int].points@, start);
        rates::last_point_splits_history(histories[h as int].points@, end);
    }
}

/// How the change over a range is named, and how its absence is.
pub proof fn ranges_name_their_change(range: HistoryRange)
    ensures
        change_suffix(HistoryRange::OneDay) == "today"@,
        change_suffix(HistoryRange::OneWeek) == "this week"@,
        change_suffix(HistoryRange::OneMonth) == "this month"@,
        change_suffix(HistoryRange::ThreeMonths) == "over 3 months"@,
        change_suffix(HistoryRange::OneYear) == "over 1 year"@,
        change_suffix(HistoryRange::FiveYears) == "over 5 years"@,
        change_suffix(HistoryRange::All) == "all time"@,
        text::closes_with(unavailable_label(range), " change unavailable"@),
        unavailable_label(HistoryRange::OneDay) == "Today's change unavailable"@,
        unavailable_label(HistoryRange::OneWeek) == "This week's change unavailable"@,
        unavailable_label(HistoryRange::OneMonth) == "This month's change unavailable"@,
        unavailable_label(HistoryRange::ThreeMonths) == "3-month change unavailable"@,
        unavailable_label(HistoryRange::OneYear) == "1-year change unavailable"@,
        unavailable_label(HistoryRange::FiveYears) == "5-year change unavailable"@,
        unavailable_label(HistoryRange::All) == "All-time change unavailable"@,
{
    let end = " change unavailable"@;
    reveal_strlit(" change unavailable");
    reveal_strlit("Today's change unavailable");
    reveal_strlit("This week's change unavailable");
    reveal_strlit("This month's change unavailable");
    reveal_strlit("3-month change unavailable");
    reveal_strlit("1-year change unavailable");
    reveal_strlit("5-year change unavailable");
    reveal_strlit("All-time change unavailable");
    let label = unavailable_label(range);
    assert(label.subrange(label.len() - end.len(), label.len() as int) =~= end);
}

/// Money that moves is converted by the last rate known at the given time, or at its own where
/// none is given; money in the base currency stays as it is.
pub proof fn money_takes_the_last_rate(
    entries: Seq<usize>,
    cash: Seq<CashEntry>,
    flows: Seq<ExternalFlow>,
    trades: Seq<Transaction>,
    points: Seq<PricePoint>,
    base: Seq<char>,
    time: Option<i64>,
    k: int,
    i: int,
)
    requires
        points.len() <= usize::MAX,
        0 <= i < points.len(),
        text::alike(base, "CAD"@),
    ensures
        0 <= k < entries.len() ==> {
            let entry = cash[entries[k] as int];
            let at = if time is Some {
                time->0
            } else {
                entry.occurred_at
            };
            let part = entry_parts(entries, cash, Some(points), base, time)[k];
            &&& text::alike(entry.currency@, base) ==> part == Some(Conversion::Same)
            &&& text::alike(entry.currency@, "USD"@) && points[i].timestamp <= at && (forall|j: int|
                i < j < points.len() ==> (#[trigger] points[j]).timestamp > at) ==> part == Some(
                Conversion::Multiply(rates::Rate::Historical(i as usize)),
            )
        },
        0 <= k < flows.len() ==> {
            let trade = match flows[k] {
                ExternalFlow::Contribution(t) => trades[t as int],
                ExternalFlow::Withdrawal(t) => trades[t as int],
            };
            let at = if time is Some {
                time->0
            } else {
                trade.timestamp
            };
            let part = flow_parts(flows, trades, Some(points), base, time)[k];
            &&& text::alike(trade.currency@, base) ==> part == Some(Conversion::Same)
            &&& text::alike(trade.currency@, "USD"@) && points[i].timestamp <= at && (forall|j: int|
                i < j < points.len() ==> (#[trigger] points[j]).timestamp > at) ==> part == Some(
                Conversion::Multiply(rates::Rate::Historical(i as usize)),
            )
        },
{
    if 0 <= k < entries.len() {
        let entry = cash[entries[k] as int];
        let at = if time is Some {
            time->0
        } else {
            entry.occurred_at
        };
        if text::alike(entry.currency@, "USD"@) && points[i].timestamp <= at && (forall|j: int|
            i < j < points.len() ==> (#[trigger] points[j]).timestamp > at) {
            rates::last_known_rate_exchanges_dollars(
                entry.currency@,
                base,
                points,
                at as int,
                None,
                i,
            );
        }
    }
    if 0 <= k < flows.len() {
        let trade = trades[flow_place(flows[k]) as int];
        let at = if time is Some {
            time->0
        } else {
            trade.timestamp
        };
        if text::alike(trade.currency@, "USD"@) && points[i].timestamp <= at && (forall|j: int|
            i < j < points.len() ==> (#[trigger] points[j]).timestamp > at) {
            rates::last_known_rate_exchanges_dollars(
                trade.currency@,
                base,
                points,
                at as int,
                None,
                i,
            );
        }
    }
}

/// The balances of an account are converted by the last rate known at the time.
pub proof fn balances_take_the_last_rate(
    balances: Seq<BalancePlan>,
    places: Seq<usize>,
    cash: Seq<CashEntry>,
    points: Seq<PricePoint>,
    base: Seq<char>,
    time: int,
    b: int,
    i: int,
)
    requires
        points.len() <= usize::MAX,
        0 <= i < points.len(),
        points[i].timestamp <= time,
        forall|j: int| i < j < points.len() ==> (#[trigger] points[j]).timestamp > time,
        0 <= b < balances.len(),
        text::alike(base, "CAD"@),
    ensures
        ({
            let currency = cash[places[balances[b].opening as int] as int].currency@;
            let part = balance_parts(balances, places, cash, Some(points), base, time)[b];
            &&& text::alike(currency, base) ==> part == Some(Conversion::Same)
            &&& text::alike(currency, "USD"@) ==> part == Some(
                Conversion::Multiply(rates::Rate::Historical(i as usize)),
            )
        }),
{
    let currency = cash[places[balances[b].opening as int] as int].currency@;
    if text::alike(currency, "USD"@) {
        rates::last_known_rate_exchanges_dollars(currency, base, points, time, None, i);
    }
}

/// A session is known only as a whole: one security that is held without a value is enough to
/// leave it unknown, and so is one balance at either end, one deposit or one flow that cannot
/// be converted.
pub proof fn session_needs_every_part(
    p: OneDayPlan,
    trades: Seq<Transaction>,
    cash: Seq<CashEntry>,
    histories: Seq<SecurityHistory>,
    fx: Option<Seq<PricePoint>>,
    base: Seq<char>,
    start: i64,
    end: i64,
    held: Seq<bool>,
    k: int,
)
    requires
        session_is_known(p, trades, cash, histories, fx, base, start, end, held),
    ensures
        0 <= k < p.holdings@.len() && held[k] ==> session_value(
            p,
            trades,
            histories,
            fx,
            base,
            start as int,
            end as int,
            k,
        ) is Some,
        0 <= k < p.opening_balances@.len() ==> balance_parts(
            p.opening_balances@,
            p.opening_cash@,
            cash,
            fx,
            base,
            start as int,
        )[k] is Some,
        0 <= k < p.closing_balances@.len() ==> balance_parts(
            p.closing_balances@,
            p.closing_cash@,
            cash,
            fx,
            base,
            end as int,
        )[k] is Some,
        0 <= k < p.deposits@.len() ==> entry_parts(p.deposits@, cash, fx, base, Some(start))[k]
            is Some,
        0 <= k < p.flows@.len() ==> flow_parts(p.flows@, trades, fx, base, Some(start))[k] is Some,
{
}

} // verus!
