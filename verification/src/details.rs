//! The pages of an account and of a security.

use vstd::prelude::*;
use crate::activity_rules;
use crate::calendar;
use crate::charts;
use crate::model::{AmountSign, CashEntry, DividendEvent, Position, SearchResult, Transaction};
use crate::numbers;
use crate::order;
use crate::order::SortKey;
use crate::text;
use crate::wording;

verus! {

/// What happened in an account. The trades are counted first, then the movements of cash.
pub open spec fn of_account(
    trades: Seq<Transaction>,
    cash: Seq<CashEntry>,
    account_id: int,
) -> spec_fn(int) -> bool {
    |e: int|
        if e < trades.len() {
            trades[e].account_id == account_id
        } else {
            cash[e - trades.len()].account_id == account_id
        }
}

/// The newest first; what happened at the same time keeps its order.
pub open spec fn newest_first(trades: Seq<Transaction>, cash: Seq<CashEntry>) -> spec_fn(int) -> SortKey {
    |e: int|
        SortKey {
            first: -(if e < trades.len() {
                trades[e].timestamp as int
            } else {
                cash[e - trades.len()].occurred_at as int
            }) as i128,
            second: 0,
            third: 0,
        }
}

/// The history of an account: the newest twenty events.
#[verifier::loop_isolation(false)]
pub fn account_history(
    transactions: &[Transaction],
    cash_entries: &[CashEntry],
    account_id: i64,
) -> (r: Vec<usize>)
    ensures
        r@ == order::at_most(
            order::arrangement(
                (transactions@.len() + cash_entries@.len()) as int,
                of_account(transactions@, cash_entries@, account_id as int),
                newest_first(transactions@, cash_entries@),
            ),
            20,
        ),
{
    let ghost wanted = of_account(transactions@, cash_entries@, account_id as int);
    let ghost wanted_keys = newest_first(transactions@, cash_entries@);
    let mut keep: Vec<bool> = Vec::new();
    let mut keys: Vec<SortKey> = Vec::new();
    let mut i: usize = 0;
    while i < transactions.len()
        invariant
            i <= transactions@.len(),
            keep@.len() == i,
            keys@.len() == i,
            forall|e: int| 0 <= e < i ==> #[trigger] keep@[e] == wanted(e),
            forall|e: int| 0 <= e < i ==> #[trigger] keys@[e] == wanted_keys(e),
        decreases transactions@.len() - i,
    {
        let t = &transactions[i];
        keep.push(t.account_id == account_id);
        keys.push(SortKey { first: -(t.timestamp as i128), second: 0, third: 0 });
        i += 1;
    }
    let mut j: usize = 0;
    while j < cash_entries.len()
        invariant
            j <= cash_entries@.len(),
            keep@.len() == transactions@.len() + j,
            keys@.len() == transactions@.len() + j,
            forall|e: int| 0 <= e < keep@.len() ==> #[trigger] keep@[e] == wanted(e),
            forall|e: int| 0 <= e < keys@.len() ==> #[trigger] keys@[e] == wanted_keys(e),
        decreases cash_entries@.len() - j,
    {
        let c = &cash_entries[j];
        keep.push(c.account_id == account_id);
        keys.push(SortKey { first: -(c.occurred_at as i128), second: 0, third: 0 });
        j += 1;
    }
    let order = order::arrange(&keep, &keys);
    proof {
        order::is_arrangement(
            order@,
            keep@.len() as int,
            |i: int| keep@[i],
            |i: int| keys@[i],
            wanted,
            wanted_keys,
        );
    }
    order::first_of(&order, 20)
}

/// The title of a trade in the history of an account.
pub open spec fn trade_event(kind: Seq<char>, code: Seq<char>) -> Seq<char> {
    if kind == "BUY"@ {
        "Buy "@ + code
    } else if kind == "SELL"@ {
        "Sell "@ + code
    } else if kind == "OPEN"@ {
        "Opening Position · "@ + code
    } else if kind == "TRANSFER_OUT"@ {
        "Transfer Out "@ + code
    } else if kind == "TRANSFER_IN"@ {
        "Transfer In "@ + code
    } else {
        kind + " · "@ + code
    }
}

pub fn trade_event_title(t: &Transaction) -> (r: String)
    ensures
        r@ == trade_event(t.transaction_type@, t.code@),
{
    let kind = t.transaction_type.as_str();
    let mut r = if text::same_text(kind, "BUY") {
        "Buy ".to_owned()
    } else if text::same_text(kind, "SELL") {
        "Sell ".to_owned()
    } else if text::same_text(kind, "OPEN") {
        "Opening Position · ".to_owned()
    } else if text::same_text(kind, "TRANSFER_OUT") {
        "Transfer Out ".to_owned()
    } else if text::same_text(kind, "TRANSFER_IN") {
        "Transfer In ".to_owned()
    } else {
        let mut lead = kind.to_owned();
        lead.append(" · ");
        lead
    };
    r.append(t.code.as_str());
    r
}

pub fn trade_event_subtitle(t: &Transaction, shares: &str, price: &str) -> (r: String)
    ensures
        r@ == calendar::distribution_date_text(t.timestamp as int) + " · "@ + shares@
            + " shares at "@ + price@,
{
    let mut r = calendar::format_distribution_date(t.timestamp);
    r.append(" · ");
    r.append(shares);
    r.append(" shares at ");
    r.append(price);
    r
}

/// The title of a movement of cash in the history of an account.
pub open spec fn cash_event(entry: CashEntry) -> Seq<char> {
    if entry.kind@ == "DEPOSIT"@ {
        if entry.sign == AmountSign::Zero || entry.sign == AmountSign::Positive {
            "Deposit"@
        } else {
            "Withdrawal"@
        }
    } else if entry.kind@ == "DIVIDEND"@ && text::nothing_but_blanks(entry.description@) {
        "Dividend"@
    } else {
        entry.description@
    }
}

pub fn cash_event_title(entry: &CashEntry) -> (r: String)
    ensures
        r@ == cash_event(*entry),
{
    if text::same_text(entry.kind.as_str(), "DEPOSIT") {
        if entry.sign == AmountSign::Zero || entry.sign == AmountSign::Positive {
            "Deposit".to_owned()
        } else {
            "Withdrawal".to_owned()
        }
    } else if text::same_text(entry.kind.as_str(), "DIVIDEND") && text::is_only_blank(
        entry.description.as_str(),
    ) {
        "Dividend".to_owned()
    } else {
        entry.description.clone()
    }
}

pub open spec fn cash_of(cash: Seq<CashEntry>, account_id: int) -> spec_fn(int) -> bool {
    |i: int| cash[i].account_id == account_id
}

pub open spec fn newest_cash(cash: Seq<CashEntry>) -> spec_fn(int) -> SortKey {
    |i: int|
        SortKey {
            first: -(cash[i].occurred_at as int) as i128,
            second: -(cash[i].id as int) as i128,
            third: 0,
        }
}

/// The movements of an account's cash, the newest first.
#[verifier::loop_isolation(false)]
pub fn cash_history(cash_entries: &[CashEntry], account_id: i64) -> (r: Vec<usize>)
    ensures
        r@ == order::arrangement(
            cash_entries@.len() as int,
            cash_of(cash_entries@, account_id as int),
            newest_cash(cash_entries@),
        ),
{
    let mut keep: Vec<bool> = Vec::new();
    let mut keys: Vec<SortKey> = Vec::new();
    let mut i: usize = 0;
    while i < cash_entries.len()
        invariant
            i <= cash_entries@.len(),
            keep@.len() == i,
            keys@.len() == i,
            forall|k: int|
                0 <= k < i ==> #[trigger] keep@[k] == cash_of(cash_entries@, account_id as int)(k),
            forall|k: int| 0 <= k < i ==> #[trigger] keys@[k] == newest_cash(cash_entries@)(k),
        decreases cash_entries@.len() - i,
    {
        let c = &cash_entries[i];
        keep.push(c.account_id == account_id);
        keys.push(
            SortKey { first: -(c.occurred_at as i128), second: -(c.id as i128), third: 0 },
        );
        i += 1;
    }
    let r = order::arrange(&keep, &keys);
    proof {
        order::is_arrangement(
            r@,
            cash_entries@.len() as int,
            |i: int| keep@[i],
            |i: int| keys@[i],
            cash_of(cash_entries@, account_id as int),
            newest_cash(cash_entries@),
        );
    }
    r
}

/// The title of a movement in the list of an account's cash.
pub fn cash_movement_title(entry: &CashEntry) -> (r: String)
    ensures
        r@ == if entry.kind@ == "DEPOSIT"@ && entry.sign == AmountSign::Negative {
            "Cash withdrawn"@
        } else {
            entry.description@
        },
{
    if text::same_text(entry.kind.as_str(), "DEPOSIT") && entry.sign == AmountSign::Negative {
        "Cash withdrawn".to_owned()
    } else {
        entry.description.clone()
    }
}

pub open spec fn paid_to(cash: Seq<CashEntry>, account_id: int) -> spec_fn(int) -> bool {
    |i: int|
        cash[i].account_id == account_id && cash[i].kind@ == "DIVIDEND"@ && cash[i].sign
            == AmountSign::Positive
}

/// The distributions that were paid into an account.
#[verifier::loop_isolation(false)]
pub fn account_dividends(cash_entries: &[CashEntry], account_id: i64) -> (r: Vec<usize>)
    ensures
        r@ == order::selection(
            cash_entries@.len() as int,
            paid_to(cash_entries@, account_id as int),
        ),
{
    let mut keep: Vec<bool> = Vec::new();
    let mut i: usize = 0;
    while i < cash_entries.len()
        invariant
            i <= cash_entries@.len(),
            keep@.len() == i,
            forall|k: int|
                0 <= k < i ==> #[trigger] keep@[k] == paid_to(cash_entries@, account_id as int)(k),
        decreases cash_entries@.len() - i,
    {
        let c = &cash_entries[i];
        keep.push(
            c.account_id == account_id && text::same_text(c.kind.as_str(), "DIVIDEND") && c.sign
                == AmountSign::Positive,
        );
        i += 1;
    }
    let r = order::select(&keep);
    proof {
        order::is_selection(
            r@,
            cash_entries@.len() as int,
            |i: int| keep@[i],
            paid_to(cash_entries@, account_id as int),
        );
    }
    r
}

/// The trades of a holding.
#[verifier::loop_isolation(false)]
pub fn holding_transactions(
    transactions: &[Transaction],
    account_id: i64,
    provider_symbol: &str,
) -> (r: Vec<usize>)
    ensures
        r@ == order::selection(
            transactions@.len() as int,
            |i: int|
                activity_rules::of_holding(
                    transactions@[i],
                    account_id as int,
                    provider_symbol@,
                    None,
                ),
        ),
{
    let mut keep: Vec<bool> = Vec::new();
    let mut i: usize = 0;
    while i < transactions.len()
        invariant
            i <= transactions@.len(),
            keep@.len() == i,
            forall|k: int|
                0 <= k < i ==> #[trigger] keep@[k] == activity_rules::of_holding(
                    transactions@[k],
                    account_id as int,
                    provider_symbol@,
                    None,
                ),
        decreases transactions@.len() - i,
    {
        let t = &transactions[i];
        keep.push(
            t.account_id == account_id && text::same_letters(
                t.provider_symbol.as_str(),
                provider_symbol,
            ),
        );
        i += 1;
    }
    let r = order::select(&keep);
    proof {
        order::is_selection(
            r@,
            transactions@.len() as int,
            |i: int| keep@[i],
            |i: int|
                activity_rules::of_holding(
                    transactions@[i],
                    account_id as int,
                    provider_symbol@,
                    None,
                ),
        );
    }
    r
}

/// The lines about a holding.
#[derive(Clone, Copy, PartialEq, Eq, Structural)]
pub enum PositionLine {
    Account,
    Shares,
    CostBasis,
    UnrealizedReturn,
    RealizedGain,
    InvestmentReturn,
    NativeMarketValue,
}

/// The lines about a holding, in their order. The gain from sales is shown where it is
/// known, and with it the whole return where the other part is known too.
pub open spec fn position_lines_of(
    has_trades: bool,
    realized_known: bool,
    unrealized_known: bool,
    foreign: bool,
    valued: bool,
) -> Seq<PositionLine> {
    seq![
        PositionLine::Account,
        PositionLine::Shares,
        PositionLine::CostBasis,
        PositionLine::UnrealizedReturn,
    ] + (if has_trades && realized_known {
        seq![PositionLine::RealizedGain]
    } else {
        Seq::empty()
    }) + (if has_trades && realized_known && unrealized_known {
        seq![PositionLine::InvestmentReturn]
    } else {
        Seq::empty()
    }) + (if foreign && valued {
        seq![PositionLine::NativeMarketValue]
    } else {
        Seq::empty()
    })
}

pub fn position_lines(
    has_trades: bool,
    realized_known: bool,
    unrealized_known: bool,
    currency: &str,
    base: &str,
    valued: bool,
) -> (r: Vec<PositionLine>)
    ensures
        r@ == position_lines_of(
            has_trades,
            realized_known,
            unrealized_known,
            currency@ != base@,
            valued,
        ),
{
    let mut r: Vec<PositionLine> = Vec::new();
    r.push(PositionLine::Account);
    r.push(PositionLine::Shares);
    r.push(PositionLine::CostBasis);
    r.push(PositionLine::UnrealizedReturn);
    if has_trades && realized_known {
        r.push(PositionLine::RealizedGain);
        if unrealized_known {
            r.push(PositionLine::InvestmentReturn);
        }
    }
    let foreign = !text::same_text(currency, base);
    if foreign && valued {
        r.push(PositionLine::NativeMarketValue);
    }
    assert(r@ =~= position_lines_of(
        has_trades,
        realized_known,
        unrealized_known,
        foreign,
        valued,
    ));
    r
}

pub open spec fn position_line_text(line: PositionLine) -> Seq<char> {
    match line {
        PositionLine::Account => "Account"@,
        PositionLine::Shares => "Shares"@,
        PositionLine::CostBasis => "Cost basis"@,
        PositionLine::UnrealizedReturn => "Unrealized return"@,
        PositionLine::RealizedGain => "Realized gain"@,
        PositionLine::InvestmentReturn => "Investment return"@,
        PositionLine::NativeMarketValue => "Native market value"@,
    }
}

pub fn position_line_label(line: PositionLine) -> (r: &'static str)
    ensures
        r@ == position_line_text(line),
{
    match line {
        PositionLine::Account => "Account",
        PositionLine::Shares => "Shares",
        PositionLine::CostBasis => "Cost basis",
        PositionLine::UnrealizedReturn => "Unrealized return",
        PositionLine::RealizedGain => "Realized gain",
        PositionLine::InvestmentReturn => "Investment return",
        PositionLine::NativeMarketValue => "Native market value",
    }
}

/// The state of the price of a security that is not held.
pub fn search_price_label(has_price: bool) -> (r: &'static str)
    ensures
        r@ == if has_price {
            "Search result price"@
        } else {
            "Quote unavailable"@
        },
{
    if has_price {
        "Search result price"
    } else {
        "Quote unavailable"
    }
}

/// A line about a security.
pub struct DetailLine {
    pub label: &'static str,
    pub value: String,
}

pub open spec fn line_views(lines: Seq<DetailLine>) -> Seq<(Seq<char>, Seq<char>)> {
    Seq::new(lines.len(), |i: int| (lines[i].label@, lines[i].value@))
}

/// The lines about a security that is not held. Its type is shown where it is known.
pub open spec fn security_lines_of(
    exchange: Seq<char>,
    currency: Seq<char>,
    symbol: Seq<char>,
    asset_type: Seq<char>,
) -> Seq<(Seq<char>, Seq<char>)> {
    seq![
        ("Exchange"@, wording::exchange_text(exchange)),
        ("Currency"@, currency),
        ("Yahoo symbol"@, symbol),
    ] + (if text::nothing_but_blanks(asset_type) {
        Seq::empty()
    } else {
        seq![("Type"@, wording::asset_type_text(asset_type))]
    })
}

pub fn security_lines(asset: &SearchResult) -> (r: Vec<DetailLine>)
    ensures
        line_views(r@) == security_lines_of(
            asset.exchange@,
            asset.currency@,
            asset.provider_symbol@,
            asset.asset_type@,
        ),
{
    let mut r: Vec<DetailLine> = Vec::new();
    r.push(
        DetailLine {
            label: "Exchange",
            value: wording::friendly_exchange(asset.exchange.as_str()).to_owned(),
        },
    );
    r.push(DetailLine { label: "Currency", value: asset.currency.clone() });
    r.push(DetailLine { label: "Yahoo symbol", value: asset.provider_symbol.clone() });
    if !text::is_only_blank(asset.asset_type.as_str()) {
        r.push(
            DetailLine {
                label: "Type",
                value: wording::friendly_asset_type(asset.asset_type.as_str()).to_owned(),
            },
        );
    }
    assert(line_views(r@) =~= security_lines_of(
        asset.exchange@,
        asset.currency@,
        asset.provider_symbol@,
        asset.asset_type@,
    ));
    r
}

/// The line under the name of a security.
pub fn security_caption(name: &str, exchange: &str, currency: &str) -> (r: String)
    ensures
        r@ == name@ + " · "@ + wording::exchange_text(exchange@) + " · "@ + currency@,
{
    let mut r = name.to_owned();
    r.append(" · ");
    r.append(wording::friendly_exchange(exchange));
    r.append(" · ");
    r.append(currency);
    r
}

pub open spec fn of_security(positions: Seq<Position>, symbol: Seq<char>) -> spec_fn(int) -> bool {
    |i: int| text::alike(positions[i].provider_symbol@, symbol)
}

/// The holdings of a security in all accounts: a new quote is theirs too.
#[verifier::loop_isolation(false)]
pub fn positions_of(positions: &[Position], provider_symbol: &str) -> (r: Vec<usize>)
    ensures
        r@ == order::selection(
            positions@.len() as int,
            of_security(positions@, provider_symbol@),
        ),
{
    let mut keep: Vec<bool> = Vec::new();
    let mut i: usize = 0;
    while i < positions.len()
        invariant
            i <= positions@.len(),
            keep@.len() == i,
            forall|k: int|
                0 <= k < i ==> #[trigger] keep@[k] == of_security(positions@, provider_symbol@)(k),
        decreases positions@.len() - i,
    {
        keep.push(text::same_letters(positions[i].provider_symbol.as_str(), provider_symbol));
        i += 1;
    }
    let r = order::select(&keep);
    proof {
        order::is_selection(
            r@,
            positions@.len() as int,
            |i: int| keep@[i],
            of_security(positions@, provider_symbol@),
        );
    }
    r
}

/// The line under the name of an account: its cash and the number of its holdings.
pub fn account_caption(cash: &str, holdings: usize) -> (r: String)
    ensures
        r@ == cash@ + " cash · "@ + wording::holding_count(holdings as nat),
{
    let mut r = cash.to_owned();
    r.append(" cash · ");
    r.append(wording::holding_count_text(holdings).as_str());
    r
}

/// The change of the day in percent with its sign, where it is known.
pub fn day_change_text(change: Option<&str>) -> (r: String)
    ensures
        r@ == match charts::text_view(change) {
            Some(change) => change + "% today"@,
            None => "Today's change unavailable"@,
        },
{
    match change {
        Some(change) => {
            let mut r = change.to_owned();
            r.append("% today");
            r
        },
        None => "Today's change unavailable".to_owned(),
    }
}

/// The state of a price that could not be brought up to date.
pub fn cached_value_text(health: &str) -> (r: String)
    ensures
        r@ == health@ + " · using cached value"@,
{
    let mut r = health.to_owned();
    r.append(" · using cached value");
    r
}

/// The words under which the trades of a holding are found.
pub fn holding_filter(code: &str, account_name: &str) -> (r: String)
    ensures
        r@ == code@ + " "@ + account_name@,
{
    let mut r = code.to_owned();
    r.append(" ");
    r.append(account_name);
    r
}

/// The age at which the stored distributions of a security are out of date.
pub const DIVIDEND_CACHE_SECONDS: i64 = 86_400;

/// The distributions of a security are fetched where that was asked for, where they never
/// were, and where that was a day ago or more.
pub open spec fn dividends_wanted(announce: bool, fetched_at: Option<i64>, now: int) -> bool {
    announce || match fetched_at {
        Some(time) => numbers::saturated(now - time) >= DIVIDEND_CACHE_SECONDS,
        None => true,
    }
}

/// How the load of a security's distributions starts.
pub struct DividendLoad {
    pub fetch: bool,
    pub status: &'static str,
}

pub open spec fn dividend_load_status(cached: bool, fetch: bool) -> Seq<char> {
    if fetch {
        if cached {
            "Cached dividend history · updating"@
        } else {
            "Loading dividend history"@
        }
    } else if cached {
        "Trailing 12 months · estimated at current shares"@
    } else {
        "No distributions found"@
    }
}

pub fn start_dividend_load(
    cached_events: usize,
    announce: bool,
    fetched_at: Option<i64>,
    now: i64,
) -> (r: DividendLoad)
    ensures
        r.fetch == dividends_wanted(announce, fetched_at, now as int),
        r.status@ == dividend_load_status(cached_events > 0, r.fetch),
{
    let fetch = announce || match fetched_at {
        Some(time) => numbers::saturating_difference(now, time) >= DIVIDEND_CACHE_SECONDS,
        None => true,
    };
    let cached = cached_events > 0;
    let status = if fetch {
        if cached {
            "Cached dividend history · updating"
        } else {
            "Loading dividend history"
        }
    } else if cached {
        "Trailing 12 months · estimated at current shares"
    } else {
        "No distributions found"
    };
    DividendLoad { fetch, status }
}

/// How the load of a security's distributions ends.
pub struct DividendEnd {
    pub status: String,
    pub toast: Option<&'static str>,
}

/// The line after a load of a security's distributions.
pub open spec fn dividend_end_status(
    loaded: Result<usize, Seq<char>>,
    had_cache: bool,
) -> Seq<char> {
    match loaded {
        Ok(events) => if events == 0 {
            "No distributions found"@
        } else {
            "Updated just now · estimated at current shares"@
        },
        Err(error) => if had_cache {
            "Update failed · showing cached dividend history"@
        } else {
            error
        },
    }
}

/// A load of a security's distributions has ended. `loaded` is the number of events, or
/// what was said against the request.
pub fn end_dividend_load(loaded: Result<usize, &str>, had_cache: bool, announce: bool) -> (r:
    DividendEnd)
    ensures
        r.status@ == dividend_end_status(
            match loaded {
                Ok(events) => Ok(events),
                Err(error) => Err(error@),
            },
            had_cache,
        ),
        charts::label_view(r.toast) == if announce && loaded is Err {
            Some("Could not refresh dividend data"@)
        } else {
            None
        },
{
    match loaded {
        Ok(events) => {
            let status = if events == 0 {
                "No distributions found"
            } else {
                "Updated just now · estimated at current shares"
            };
            DividendEnd { status: status.to_owned(), toast: None }
        },
        Err(error) => {
            let status = if had_cache {
                "Update failed · showing cached dividend history"
            } else {
                error
            };
            let toast = if announce {
                Some("Could not refresh dividend data")
            } else {
                None
            };
            DividendEnd { status: status.to_owned(), toast }
        },
    }
}

pub open spec fn in_last_year(events: Seq<DividendEvent>, now: int) -> spec_fn(int) -> bool {
    |i: int| numbers::saturated(now - 31_622_400) <= events[i].timestamp <= now
}

/// The distributions of the last twelve months.
#[verifier::loop_isolation(false)]
pub fn trailing_dividends(events: &[DividendEvent], now: i64) -> (r: Vec<usize>)
    ensures
        r@ == order::selection(events@.len() as int, in_last_year(events@, now as int)),
{
    let cutoff: i64 = numbers::saturating_difference(now, 31_622_400);
    let mut keep: Vec<bool> = Vec::new();
    let mut i: usize = 0;
    while i < events.len()
        invariant
            i <= events@.len(),
            keep@.len() == i,
            forall|k: int| 0 <= k < i ==> #[trigger] keep@[k] == in_last_year(events@, now as int)(k),
        decreases events@.len() - i,
    {
        keep.push(events[i].timestamp >= cutoff && events[i].timestamp <= now);
        i += 1;
    }
    let r = order::select(&keep);
    proof {
        order::is_selection(
            r@,
            events@.len() as int,
            |i: int| keep@[i],
            in_last_year(events@, now as int),
        );
    }
    r
}

pub open spec fn newest_events(events: Seq<DividendEvent>) -> spec_fn(int) -> SortKey {
    |i: int| SortKey { first: -(events[i].timestamp as int) as i128, second: 0, third: 0 }
}

/// The newest eight distributions of a security, the newest first.
#[verifier::loop_isolation(false)]
pub fn newest_dividends(events: &[DividendEvent]) -> (r: Vec<usize>)
    ensures
        r@ == order::at_most(
            order::arrangement(events@.len() as int, |i: int| true, newest_events(events@)),
            8,
        ),
{
    let mut keep: Vec<bool> = Vec::new();
    let mut keys: Vec<SortKey> = Vec::new();
    let mut i: usize = 0;
    while i < events.len()
        invariant
            i <= events@.len(),
            keep@.len() == i,
            keys@.len() == i,
            forall|k: int| 0 <= k < i ==> #[trigger] keep@[k],
            forall|k: int| 0 <= k < i ==> #[trigger] keys@[k] == newest_events(events@)(k),
        decreases events@.len() - i,
    {
        keep.push(true);
        keys.push(SortKey { first: -(events[i].timestamp as i128), second: 0, third: 0 });
        i += 1;
    }
    let order = order::arrange(&keep, &keys);
    proof {
        order::is_arrangement(
            order@,
            events@.len() as int,
            |i: int| keep@[i],
            |i: int| keys@[i],
            |i: int| true,
            newest_events(events@),
        );
    }
    order::first_of(&order, 8)
}

/// The time of a record in the list of trades and movements of cash.
pub open spec fn record_time(trades: Seq<Transaction>, cash: Seq<CashEntry>, e: int) -> int {
    if e < trades.len() {
        trades[e].timestamp as int
    } else {
        cash[e - trades.len()].occurred_at as int
    }
}

/// The history of an account shows at most twenty of its trades and movements of cash, the
/// newest first, and none is left out for an older one.
pub proof fn account_history_keeps_the_newest(
    trades: Seq<Transaction>,
    cash: Seq<CashEntry>,
    account_id: int,
    e: int,
)
    requires
        trades.len() + cash.len() <= usize::MAX,
        0 <= e < trades.len() + cash.len(),
    ensures
        ({
            let list = order::at_most(
                order::arrangement(
                    (trades.len() + cash.len()) as int,
                    of_account(trades, cash, account_id),
                    newest_first(trades, cash),
                ),
                20,
            );
            let counts = if e < trades.len() {
                trades[e].account_id == account_id
            } else {
                cash[e - trades.len()].account_id == account_id
            };
            &&& list.len() <= 20
            &&& list.no_duplicates()
            &&& list.contains(e as usize) ==> counts
            &&& counts && !list.contains(e as usize) ==> list.len() == 20 && forall|k: int|
                0 <= k < 20 ==> record_time(trades, cash, #[trigger] list[k] as int) >= record_time(
                    trades,
                    cash,
                    e,
                )
            &&& forall|a: int, b: int|
                0 <= a < b < list.len() ==> record_time(trades, cash, #[trigger] list[a] as int)
                    >= record_time(trades, cash, #[trigger] list[b] as int)
        }),
{
    let n = (trades.len() + cash.len()) as int;
    let keep = of_account(trades, cash, account_id);
    let keys = newest_first(trades, cash);
    let all = order::arrangement(n, keep, keys);
    let list = order::at_most(all, 20);
    order::arrangement_sorts_kept_positions(n, keep, keys);
    assert(all.contains(e as usize) <==> keep(e));
    assert forall|k: int| 0 <= k < all.len() implies (#[trigger] all[k]) < n by {
        assert(all.contains(all[k]));
    }
    if list.contains(e as usize) {
        let k = choose|k: int| 0 <= k < list.len() && list[k] == e as usize;
        assert(all[k] == e as usize);
    }
    if keep(e) && !list.contains(e as usize) {
        let at = choose|k: int| 0 <= k < all.len() && all[k] == e as usize;
        if at < list.len() {
            assert(list[at] == all[at]);
        }
        assert forall|k: int| 0 <= k < 20 implies record_time(
            trades,
            cash,
            #[trigger] list[k] as int,
        ) >= record_time(trades, cash, e) by {
            assert(list[k] == all[k] && k < at);
        }
    }
    assert forall|a: int, b: int| 0 <= a < b < list.len() implies record_time(
        trades,
        cash,
        #[trigger] list[a] as int,
    ) >= record_time(trades, cash, #[trigger] list[b] as int) by {
        assert(list[a] == all[a] && list[b] == all[b]);
    }
}

/// The cash history of an account holds all of its movements, the newest first, and those of
/// one time in the reverse order of entry.
pub proof fn cash_history_is_newest_first(cash: Seq<CashEntry>, account_id: int, i: int)
    requires
        cash.len() <= usize::MAX,
        0 <= i < cash.len(),
    ensures
        ({
            let list = order::arrangement(
                cash.len() as int,
                cash_of(cash, account_id),
                newest_cash(cash),
            );
            &&& list.contains(i as usize) <==> cash[i].account_id == account_id
            &&& list.no_duplicates()
            &&& forall|a: int, b: int|
                0 <= a < b < list.len() ==> {
                    let x = cash[#[trigger] list[a] as int];
                    let y = cash[#[trigger] list[b] as int];
                    x.occurred_at > y.occurred_at || x.occurred_at == y.occurred_at && x.id >= y.id
                }
        }),
{
    let keep = cash_of(cash, account_id);
    let list = order::arrangement(cash.len() as int, keep, newest_cash(cash));
    order::arrangement_sorts_kept_positions(cash.len() as int, keep, newest_cash(cash));
    assert(list.contains(i as usize) <==> keep(i));
    assert forall|k: int| 0 <= k < list.len() implies (#[trigger] list[k]) < cash.len() by {
        assert(list.contains(list[k]));
    }
}

/// The dividends of an account are its payments of that kind that brought money in.
pub proof fn account_dividends_brought_money(cash: Seq<CashEntry>, account_id: int, i: int)
    requires
        cash.len() <= usize::MAX,
        0 <= i < cash.len(),
    ensures
        order::selection(cash.len() as int, paid_to(cash, account_id)).contains(i as usize) <==> {
            &&& cash[i].account_id == account_id
            &&& cash[i].kind@ == "DIVIDEND"@
            &&& cash[i].sign is Positive
        },
{
    order::selection_lists_kept_positions(cash.len() as int, paid_to(cash, account_id));
    assert(order::selection(cash.len() as int, paid_to(cash, account_id)).contains(i as usize)
        <==> paid_to(cash, account_id)(i));
}

/// The positions of a security are all that have its symbol, whatever the case of its letters.
pub proof fn positions_are_found_by_symbol(positions: Seq<Position>, symbol: Seq<char>, i: int)
    requires
        positions.len() <= usize::MAX,
        0 <= i < positions.len(),
    ensures
        order::selection(positions.len() as int, of_security(positions, symbol)).contains(
            i as usize,
        ) <==> text::alike(positions[i].provider_symbol@, symbol),
{
    order::selection_lists_kept_positions(positions.len() as int, of_security(positions, symbol));
    assert(order::selection(positions.len() as int, of_security(positions, symbol)).contains(
        i as usize,
    ) <==> of_security(positions, symbol)(i));
}

/// How the trades of an account are titled, by their types.
pub proof fn trades_are_titled_by_type(code: Seq<char>)
    ensures
        trade_event("BUY"@, code) == "Buy "@ + code,
        trade_event("SELL"@, code) == "Sell "@ + code,
        trade_event("OPEN"@, code) == "Opening Position · "@ + code,
        trade_event("TRANSFER_OUT"@, code) == "Transfer Out "@ + code,
        trade_event("TRANSFER_IN"@, code) == "Transfer In "@ + code,
{
    crate::ledger::kinds_by_name();
}

/// How movements of cash are titled: deposits by the way the money went, all else by its
/// description, and a dividend without one as such.
pub proof fn cash_is_titled_by_its_way(entry: CashEntry)
    ensures
        entry.kind@ == "DEPOSIT"@ ==> (cash_event(entry) == "Deposit"@ <==> entry.sign is Positive
            || entry.sign is Zero),
        entry.kind@ == "DEPOSIT"@ && entry.sign is Negative ==> cash_event(entry) == "Withdrawal"@,
        entry.kind@ == "DIVIDEND"@ && text::trimmed(entry.description@).len() == 0 ==> cash_event(
            entry,
        ) == "Dividend"@,
        entry.kind@ != "DEPOSIT"@ && text::trimmed(entry.description@).len() > 0 ==> cash_event(
            entry,
        ) == entry.description@,
        entry.kind@ != "DEPOSIT"@ && entry.kind@ != "DIVIDEND"@ ==> cash_event(entry)
            == entry.description@,
{
    reveal_strlit("Deposit");
    reveal_strlit("Withdrawal");
    reveal_strlit("DEPOSIT");
    reveal_strlit("DIVIDEND");
    assert("Deposit"@.len() != "Withdrawal"@.len());
    assert("DEPOSIT"@.len() != "DIVIDEND"@.len());
}

/// The lines on a position: gains that were realized stand there only where there are trades
/// and the gain is known, the whole return only where what is not realized is known too, and
/// the native value only of a foreign holding that has a value.
pub proof fn position_lines_say_what_is_known(
    has_trades: bool,
    realized_known: bool,
    unrealized_known: bool,
    foreign: bool,
    valued: bool,
)
    ensures
        ({
            let lines = position_lines_of(
                has_trades,
                realized_known,
                unrealized_known,
                foreign,
                valued,
            );
            &&& lines.take(4) == seq![
                PositionLine::Account,
                PositionLine::Shares,
                PositionLine::CostBasis,
                PositionLine::UnrealizedReturn,
            ]
            &&& lines.contains(PositionLine::RealizedGain) <==> has_trades && realized_known
            &&& lines.contains(PositionLine::InvestmentReturn) <==> has_trades && realized_known
                && unrealized_known
            &&& lines.contains(PositionLine::NativeMarketValue) <==> foreign && valued
            &&& lines.no_duplicates()
        }),
{
    let lines = position_lines_of(has_trades, realized_known, unrealized_known, foreign, valued);
    assert(lines.take(4) =~= seq![
        PositionLine::Account,
        PositionLine::Shares,
        PositionLine::CostBasis,
        PositionLine::UnrealizedReturn,
    ]);
    let extra = lines.skip(4);
    if has_trades && realized_known {
        assert(lines[4] == PositionLine::RealizedGain);
        if unrealized_known {
            assert(lines[5] == PositionLine::InvestmentReturn);
        }
    }
    if foreign && valued {
        assert(lines.last() == PositionLine::NativeMarketValue);
    }
}

/// The lines on a position are named after what they say.
pub proof fn position_lines_are_named()
    ensures
        position_line_text(PositionLine::Account) == "Account"@,
        position_line_text(PositionLine::Shares) == "Shares"@,
        position_line_text(PositionLine::CostBasis) == "Cost basis"@,
        position_line_text(PositionLine::UnrealizedReturn) == "Unrealized return"@,
        position_line_text(PositionLine::RealizedGain) == "Realized gain"@,
        position_line_text(PositionLine::InvestmentReturn) == "Investment return"@,
        position_line_text(PositionLine::NativeMarketValue) == "Native market value"@,
{
}

/// The lines on a security tell its exchange, currency and symbol, and its type where it has
/// one.
pub proof fn security_lines_tell_the_type_if_known(
    exchange: Seq<char>,
    currency: Seq<char>,
    symbol: Seq<char>,
    asset_type: Seq<char>,
)
    ensures
        ({
            let lines = security_lines_of(exchange, currency, symbol, asset_type);
            &&& lines.len() == if text::trimmed(asset_type).len() == 0 {
                3int
            } else {
                4
            }
            &&& lines[0] == ("Exchange"@, wording::exchange_text(exchange))
            &&& lines[1] == ("Currency"@, currency)
            &&& lines[2] == ("Yahoo symbol"@, symbol)
            &&& lines.len() == 4 ==> lines[3] == ("Type"@, wording::asset_type_text(asset_type))
        }),
{
}

/// Dividends are fetched when asked for, when none were fetched before, and once those stored
/// are a day old.
pub proof fn dividends_are_fetched_once_a_day(fetched_at: i64, now: i64)
    requires
        fetched_at >= 0,
        now >= 0,
    ensures
        dividends_wanted(true, Some(fetched_at), now as int),
        dividends_wanted(false, None, now as int),
        dividends_wanted(false, Some(fetched_at), now as int) <==> now >= fetched_at + 24 * 60 * 60,
{
}

/// What the status says of dividends that are stored, and of those that are on their way.
pub proof fn dividend_status_follows_the_load(
    events: usize,
    error: Seq<char>,
)
    ensures
        dividend_load_status(true, true) == "Cached dividend history · updating"@,
        dividend_load_status(false, true) == "Loading dividend history"@,
        dividend_load_status(true, false) == "Trailing 12 months · estimated at current shares"@,
        dividend_load_status(false, false) == "No distributions found"@,
        events > 0 ==> dividend_end_status(Ok(events), true)
            == "Updated just now · estimated at current shares"@ && dividend_end_status(
            Ok(events),
            false,
        ) == "Updated just now · estimated at current shares"@,
        dividend_end_status(Ok(0), true) == "No distributions found"@,
        dividend_end_status(Ok(0), false) == "No distributions found"@,
        dividend_end_status(Err(error), true) == "Update failed · showing cached dividend history"@,
        dividend_end_status(Err(error), false) == error,
{
}

/// The trailing dividends are those of the last 366 days.
pub proof fn trailing_dividends_are_of_a_year(events: Seq<DividendEvent>, now: int, i: int)
    requires
        events.len() <= usize::MAX,
        0 <= i < events.len(),
        0 <= now <= i64::MAX,
    ensures
        order::selection(events.len() as int, in_last_year(events, now)).contains(i as usize)
            <==> now - 366 * 24 * 60 * 60 <= events[i].timestamp <= now,
{
    order::selection_lists_kept_positions(events.len() as int, in_last_year(events, now));
    assert(order::selection(events.len() as int, in_last_year(events, now)).contains(i as usize)
        <==> in_last_year(events, now)(i));
}

/// The list of dividends shows at most eight of them, the newest first, and none is left out
/// for an older one.
pub proof fn dividend_list_keeps_the_newest(events: Seq<DividendEvent>, i: int)
    requires
        events.len() <= usize::MAX,
        0 <= i < events.len(),
    ensures
        ({
            let list = order::at_most(
                order::arrangement(events.len() as int, |i: int| true, newest_events(events)),
                8,
            );
            &&& list.len() <= 8
            &&& list.no_duplicates()
            &&& !list.contains(i as usize) ==> list.len() == 8 && forall|k: int|
                0 <= k < 8 ==> events[#[trigger] list[k] as int].timestamp >= events[i].timestamp
            &&& forall|a: int, b: int|
                0 <= a < b < list.len() ==> events[#[trigger] list[a] as int].timestamp
                    >= events[#[trigger] list[b] as int].timestamp
        }),
{
    let n = events.len() as int;
    let keep = |i: int| true;
    let keys = newest_events(events);
    let all = order::arrangement(n, keep, keys);
    let list = order::at_most(all, 8);
    order::arrangement_sorts_kept_positions(n, keep, keys);
    assert(keep(i));
    assert(all.contains(i as usize));
    assert forall|k: int| 0 <= k < all.len() implies (#[trigger] all[k]) < n by {
        assert(all.contains(all[k]));
    }
    if !list.contains(i as usize) {
        let at = choose|k: int| 0 <= k < all.len() && all[k] == i as usize;
        if at < list.len() {
            assert(list[at] == all[at]);
        }
        assert forall|k: int| 0 <= k < 8 implies events[#[trigger] list[k] as int].timestamp
            >= events[i].timestamp by {
            assert(list[k] == all[k] && k < at);
        }
    }
    assert forall|a: int, b: int| 0 <= a < b < list.len() implies events[
    #[trigger] list[a] as int].timestamp >= events[#[trigger] list[b] as int].timestamp by {
        assert(list[a] == all[a] && list[b] == all[b]);
    }
}

} // verus!
