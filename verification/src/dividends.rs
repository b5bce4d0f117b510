//! The page of distributions: its periods, its months, and what it says.

use vstd::prelude::*;
use crate::calendar;
use crate::ledger;
use crate::ledger::ActivityKind;
use crate::model::{CashEntry, DividendEvent, Position, Transaction};
use crate::numbers;
use crate::order;
use crate::order::SortKey;
use crate::rates;
use crate::text;

verus! {

/// A calendar year: the current one, or an older one.
#[derive(Clone, Copy, Debug, PartialEq, Eq, Structural)]
pub enum DividendPeriod {
    Annual,
    Year(i32),
}

/// The periods to choose from: the current year, then every older year down to the
/// oldest.
pub open spec fn period_options(oldest: int, current: int) -> Seq<DividendPeriod> {
    if oldest < current {
        seq![DividendPeriod::Annual] + Seq::new(
            (current - oldest) as nat,
            |k: int| DividendPeriod::Year((current - 1 - k) as i32),
        )
    } else {
        seq![DividendPeriod::Annual]
    }
}

pub open spec fn period_at(options: Seq<DividendPeriod>, index: int) -> DividendPeriod {
    if 0 <= index < options.len() {
        options[index]
    } else {
        DividendPeriod::Annual
    }
}

/// No year is offered twice, and the current year only under its own name.
pub proof fn periods_are_distinct(oldest: int, current: int, a: int, b: int)
    requires
        i32::MIN <= oldest,
        current <= i32::MAX,
        0 <= a < b < period_options(oldest, current).len(),
    ensures
        period_options(oldest, current)[a] != period_options(oldest, current)[b],
        period_options(oldest, current)[b] != DividendPeriod::Year(current as i32),
        period_options(oldest, current)[0] == DividendPeriod::Annual,
{
    let options = period_options(oldest, current);
    assert(options[b] == DividendPeriod::Year((current - 1 - (b - 1)) as i32));
    if a > 0 {
        assert(options[a] == DividendPeriod::Year((current - 1 - (a - 1)) as i32));
    }
}

pub fn selected_dividend_period(options: &Vec<DividendPeriod>, selected: usize) -> (r: DividendPeriod)
    ensures
        r == period_at(options@, selected as int),
{
    if selected < options.len() {
        options[selected]
    } else {
        DividendPeriod::Annual
    }
}

/// The menu of periods.
pub struct PeriodMenu {
    pub options: Vec<DividendPeriod>,
    /// The options differ from those shown before.
    pub changed: bool,
    pub selected: usize,
    pub visible: bool,
}

/// The first place of a period among the options, or the first option.
pub open spec fn is_place_of(options: Seq<DividendPeriod>, period: DividendPeriod, at: int) -> bool {
    if options.contains(period) {
        0 <= at < options.len() && options[at] == period && forall|k: int|
            0 <= k < at ==> options[k] != period
    } else {
        at == 0
    }
}

/// Brings the menu up to date. The period that was chosen stays chosen if it is still
/// offered; with nothing to choose from the menu is hidden.
#[verifier::loop_isolation(false)]
pub fn sync_dividend_period_options(
    shown: &Vec<DividendPeriod>,
    selected: usize,
    oldest_year: i32,
    current_year: i32,
) -> (r: PeriodMenu)
    ensures
        r.options@ == period_options(oldest_year as int, current_year as int),
        r.changed == (shown@ != r.options@),
        is_place_of(r.options@, period_at(shown@, selected as int), r.selected as int),
        r.visible == (oldest_year < current_year),
{
    let mut options: Vec<DividendPeriod> = Vec::new();
    options.push(DividendPeriod::Annual);
    let mut year: i32 = current_year;
    while year > oldest_year
        invariant
            year <= current_year,
            year >= oldest_year || year == current_year,
            options@.len() == 1 + current_year - year,
            options@[0] == DividendPeriod::Annual,
            forall|k: int|
                1 <= k < options@.len() ==> #[trigger] options@[k] == DividendPeriod::Year(
                    (current_year - k) as i32,
                ),
        decreases year - oldest_year,
    {
        year = year - 1;
        options.push(DividendPeriod::Year(year));
    }
    assert(options@ =~= period_options(oldest_year as int, current_year as int));
    let previous = selected_dividend_period(shown, selected);
    let mut place: usize = 0;
    let mut found = false;
    let mut k: usize = 0;
    while k < options.len() && !found
        invariant
            k <= options@.len(),
            found ==> place < options@.len() && options@[place as int] == previous && forall|q: int|
                0 <= q < place ==> options@[q] != previous,
            !found ==> place == 0 && forall|q: int| 0 <= q < k ==> options@[q] != previous,
        decreases options@.len() - k, !found as int,
    {
        if options[k] == previous {
            found = true;
            place = k;
        }
        k += 1;
    }
    if found {
        assert(options@.contains(previous));
    }
    let mut same = shown.len() == options.len();
    let mut k: usize = 0;
    while same && k < options.len()
        invariant
            k <= options@.len(),
            same ==> shown@.len() == options@.len() && forall|q: int|
                0 <= q < k ==> shown@[q] == options@[q],
            !same ==> shown@ != options@,
        decreases options@.len() - k,
    {
        if shown[k] != options[k] {
            same = false;
        }
        k += 1;
    }
    if same {
        assert(shown@ =~= options@);
    }
    PeriodMenu { changed: !same, selected: place, visible: options.len() > 1, options }
}

pub open spec fn period_text(period: DividendPeriod) -> Seq<char> {
    match period {
        DividendPeriod::Annual => "Annual"@,
        DividendPeriod::Year(year) => numbers::integer_text(year as int),
    }
}

pub fn dividend_period_label(period: DividendPeriod) -> (r: String)
    ensures
        r@ == period_text(period),
{
    match period {
        DividendPeriod::Annual => "Annual".to_owned(),
        DividendPeriod::Year(year) => numbers::print_integer(year as i64),
    }
}

/// The year of a period.
pub fn period_year(period: DividendPeriod, current_year: i32) -> (r: i32)
    ensures
        r == match period {
            DividendPeriod::Annual => current_year,
            DividendPeriod::Year(year) => year,
        },
{
    match period {
        DividendPeriod::Annual => current_year,
        DividendPeriod::Year(year) => year,
    }
}

/// A trade that brought shares of a held security in.
pub open spec fn brings_in(t: Transaction, positions: Seq<Position>) -> bool {
    &&& exists|i: int|
        0 <= i < positions.len() && text::alike(
            (#[trigger] positions[i]).provider_symbol@,
            t.provider_symbol@,
        )
    &&& match ledger::kind_of(t.transaction_type@) {
        ActivityKind::Buy | ActivityKind::Open | ActivityKind::TransferIn => true,
        _ => false,
    }
}

/// The year of such a trade.
pub open spec fn brought_in_year(
    trades: Seq<Transaction>,
    positions: Seq<Position>,
    i: int,
    year: i32,
) -> bool {
    &&& 0 <= i < trades.len()
    &&& brings_in(trades[i], positions)
    &&& calendar::year_month(trades[i].timestamp as int) matches Some((y, _)) && y == year
}

fn is_held(symbol: &str, positions: &[Position]) -> (r: bool)
    ensures
        r == exists|i: int|
            0 <= i < positions@.len() && text::alike(
                (#[trigger] positions@[i]).provider_symbol@,
                symbol@,
            ),
{
    let mut i: usize = 0;
    while i < positions.len()
        invariant
            i <= positions@.len(),
            forall|k: int|
                0 <= k < i ==> !text::alike(
                    (#[trigger] positions@[k]).provider_symbol@,
                    symbol@,
                ),
        decreases positions@.len() - i,
    {
        if text::same_letters(positions[i].provider_symbol.as_str(), symbol) {
            return true;
        }
        i += 1;
    }
    false
}

/// The first year in which shares of a security still held came in, or the current one.
#[verifier::loop_isolation(false)]
pub fn oldest_holding_year(
    transactions: &[Transaction],
    positions: &[Position],
    current_year: i32,
) -> (r: i32)
    ensures
        forall|i: int, year: i32| #[trigger]
            brought_in_year(transactions@, positions@, i, year) ==> r <= year,
        (exists|i: int| #[trigger] brought_in_year(transactions@, positions@, i, r)) || r
            == current_year && !(exists|i: int, year: i32| #[trigger]
            brought_in_year(transactions@, positions@, i, year)),
{
    let mut oldest: Option<i32> = None;
    let mut i: usize = 0;
    while i < transactions.len()
        invariant
            i <= transactions@.len(),
            match oldest {
                Some(y) => (exists|k: int| #[trigger]
                    brought_in_year(transactions@, positions@, k, y)) && forall|k: int, year: i32|
                    k < i && #[trigger] brought_in_year(transactions@, positions@, k, year) ==> y
                        <= year,
                None => forall|k: int, year: i32|
                    k < i ==> !#[trigger] brought_in_year(transactions@, positions@, k, year),
            },
        decreases transactions@.len() - i,
    {
        let t = &transactions[i];
        let kind = ledger::activity_kind(t.transaction_type.as_str());
        let comes_in = kind == ActivityKind::Buy || kind == ActivityKind::Open || kind
            == ActivityKind::TransferIn;
        let year = calendar::timestamp_year_month(t.timestamp);
        let counts = comes_in && is_held(t.provider_symbol.as_str(), positions);
        assert(counts == brings_in(transactions@[i as int], positions@));
        let ghost earlier = oldest;
        match year {
            Some((y, _)) => {
                if counts {
                    assert(brought_in_year(transactions@, positions@, i as int, y));
                    oldest = match oldest {
                        Some(o) => if o <= y {
                            Some(o)
                        } else {
                            Some(y)
                        },
                        None => Some(y),
                    };
                }
            },
            None => {},
        }
        proof {
            assert forall|k: int, y: i32|
                k < i + 1 && #[trigger] brought_in_year(transactions@, positions@, k, y) implies (
            oldest matches Some(o) && o <= y) by {
                if k < i {
                    assert(earlier matches Some(o) && o <= y);
                } else {
                    assert(k == i);
                    assert(counts);
                    assert(year matches Some((z, _)) && z == y);
                }
            }
        }
        i += 1;
    }
    match oldest {
        Some(y) => y,
        None => current_year,
    }
}

/// The last second of a year, from which the forecast of that year ends.
pub open spec fn last_second(year: int, now: int) -> int {
    let start = match calendar::read_timestamp(numbers::integer_text(year) + "-12-31"@) {
        Some(timestamp) => timestamp,
        None => now,
    };
    numbers::saturated(start + 86_399)
}

pub fn year_end(current_year: i32, now: i64) -> (r: i64)
    ensures
        r == last_second(current_year as int, now as int),
{
    let mut date = numbers::print_integer(current_year as i64);
    date.append("-12-31");
    let start: i64 = match calendar::parse_trade_date(date.as_str()) {
        Ok(timestamp) => timestamp,
        Err(_) => now,
    };
    numbers::saturating_sum(start, 86_399)
}

/// The month of the current year that a forecast falls into, if it falls into that year.
pub fn forecast_month(timestamp: i64, current_year: i32) -> (r: Option<u32>)
    ensures
        r == match calendar::year_month(timestamp as int) {
            Some((year, month)) if year == current_year => Some(month),
            _ => None,
        },
{
    match calendar::timestamp_year_month(timestamp) {
        Some((year, month)) => if year == current_year {
            Some(month)
        } else {
            None
        },
        None => None,
    }
}

/// The headline over the year: the total; the total and a plus sign where amounts are
/// missing from it; or a dash where nothing is known.
pub open spec fn income_headline(total: Seq<char>, complete: bool, positive: bool) -> Seq<char> {
    if complete {
        total
    } else if positive {
        total + "+"@
    } else {
        "—"@
    }
}

pub fn dividend_income_text(total: &str, complete: bool, positive: bool) -> (r: String)
    ensures
        r@ == income_headline(total@, complete, positive),
{
    if complete {
        total.to_owned()
    } else if positive {
        let mut r = total.to_owned();
        r.append("+");
        r
    } else {
        "—".to_owned()
    }
}

/// The yield of the year and its monthly average, where they are known.
pub open spec fn yield_line(percent: Option<Seq<char>>, monthly: Option<Seq<char>>) -> Seq<char> {
    let left = match percent {
        Some(percent) => percent + "% yield"@,
        None => "— yield"@,
    };
    let right = match monthly {
        Some(monthly) => monthly + " avg/mo"@,
        None => "—/mo"@,
    };
    left + " · "@ + right
}

/// The line under the headline. The yield counts only where the income of the year is
/// complete and the portfolio has a value, and the average only where the income is.
pub fn dividend_yield_text(percent: Option<&str>, monthly: &str, complete: bool) -> (r: String)
    ensures
        r@ == if complete {
            yield_line(crate::charts::text_view(percent), Some(monthly@))
        } else {
            yield_line(None, None)
        },
{
    if !complete {
        let mut r = "— yield".to_owned();
        r.append(" · ");
        r.append("—/mo");
        return r;
    }
    let mut r = match percent {
        Some(percent) => {
            let mut t = percent.to_owned();
            t.append("% yield");
            t
        },
        None => "— yield".to_owned(),
    };
    r.append(" · ");
    let mut t = monthly.to_owned();
    t.append(" avg/mo");
    r.append(t.as_str());
    r
}

/// What is said in place of the bars of a year: nothing where there are bars.
pub open spec fn bars_message(any_positive: bool, fetched: int, holdings: int) -> Option<Seq<char>> {
    if any_positive {
        None
    } else if fetched == holdings {
        Some("No distributions while held in this period"@)
    } else {
        Some("Checking dividend history"@)
    }
}

pub fn dividend_chart_message(any_positive: bool, fetched: usize, holdings: usize) -> (r: Option<
    &'static str,
>)
    ensures
        crate::charts::label_view(r) == bars_message(any_positive, fetched as int, holdings as int),
{
    if any_positive {
        None
    } else if fetched == holdings {
        Some("No distributions while held in this period")
    } else {
        Some("Checking dividend history")
    }
}

/// The line under the chart.
pub open spec fn status_note(
    period: DividendPeriod,
    current_year: int,
    fetched: int,
    holdings: int,
    found_any: bool,
    complete: bool,
) -> Seq<char> {
    let about = match period {
        DividendPeriod::Annual => numbers::integer_text(current_year) + " · received + estimated"@,
        DividendPeriod::Year(_) => "Received while held"@,
    };
    let note = if fetched < holdings {
        about + " · updating cached dividend data"@
    } else if found_any {
        about
    } else {
        "No distributions found"@
    };
    if complete {
        note
    } else {
        note + " · unsupported currencies excluded from totals"@
    }
}

pub fn dividend_status_note(
    period: DividendPeriod,
    current_year: i32,
    fetched: usize,
    holdings: usize,
    found_any: bool,
    complete: bool,
) -> (r: String)
    ensures
        r@ == status_note(
            period,
            current_year as int,
            fetched as int,
            holdings as int,
            found_any,
            complete,
        ),
{
    let mut note = if fetched >= holdings && !found_any {
        "No distributions found".to_owned()
    } else {
        let mut about = match period {
            DividendPeriod::Annual => {
                let mut t = numbers::print_integer(current_year as i64);
                t.append(" · received + estimated");
                t
            },
            DividendPeriod::Year(_) => "Received while held".to_owned(),
        };
        if fetched < holdings {
            about.append(" · updating cached dividend data");
        }
        about
    };
    if !complete {
        note.append(" · unsupported currencies excluded from totals");
    }
    note
}

pub open spec fn in_year(times: Seq<i64>, year: i32) -> spec_fn(int) -> bool {
    |i: int|
        calendar::year_month(times[i] as int) matches Some((y, _)) && y == year
}

pub open spec fn newest_first(times: Seq<i64>) -> spec_fn(int) -> SortKey {
    |i: int| SortKey { first: -(times[i] as int) as i128, second: 0, third: 0 }
}

/// The distributions shown for a year: the newest sixteen, the newest first.
#[verifier::loop_isolation(false)]
pub fn recent_distributions(times: &Vec<i64>, year: i32) -> (r: Vec<usize>)
    ensures
        r@ == order::at_most(
            order::arrangement(times@.len() as int, in_year(times@, year), newest_first(times@)),
            16,
        ),
{
    let mut keep: Vec<bool> = Vec::new();
    let mut keys: Vec<SortKey> = Vec::new();
    let mut i: usize = 0;
    while i < times.len()
        invariant
            i <= times@.len(),
            keep@.len() == i,
            keys@.len() == i,
            forall|k: int| 0 <= k < i ==> #[trigger] keep@[k] == in_year(times@, year)(k),
            forall|k: int| 0 <= k < i ==> #[trigger] keys@[k] == newest_first(times@)(k),
        decreases times@.len() - i,
    {
        let kept = match calendar::timestamp_year_month(times[i]) {
            Some((y, _)) => y == year,
            None => false,
        };
        keep.push(kept);
        keys.push(SortKey { first: -(times[i] as i128), second: 0, third: 0 });
        i += 1;
    }
    let order = order::arrange(&keep, &keys);
    proof {
        order::is_arrangement(
            order@,
            times@.len() as int,
            |i: int| keep@[i],
            |i: int| keys@[i],
            in_year(times@, year),
            newest_first(times@),
        );
    }
    order::first_of(&order, 16)
}

pub open spec fn gone_by(events: Seq<DividendEvent>, now: int) -> spec_fn(int) -> bool {
    |i: int| events[i].timestamp <= now
}

pub open spec fn oldest_first(events: Seq<DividendEvent>) -> spec_fn(int) -> SortKey {
    |i: int| SortKey { first: events[i].timestamp as i128, second: 0, third: 0 }
}

/// The distributions of a security up to now, the oldest first. Those for which shares
/// were held count as received.
#[verifier::loop_isolation(false)]
pub fn past_distributions(events: &[DividendEvent], now: i64) -> (r: Vec<usize>)
    ensures
        r@ == order::arrangement(
            events@.len() as int,
            gone_by(events@, now as int),
            oldest_first(events@),
        ),
{
    let mut keep: Vec<bool> = Vec::new();
    let mut keys: Vec<SortKey> = Vec::new();
    let mut i: usize = 0;
    while i < events.len()
        invariant
            i <= events@.len(),
            keep@.len() == i,
            keys@.len() == i,
            forall|k: int| 0 <= k < i ==> #[trigger] keep@[k] == gone_by(events@, now as int)(k),
            forall|k: int| 0 <= k < i ==> #[trigger] keys@[k] == oldest_first(events@)(k),
        decreases events@.len() - i,
    {
        keep.push(events[i].timestamp <= now);
        keys.push(SortKey { first: events[i].timestamp as i128, second: 0, third: 0 });
        i += 1;
    }
    let r = order::arrange(&keep, &keys);
    proof {
        order::is_arrangement(
            r@,
            events@.len() as int,
            |i: int| keep@[i],
            |i: int| keys@[i],
            gone_by(events@, now as int),
            oldest_first(events@),
        );
    }
    r
}

/// What the bar of a month is made of: received distributions, and forecast ones.
pub struct MonthBucket {
    pub received: Vec<usize>,
    pub forecast: Vec<usize>,
}

pub open spec fn in_month(times: Seq<i64>, year: i32, month: int) -> spec_fn(int) -> bool {
    |i: int| calendar::year_month(times[i] as int) == Some((year, month as u32))
}

/// Only the current year has a forecast.
pub open spec fn forecast_in_month(
    times: Seq<i64>,
    year: i32,
    current_year: i32,
    month: int,
) -> spec_fn(int) -> bool {
    |i: int|
        year == current_year && calendar::year_month(times[i] as int) == Some((year, month as u32))
}

#[verifier::loop_isolation(false)]
fn pick_month(times: &Vec<i64>, year: i32, month: u32) -> (r: Vec<usize>)
    ensures
        r@ == order::selection(times@.len() as int, in_month(times@, year, month as int)),
{
    let mut keep: Vec<bool> = Vec::new();
    let mut i: usize = 0;
    while i < times.len()
        invariant
            i <= times@.len(),
            keep@.len() == i,
            forall|k: int| 0 <= k < i ==> #[trigger] keep@[k] == in_month(times@, year, month as int)(k),
        decreases times@.len() - i,
    {
        keep.push(
            match calendar::timestamp_year_month(times[i]) {
                Some((y, m)) => y == year && m == month,
                None => false,
            },
        );
        i += 1;
    }
    let r = order::select(&keep);
    proof {
        order::is_selection(
            r@,
            times@.len() as int,
            |i: int| keep@[i],
            in_month(times@, year, month as int),
        );
    }
    r
}

fn no_places(times: &Vec<i64>, year: i32, current_year: i32, month: u32) -> (r: Vec<usize>)
    requires
        year != current_year,
    ensures
        r@ == order::selection(
            times@.len() as int,
            forecast_in_month(times@, year, current_year, month as int),
        ),
{
    let r: Vec<usize> = Vec::new();
    proof {
        order::is_selection(
            r@,
            times@.len() as int,
            |i: int| false,
            forecast_in_month(times@, year, current_year, month as int),
        );
    }
    r
}

/// The twelve months of a year, January first: the distributions that each of them holds.
/// Received ones are named by their places in one list, forecast ones by those in another.
#[verifier::loop_isolation(false)]
pub fn month_buckets(
    received: &Vec<i64>,
    forecast: &Vec<i64>,
    year: i32,
    current_year: i32,
) -> (r: Vec<MonthBucket>)
    ensures
        r@.len() == 12,
        forall|m: int|
            0 <= m < 12 ==> (#[trigger] r@[m]).received@ == order::selection(
                received@.len() as int,
                in_month(received@, year, m + 1),
            ),
        forall|m: int|
            0 <= m < 12 ==> (#[trigger] r@[m]).forecast@ == order::selection(
                forecast@.len() as int,
                forecast_in_month(forecast@, year, current_year, m + 1),
            ),
{
    let mut r: Vec<MonthBucket> = Vec::new();
    let mut month: u32 = 1;
    while month <= 12
        invariant
            1 <= month <= 13,
            r@.len() == month - 1,
            forall|m: int|
                0 <= m < month - 1 ==> (#[trigger] r@[m]).received@ == order::selection(
                    received@.len() as int,
                    in_month(received@, year, m + 1),
                ),
            forall|m: int|
                0 <= m < month - 1 ==> (#[trigger] r@[m]).forecast@ == order::selection(
                    forecast@.len() as int,
                    forecast_in_month(forecast@, year, current_year, m + 1),
                ),
        decreases 13 - month,
    {
        let paid = pick_month(received, year, month);
        let expected = if year == current_year {
            let picked = pick_month(forecast, year, month);
            proof {
                assert(in_month(forecast@, year, month as int) =~= forecast_in_month(
                    forecast@,
                    year,
                    current_year,
                    month as int,
                ));
            }
            picked
        } else {
            no_places(forecast, year, current_year, month)
        };
        r.push(MonthBucket { received: paid, forecast: expected });
        month += 1;
    }
    r
}

/// A distribution of the year stands in one month of it and in no other, so that the sum
/// of the bars is the sum of the year.
pub proof fn distribution_has_one_month(times: Seq<i64>, year: i32, i: int)
    requires
        0 <= i < times.len(),
        in_year(times, year)(i),
    ensures
        exists|m: int| 1 <= m <= 12 && #[trigger] in_month(times, year, m)(i),
        forall|a: int, b: int|
            1 <= a <= 12 && 1 <= b <= 12 && #[trigger] in_month(times, year, a)(i) && #[trigger]
            in_month(times, year, b)(i) ==> a == b,
{
    let n = times[i] as int / 86_400;
    calendar::every_day_is_dated(n);
    let m = calendar::civil(n).1;
    assert(in_month(times, year, m)(i));
}

/// A year that is over has no forecast.
pub proof fn past_years_have_no_forecast(
    times: Seq<i64>,
    year: i32,
    current_year: i32,
    month: int,
    i: int,
)
    requires
        year != current_year,
    ensures
        !forecast_in_month(times, year, current_year, month)(i),
{
}

/// The title of a distribution that was received.
/// Every distribution of a year can be converted by the current rate: each that was
/// received, and in the current year each that is forecast too.
pub open spec fn income_is_complete(
    received: Seq<i64>,
    received_currencies: Seq<String>,
    forecast: Seq<i64>,
    forecast_currencies: Seq<String>,
    year: i32,
    current_year: i32,
    base: Seq<char>,
    current: Option<bool>,
) -> bool {
    &&& forall|i: int|
        0 <= i < received.len() && #[trigger] in_year(received, year)(i)
            ==> rates::current_conversion(received_currencies[i]@, base, current) is Some
    &&& year == current_year ==> forall|i: int|
        0 <= i < forecast.len() && #[trigger] in_year(forecast, year)(i)
            ==> rates::current_conversion(forecast_currencies[i]@, base, current) is Some
}

fn all_convert_in_year(
    times: &Vec<i64>,
    currencies: &Vec<String>,
    year: i32,
    base: &str,
    current: Option<bool>,
) -> (r: bool)
    requires
        times@.len() == currencies@.len(),
    ensures
        r == forall|i: int|
            0 <= i < times@.len() && #[trigger] in_year(times@, year)(i)
                ==> rates::current_conversion(currencies@[i]@, base@, current) is Some,
{
    let mut i: usize = 0;
    while i < times.len()
        invariant
            i <= times@.len(),
            times@.len() == currencies@.len(),
            forall|k: int|
                0 <= k < i && #[trigger] in_year(times@, year)(k) ==> rates::current_conversion(
                    currencies@[k]@,
                    base@,
                    current,
                ) is Some,
        decreases times@.len() - i,
    {
        let within = match calendar::timestamp_year_month(times[i]) {
            Some((y, _)) => y == year,
            None => false,
        };
        assert(within == in_year(times@, year)(i as int));
        if within && rates::report_convert_at(
            currencies[i].as_str(),
            base,
            None,
            0,
            current,
        ).is_none() {
            return false;
        }
        i += 1;
    }
    true
}

/// The income of a year is complete unless a distribution in it cannot be converted.
pub fn year_is_complete(
    received: &Vec<i64>,
    received_currencies: &Vec<String>,
    forecast: &Vec<i64>,
    forecast_currencies: &Vec<String>,
    year: i32,
    current_year: i32,
    base: &str,
    current: Option<bool>,
) -> (r: bool)
    requires
        received@.len() == received_currencies@.len(),
        forecast@.len() == forecast_currencies@.len(),
    ensures
        r == income_is_complete(
            received@,
            received_currencies@,
            forecast@,
            forecast_currencies@,
            year,
            current_year,
            base@,
            current,
        ),
{
    all_convert_in_year(received, received_currencies, year, base, current) && (year
        != current_year || all_convert_in_year(forecast, forecast_currencies, year, base, current))
}

/// The income of a year is complete exactly where every distribution in one of its twelve
/// months can be converted, so that the headline rests on the same amounts as the bars.
pub proof fn headline_rests_on_the_months(
    received: Seq<i64>,
    received_currencies: Seq<String>,
    forecast: Seq<i64>,
    forecast_currencies: Seq<String>,
    year: i32,
    current_year: i32,
    base: Seq<char>,
    current: Option<bool>,
)
    ensures
        income_is_complete(
            received,
            received_currencies,
            forecast,
            forecast_currencies,
            year,
            current_year,
            base,
            current,
        ) <==> {
            &&& forall|m: int, i: int|
                1 <= m <= 12 && 0 <= i < received.len() && #[trigger] in_month(
                    received,
                    year,
                    m,
                )(i) ==> rates::current_conversion(received_currencies[i]@, base, current) is Some
            &&& forall|m: int, i: int|
                1 <= m <= 12 && 0 <= i < forecast.len() && #[trigger] forecast_in_month(
                    forecast,
                    year,
                    current_year,
                    m,
                )(i) ==> rates::current_conversion(forecast_currencies[i]@, base, current) is Some
        },
{
    let complete = income_is_complete(
        received,
        received_currencies,
        forecast,
        forecast_currencies,
        year,
        current_year,
        base,
        current,
    );
    if complete {
        assert forall|m: int, i: int|
            1 <= m <= 12 && 0 <= i < received.len() && #[trigger] in_month(received, year, m)(
                i,
            ) implies rates::current_conversion(received_currencies[i]@, base, current) is Some by {
            assert(in_year(received, year)(i));
        }
        assert forall|m: int, i: int|
            1 <= m <= 12 && 0 <= i < forecast.len() && #[trigger] forecast_in_month(
                forecast,
                year,
                current_year,
                m,
            )(i) implies rates::current_conversion(forecast_currencies[i]@, base, current) is Some by {
            assert(in_year(forecast, year)(i));
        }
    }
    if forall|m: int, i: int|
        1 <= m <= 12 && 0 <= i < received.len() && #[trigger] in_month(received, year, m)(i)
            ==> rates::current_conversion(received_currencies[i]@, base, current) is Some {
        assert forall|i: int|
            0 <= i < received.len() && #[trigger] in_year(received, year)(
                i,
            ) implies rates::current_conversion(received_currencies[i]@, base, current) is Some by {
            distribution_has_one_month(received, year, i);
            let m = choose|m: int| 1 <= m <= 12 && #[trigger] in_month(received, year, m)(i);
            assert(in_month(received, year, m)(i));
        }
    }
    if year == current_year && forall|m: int, i: int|
        1 <= m <= 12 && 0 <= i < forecast.len() && #[trigger] forecast_in_month(
            forecast,
            year,
            current_year,
            m,
        )(i) ==> rates::current_conversion(forecast_currencies[i]@, base, current) is Some {
        assert forall|i: int|
            0 <= i < forecast.len() && #[trigger] in_year(forecast, year)(
                i,
            ) implies rates::current_conversion(forecast_currencies[i]@, base, current) is Some by {
            distribution_has_one_month(forecast, year, i);
            let m = choose|m: int| 1 <= m <= 12 && #[trigger] in_month(forecast, year, m)(i);
            assert(forecast_in_month(forecast, year, current_year, m)(i));
        }
    }
}

pub fn distribution_title(code: &str, timestamp: i64) -> (r: String)
    ensures
        r@ == code@ + " · "@ + calendar::distribution_date_text(timestamp as int),
{
    let mut r = code.to_owned();
    r.append(" · ");
    r.append(calendar::format_distribution_date(timestamp).as_str());
    r
}

pub fn distribution_subtitle(name: &str, per_share: &str) -> (r: String)
    ensures
        r@ == name@ + " · "@ + per_share@ + " per share"@,
{
    let mut r = name.to_owned();
    r.append(" · ");
    r.append(per_share);
    r.append(" per share");
    r
}

/// What a distribution was worth, where that is known in the base currency.
pub fn distribution_value(value: Option<&str>) -> (r: String)
    ensures
        r@ == match crate::charts::text_view(value) {
            Some(value) => "≈ "@ + value,
            None => "Native currency"@,
        },
{
    match value {
        Some(value) => {
            let mut r = "≈ ".to_owned();
            r.append(value);
            r
        },
        None => "Native currency".to_owned(),
    }
}

/// The cash that distributions of a year have paid.
pub open spec fn paid_in_year(cash: Seq<CashEntry>, year: i32) -> spec_fn(int) -> bool {
    |i: int|
        cash[i].kind@ == "DIVIDEND"@ && (calendar::year_month(cash[i].occurred_at as int) matches Some(
            (y, _),
        ) && y == year)
}

#[verifier::loop_isolation(false)]
pub fn paid_dividends(cash_entries: &[CashEntry], year: i32) -> (r: Vec<usize>)
    ensures
        r@ == order::selection(cash_entries@.len() as int, paid_in_year(cash_entries@, year)),
{
    let mut keep: Vec<bool> = Vec::new();
    let mut i: usize = 0;
    while i < cash_entries.len()
        invariant
            i <= cash_entries@.len(),
            keep@.len() == i,
            forall|k: int| 0 <= k < i ==> #[trigger] keep@[k] == paid_in_year(cash_entries@, year)(k),
        decreases cash_entries@.len() - i,
    {
        let c = &cash_entries[i];
        let kept = match calendar::timestamp_year_month(c.occurred_at) {
            Some((y, _)) => y == year,
            None => false,
        };
        keep.push(text::same_text(c.kind.as_str(), "DIVIDEND") && kept);
        i += 1;
    }
    let r = order::select(&keep);
    proof {
        order::is_selection(
            r@,
            cash_entries@.len() as int,
            |i: int| keep@[i],
            paid_in_year(cash_entries@, year),
        );
    }
    r
}

/// The source that the description of a payment names.
pub open spec fn payment_source(description: Seq<char>) -> Seq<char> {
    if text::first_word(description).len() == 0 {
        text::uppercase("Dividend"@)
    } else {
        text::uppercase(text::first_word(description))
    }
}

pub fn dividend_source(description: &str) -> (r: String)
    ensures
        r@ == payment_source(description@),
{
    let chars = text::chars_of(description);
    let mut from: usize = 0;
    while from < chars.len() && text::is_blank(chars[from])
        invariant
            from <= chars@.len(),
            forall|k: int| 0 <= k < from ==> text::blank(chars@[k]),
        decreases chars@.len() - from,
    {
        from += 1;
    }
    let mut to: usize = from;
    while to < chars.len() && !text::is_blank(chars[to])
        invariant
            from <= to <= chars@.len(),
            forall|k: int| from <= k < to ==> !text::blank(chars@[k]),
        decreases chars@.len() - to,
    {
        to += 1;
    }
    proof {
        text::trim_front_skips(chars@, from as int);
        let rest = chars@.skip(from as int);
        text::up_to_blank_is(rest, to - from);
        assert(rest.take(to - from) =~= chars@.subrange(from as int, to as int));
    }
    if from == to {
        text::to_upper("Dividend")
    } else {
        text::to_upper(text::text_of(&chars, from, to).as_str())
    }
}

/// The position whose code is the source of a payment.
pub open spec fn is_named(positions: Seq<Position>, source: Seq<char>, i: int) -> bool {
    &&& 0 <= i < positions.len()
    &&& text::alike(positions[i].code@, source)
    &&& forall|k: int| 0 <= k < i ==> !text::alike((#[trigger] positions[k]).code@, source)
}

/// The line under the source of a payment: the name of the security held under that
/// code.
pub fn dividend_source_name(positions: &[Position], source: &str) -> (r: String)
    ensures
        (exists|i: int| #[trigger] is_named(positions@, source@, i) && r@ == positions@[i].name@
            + " total"@) || r@ == "Dividend source"@ + " total"@ && forall|i: int|
            0 <= i < positions@.len() ==> !text::alike((#[trigger] positions@[i]).code@, source@),
{
    let mut i: usize = 0;
    while i < positions.len()
        invariant
            i <= positions@.len(),
            forall|k: int| 0 <= k < i ==> !text::alike((#[trigger] positions@[k]).code@, source@),
        decreases positions@.len() - i,
    {
        if text::same_letters(positions[i].code.as_str(), source) {
            let mut r = positions[i].name.clone();
            r.append(" total");
            assert(is_named(positions@, source@, i as int));
            return r;
        }
        i += 1;
    }
    let mut r = "Dividend source".to_owned();
    r.append(" total");
    r
}

/// The months in which payments fall, as numbers that count up month by month.
pub open spec fn month_codes(times: Seq<i64>, code: i64) -> bool {
    exists|i: int|
        0 <= i < times.len() && (calendar::year_month((#[trigger] times[i]) as int) matches Some(
            (year, month),
        ) && code == year * 12 + month - 1)
}

/// The months in which payments fall, the latest first, each once.
pub open spec fn lists_months(months: Seq<i64>, times: Seq<i64>) -> bool {
    &&& forall|a: int, b: int| 0 <= a < b < months.len() ==> months[a] > months[b]
    &&& forall|code: i64| #[trigger] months.contains(code) <==> month_codes(times, code)
}

/// The months whose sums are shown: the latest four in which payments fall.
pub fn summary_months(times: &Vec<i64>) -> (r: Vec<i64>)
    ensures
        exists|months: Seq<i64>| #[trigger]
            lists_months(months, times@) && r@ == order::at_most(months, 4),
{
    let mut r = months_of_payments(times);
    let ghost months = r@;
    if r.len() > 4 {
        r.truncate(4);
    }
    assert(lists_months(months, times@) && r@ == order::at_most(months, 4));
    r
}

#[verifier::loop_isolation(false)]
fn months_of_payments(times: &Vec<i64>) -> (r: Vec<i64>)
    ensures
        lists_months(r@, times@),
{
    let mut codes: Vec<i64> = Vec::new();
    let mut i: usize = 0;
    while i < times.len()
        invariant
            i <= times@.len(),
            forall|a: int| 0 <= a < codes@.len() ==> month_codes(times@, #[trigger] codes@[a]),
            forall|k: int|
                0 <= k < i ==> (calendar::year_month((#[trigger] times@[k]) as int) matches Some(
                    (year, month),
                ) ==> codes@.contains((year * 12 + month - 1) as i64)),
        decreases times@.len() - i,
    {
        match calendar::timestamp_year_month(times[i]) {
            Some((year, month)) => {
                let ghost before = codes@;
                let code: i64 = year as i64 * 12 + month as i64 - 1;
                codes.push(code);
                proof {
                    assert(month_codes(times@, code));
                    assert(codes@[before.len() as int] == code);
                    assert forall|v: i64| before.contains(v) implies codes@.contains(v) by {
                        let q = choose|q: int| 0 <= q < before.len() && before[q] == v;
                        assert(codes@[q] == v);
                    }
                }
            },
            None => {},
        }
        i += 1;
    }
    let up = order::ascending_distinct(&codes);
    proof {
        assert forall|code: i64| #[trigger] up@.contains(code) <==> month_codes(times@, code) by {
            assert(up@.contains(code) == codes@.contains(code));
            if codes@.contains(code) {
                let a = choose|a: int| 0 <= a < codes@.len() && codes@[a] == code;
                assert(month_codes(times@, codes@[a]));
            }
        }
    }
    let mut r: Vec<i64> = Vec::new();
    let mut n: usize = up.len();
    while n > 0
        invariant
            n <= up@.len(),
            r@.len() + n == up@.len(),
            forall|a: int| 0 <= a < r@.len() ==> #[trigger] r@[a] == up@[up@.len() - 1 - a],
        decreases n,
    {
        n -= 1;
        r.push(up[n]);
    }
    proof {
        assert forall|code: i64| #[trigger] r@.contains(code) <==> month_codes(times@, code) by {
            if r@.contains(code) {
                let a = choose|a: int| 0 <= a < r@.len() && r@[a] == code;
                assert(up@[up@.len() - 1 - a] == code);
                assert(up@.contains(code));
            }
            if up@.contains(code) {
                let a = choose|a: int| 0 <= a < up@.len() && up@[a] == code;
                assert(r@[up@.len() - 1 - a] == code);
            }
        }
    }
    r
}

/// The title of a month's sum, such as `Feb 2024`.
pub fn summary_month_title(code: i64) -> (r: String)
    ensures
        r@ == calendar::month_text(code as int % 12 + 1) + " "@ + numbers::integer_text(
            code as int / 12,
        ),
{
    let year: i64 = if code >= 0 {
        code / 12
    } else {
        -((-(code + 1)) / 12) - 1
    };
    assert(year == code as int / 12);
    assert(code - 12 < year * 12 <= code);
    let month: i128 = code as i128 - year as i128 * 12;
    let mut r = calendar::month_name((month + 1) as u32).to_owned();
    r.append(" ");
    r.append(numbers::print_integer(year).as_str());
    r
}

/// The menu of periods offers the current year as a whole and each year from the oldest up to
/// the one before it, the newest first.
pub proof fn menu_offers_the_years_held(oldest: int, current: int, year: i32)
    requires
        i32::MIN <= oldest,
        current <= i32::MAX,
    ensures
        ({
            let options = period_options(oldest, current);
            &&& options.contains(DividendPeriod::Annual)
            &&& options.contains(DividendPeriod::Year(year)) <==> oldest <= year < current
            &&& forall|a: int, b: int|
                0 <= a < b < options.len() && (#[trigger] options[a]) is Year && (
                #[trigger] options[b]) is Year ==> options[a]->0 > options[b]->0
        }),
{
    let options = period_options(oldest, current);
    assert(options[0] == DividendPeriod::Annual);
    if oldest <= year < current {
        assert(options[current - year] == DividendPeriod::Year(year));
    }
}

/// Only a purchase, an opening position or a transfer in of a security that is still held
/// counts for the oldest year, and it counts from the day that it is recorded on.
pub proof fn oldest_year_counts_what_came_in(
    trades: Seq<Transaction>,
    positions: Seq<Position>,
    i: int,
    year: i32,
)
    requires
        0 <= i < trades.len(),
        i32::MIN <= calendar::civil(trades[i].timestamp as int / 86_400).0 <= i32::MAX,
    ensures
        brought_in_year(trades, positions, i, year) <==> {
            let kind = trades[i].transaction_type@;
            &&& kind == "BUY"@ || kind == "OPEN"@ || kind == "TRANSFER_IN"@
            &&& exists|p: int|
                0 <= p < positions.len() && text::alike(
                    (#[trigger] positions[p]).provider_symbol@,
                    trades[i].provider_symbol@,
                )
            &&& trades[i].timestamp > 0
            &&& calendar::day_number(year as int, 1, 1) <= trades[i].timestamp as int / 86_400
            &&& trades[i].timestamp as int / 86_400 < calendar::day_number(year + 1, 1, 1)
        },
{
    ledger::kinds_by_name();
    year_holds_its_days(trades[i].timestamp as int, year);
}

proof fn year_holds_its_days(timestamp: int, year: i32)
    requires
        i32::MIN <= calendar::civil(timestamp / 86_400).0 <= i32::MAX,
    ensures
        (calendar::year_month(timestamp) matches Some((y, _)) && y == year) <==> timestamp > 0
            && calendar::day_number(year as int, 1, 1) <= timestamp / 86_400 < calendar::day_number(
            year + 1,
            1,
            1,
        ),
{
    let n = timestamp / 86_400;
    calendar::every_day_is_dated(n);
    let (y, m, d) = calendar::civil(n);
    calendar::days_are_counted_one_by_one(y, m, d);
    calendar::days_are_counted_one_by_one(y, 12, 31);
    assert(calendar::valid_date(y, 1, 1) && calendar::valid_date(y, 12, 31));
    assert(calendar::valid_date(year as int, 1, 1) && calendar::valid_date(year + 1, 1, 1));
    assert(calendar::valid_date(y + 1, 1, 1));
    if y < year {
        calendar::dates_are_ordered(y, m, d, year as int, 1, 1);
    }
    if y > year {
        if y > year + 1 || m > 1 || d > 1 {
            calendar::dates_are_ordered(year + 1, 1, 1, y, m, d);
        }
    }
    if y == year {
        if m > 1 || d > 1 {
            calendar::dates_are_ordered(y, 1, 1, y, m, d);
        }
        calendar::dates_are_ordered(y, m, d, y + 1, 1, 1);
    }
}

/// A year ends one second before the next one begins.
pub proof fn year_ends_before_the_next(year: int, now: int)
    requires
        0 <= year <= 9999,
    ensures
        last_second(year, now) + 1 == calendar::day_number(year + 1, 1, 1) * 86_400,
{
    let a = numbers::integer_text(year);
    let b = "12"@;
    let c = "31"@;
    numbers::printed_integer_reads_back(year);
    numbers::printed_integer_is_plain(year);
    reveal_strlit("12");
    reveal_strlit("31");
    reveal_strlit("-");
    reveal_strlit("-12-31");
    numbers::digits_spell_numbers(seq!['1'], '2', false);
    numbers::digits_spell_numbers(seq!['3'], '1', false);
    numbers::digits_spell_numbers(seq!['3'], '3', false);
    numbers::digits_spell_numbers(seq!['1'], '1', false);
    assert(b =~= seq!['1'].push('2'));
    assert(c =~= seq!['3'].push('1'));
    assert(a + "-12-31"@ =~= a + "-"@ + b + "-"@ + c);
    assert(calendar::valid_date(year, 12, 31));
    calendar::three_numbers_are_a_date(a, b, c, year, 12, 31);
    calendar::days_are_counted_one_by_one(year, 12, 31);
    calendar::day_number_bounds(year, 12, 31);
}

/// A total that lacks a part is marked with a plus, and is not shown where nothing of it is
/// known.
pub proof fn partial_income_is_marked(total: Seq<char>, positive: bool)
    ensures
        income_headline(total, true, positive) == total,
        income_headline(total, false, true) == total + "+"@,
        income_headline(total, false, false) == "—"@,
{
}

/// A yield and a monthly average are each shown where known, whatever is known of the other.
pub proof fn yield_and_average_stand_side_by_side(percent: Seq<char>, monthly: Seq<char>)
    ensures
        yield_line(Some(percent), Some(monthly)) == percent + "% yield"@ + " · "@ + (monthly
            + " avg/mo"@),
        yield_line(Some(percent), None) == percent + "% yield"@ + " · "@ + "—/mo"@,
        yield_line(None, Some(monthly)) == "— yield"@ + " · "@ + (monthly + " avg/mo"@),
        yield_line(None, None) == "— yield"@ + " · "@ + "—/mo"@,
{
}

/// The bars give way to a message only where none of them is positive, and the message says
/// that there was nothing only once every holding was looked up.
pub proof fn bars_are_empty_for_a_reason(fetched: int, holdings: int)
    ensures
        bars_message(true, fetched, holdings) is None,
        fetched == holdings ==> bars_message(false, fetched, holdings) == Some(
            "No distributions while held in this period"@,
        ),
        fetched != holdings ==> bars_message(false, fetched, holdings) == Some(
            "Checking dividend history"@,
        ),
{
}

/// What the note under the dividends says: that data is on its way as long as a holding was
/// not looked up, and that amounts are left out wherever one could not be converted.
pub proof fn note_tells_what_is_missing(
    period: DividendPeriod,
    year: i32,
    current_year: int,
    fetched: int,
    holdings: int,
    found_any: bool,
)
    ensures
        ({
            let whole = status_note(period, current_year, fetched, holdings, found_any, true);
            let partial = status_note(period, current_year, fetched, holdings, found_any, false);
            &&& partial == whole + " · unsupported currencies excluded from totals"@
            &&& fetched >= holdings && !found_any ==> whole == "No distributions found"@
        }),
        fetched < holdings ==> {
            &&& status_note(
                DividendPeriod::Year(year),
                current_year,
                fetched,
                holdings,
                found_any,
                true,
            ) == "Received while held"@ + " · updating cached dividend data"@
            &&& status_note(
                DividendPeriod::Annual,
                current_year,
                fetched,
                holdings,
                found_any,
                true,
            ) == numbers::integer_text(current_year) + " · received + estimated"@
                + " · updating cached dividend data"@
        },
        fetched >= holdings ==> {
            &&& status_note(
                DividendPeriod::Year(year),
                current_year,
                fetched,
                holdings,
                true,
                true,
            ) == "Received while held"@
            &&& status_note(DividendPeriod::Annual, current_year, fetched, holdings, true, true)
                == numbers::integer_text(current_year) + " · received + estimated"@
        },
{
}

/// The list of recent distributions: at most sixteen of the year, the newest first, and none
/// is left out for an older one.
pub proof fn recent_list_keeps_the_newest(times: Seq<i64>, year: i32, i: int)
    requires
        times.len() <= usize::MAX,
        0 <= i < times.len(),
        forall|k: int|
            0 <= k < times.len() ==> i32::MIN <= calendar::civil(
                (#[trigger] times[k]) as int / 86_400,
            ).0 <= i32::MAX,
    ensures
        ({
            let list = order::at_most(
                order::arrangement(times.len() as int, in_year(times, year), newest_first(times)),
                16,
            );
            let counts = times[i] > 0 && calendar::day_number(year as int, 1, 1) <= times[i] as int
                / 86_400 < calendar::day_number(year + 1, 1, 1);
            &&& list.len() <= 16
            &&& list.no_duplicates()
            &&& list.contains(i as usize) ==> counts
            &&& counts && !list.contains(i as usize) ==> list.len() == 16 && forall|k: int|
                0 <= k < list.len() ==> times[#[trigger] list[k] as int] >= times[i]
            &&& forall|a: int, b: int|
                0 <= a < b < list.len() ==> times[#[trigger] list[a] as int] >= times[
                #[trigger] list[b] as int]
        }),
{
    let n = times.len() as int;
    let keep = in_year(times, year);
    let keys = newest_first(times);
    let all = order::arrangement(n, keep, keys);
    let list = order::at_most(all, 16);
    order::arrangement_sorts_kept_positions(n, keep, keys);
    year_holds_its_days(times[i] as int, year);
    assert(all.contains(i as usize) <==> keep(i));
    assert forall|k: int| 0 <= k < all.len() implies (#[trigger] all[k]) < n by {
        assert(all.contains(all[k]));
    }
    if list.contains(i as usize) {
        let k = choose|k: int| 0 <= k < list.len() && list[k] == i as usize;
        assert(all[k] == i as usize);
    }
    if keep(i) && !list.contains(i as usize) {
        let at = choose|k: int| 0 <= k < all.len() && all[k] == i as usize;
        if at < list.len() {
            assert(list[at] == all[at]);
        }
        assert forall|k: int| 0 <= k < list.len() implies times[#[trigger] list[k] as int]
            >= times[i] by {
            assert(list[k] == all[k] && k < at);
        }
    }
    assert forall|a: int, b: int| 0 <= a < b < list.len() implies times[#[trigger] list[a] as int]
        >= times[#[trigger] list[b] as int] by {
        assert(list[a] == all[a] && list[b] == all[b]);
    }
}

/// The distributions of the past: those whose time has come, the oldest first.
pub proof fn past_is_in_order(events: Seq<DividendEvent>, now: int, i: int)
    requires
        events.len() <= usize::MAX,
        0 <= i < events.len(),
    ensures
        ({
            let list = order::arrangement(
                events.len() as int,
                gone_by(events, now),
                oldest_first(events),
            );
            &&& list.contains(i as usize) <==> events[i].timestamp <= now
            &&& list.no_duplicates()
            &&& forall|a: int, b: int|
                0 <= a < b < list.len() ==> events[#[trigger] list[a] as int].timestamp
                    <= events[#[trigger] list[b] as int].timestamp
        }),
{
    let keep = gone_by(events, now);
    let list = order::arrangement(events.len() as int, keep, oldest_first(events));
    order::arrangement_sorts_kept_positions(events.len() as int, keep, oldest_first(events));
    assert(list.contains(i as usize) <==> keep(i));
    assert forall|k: int| 0 <= k < list.len() implies (#[trigger] list[k]) < events.len() by {
        assert(list.contains(list[k]));
    }
}

/// The bar of a month takes what was received in it, and what is expected in it where the
/// year is the current one.
pub proof fn bars_take_their_months(
    times: Seq<i64>,
    year: i32,
    current_year: i32,
    month: int,
    i: int,
)
    requires
        1 <= month <= 12,
        0 <= i < times.len(),
        i32::MIN <= calendar::civil(times[i] as int / 86_400).0 <= i32::MAX,
    ensures
        ({
            let inside = times[i] > 0 && calendar::day_number(year as int, month, 1) <= times[i]
                as int / 86_400 < if month == 12 {
                calendar::day_number(year + 1, 1, 1)
            } else {
                calendar::day_number(year as int, month + 1, 1)
            };
            &&& in_month(times, year, month)(i) <==> inside
            &&& forecast_in_month(times, year, current_year, month)(i) <==> inside && year
                == current_year
        }),
{
    calendar::month_holds_its_times(times[i] as int, year, month as u32);
}

/// The dividends of a year are the payments of that kind whose time lies in it.
pub proof fn payments_count_in_their_year(cash: Seq<CashEntry>, year: i32, i: int)
    requires
        cash.len() <= usize::MAX,
        0 <= i < cash.len(),
        i32::MIN <= calendar::civil(cash[i].occurred_at as int / 86_400).0 <= i32::MAX,
    ensures
        order::selection(cash.len() as int, paid_in_year(cash, year)).contains(i as usize) <==> {
            &&& cash[i].kind@ == "DIVIDEND"@
            &&& cash[i].occurred_at > 0
            &&& calendar::day_number(year as int, 1, 1) <= cash[i].occurred_at as int / 86_400
            &&& cash[i].occurred_at as int / 86_400 < calendar::day_number(year + 1, 1, 1)
        },
{
    order::selection_lists_kept_positions(cash.len() as int, paid_in_year(cash, year));
    assert(order::selection(cash.len() as int, paid_in_year(cash, year)).contains(i as usize)
        <==> paid_in_year(cash, year)(i));
    year_holds_its_days(cash[i].occurred_at as int, year);
}

/// The source of a payment is the first word of its description, in upper case.
pub proof fn payment_is_named_by_its_first_word(word: Seq<char>, rest: Seq<char>)
    requires
        word.len() > 0,
        forall|k: int| 0 <= k < word.len() ==> !text::blank(#[trigger] word[k]),
    ensures
        payment_source(word) == text::uppercase(word),
        payment_source(word.push(' ') + rest) == text::uppercase(word),
        payment_source(Seq::empty()) == "DIVIDEND"@,
{
    text::up_to_blank_is(word, word.len() as int);
    assert(word.take(word.len() as int) =~= word);
    let s = word.push(' ') + rest;
    assert(s[0] == word[0]);
    text::up_to_blank_is(s, word.len() as int);
    assert(s.take(word.len() as int) =~= word);
    reveal_strlit("Dividend");
    reveal_strlit("DIVIDEND");
    assert(text::uppercase("Dividend"@) =~= "DIVIDEND"@);
}

/// The number of a month tells its year and its month.
pub proof fn month_numbers_tell_the_month(times: Seq<i64>, year: i32, month: int)
    requires
        1 <= month <= 12,
        forall|k: int|
            0 <= k < times.len() ==> i32::MIN <= calendar::civil(
                (#[trigger] times[k]) as int / 86_400,
            ).0 <= i32::MAX,
    ensures
        ({
            let code = (12 * year + month - 1) as i64;
            &&& code as int / 12 == year && code as int % 12 + 1 == month
            &&& month_codes(times, code) <==> exists|i: int|
                0 <= i < times.len() && (#[trigger] times[i]) > 0 && calendar::day_number(
                    year as int,
                    month,
                    1,
                ) <= times[i] as int / 86_400 < if month == 12 {
                    calendar::day_number(year + 1, 1, 1)
                } else {
                    calendar::day_number(year as int, month + 1, 1)
                }
        }),
{
    let code = (12 * year + month - 1) as i64;
    assert forall|i: int| 0 <= i < times.len() implies ((calendar::year_month(
        (#[trigger] times[i]) as int,
    ) matches Some((y, m)) && code == y * 12 + m - 1) <==> calendar::year_month(times[i] as int)
        == Some((year, month as u32))) by {
        calendar::month_holds_its_times(times[i] as int, year, month as u32);
        if times[i] > 0 {
            calendar::every_day_is_dated(times[i] as int / 86_400);
        }
    }
    assert forall|i: int| 0 <= i < times.len() implies (calendar::year_month(
        (#[trigger] times[i]) as int,
    ) == Some((year, month as u32)) <==> times[i] > 0 && calendar::day_number(year as int, month, 1)
        <= times[i] as int / 86_400 < if month == 12 {
        calendar::day_number(year + 1, 1, 1)
    } else {
        calendar::day_number(year as int, month + 1, 1)
    }) by {
        calendar::month_holds_its_times(times[i] as int, year, month as u32);
    }
}

/// A payment is named after the first position with its code, wherever there is one.
pub proof fn payment_finds_its_position(positions: Seq<Position>, source: Seq<char>, k: int)
    requires
        0 <= k < positions.len(),
        text::alike(positions[k].code@, source),
    ensures
        exists|i: int|
            #[trigger] is_named(positions, source, i) && i <= k && text::alike(
                positions[i].code@,
                source,
            ),
    decreases k,
{
    if forall|j: int| 0 <= j < k ==> !text::alike((#[trigger] positions[j]).code@, source) {
        assert(is_named(positions, source, k));
    } else {
        let j = choose|j: int| 0 <= j < k && text::alike((#[trigger] positions[j]).code@, source);
        payment_finds_its_position(positions, source, j);
    }
}

/// The period that was selected stays selected where it is still offered; otherwise the first
/// one is.
pub proof fn selected_period_is_kept(
    options: Seq<DividendPeriod>,
    period: DividendPeriod,
    at: int,
)
    requires
        options.len() > 0,
        is_place_of(options, period, at),
    ensures
        options.contains(period) ==> period_at(options, at) == period && !options.take(at).contains(
            period,
        ),
        !options.contains(period) ==> at == 0,
        forall|index: int|
            index >= options.len() ==> #[trigger] period_at(options, index)
                == DividendPeriod::Annual,
{
    if options.contains(period) {
        if options.take(at).contains(period) {
            let k = choose|k: int| 0 <= k < at && options.take(at)[k] == period;
            assert(options[k] == period);
        }
    }
}

/// Every period that is offered has its place.
pub proof fn offered_period_has_a_place(
    options: Seq<DividendPeriod>,
    period: DividendPeriod,
    k: int,
)
    requires
        0 <= k < options.len(),
        options[k] == period,
    ensures
        exists|at: int| #[trigger] is_place_of(options, period, at) && at <= k,
    decreases k,
{
    if forall|j: int| 0 <= j < k ==> options[j] != period {
        assert(is_place_of(options, period, k));
    } else {
        let j = choose|j: int| 0 <= j < k && options[j] == period;
        offered_period_has_a_place(options, period, j);
    }
}

/// A period is labelled by its year.
pub proof fn periods_are_labelled_by_year(year: i32)
    ensures
        period_text(DividendPeriod::Annual) == "Annual"@,
        numbers::denoted(period_text(DividendPeriod::Year(year)), true) == Some(year as int),
        period_text(DividendPeriod::Year(year)) == numbers::integer_text(year as int),
{
    numbers::printed_integer_reads_back(year as int);
}

} // verus!
