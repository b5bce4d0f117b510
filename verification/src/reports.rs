//! Reports on an account: their periods, their names, and what goes into them.

use vstd::prelude::*;
use crate::calendar;
use crate::wording;
use crate::model::{AmountSign, CashEntry, DividendEvent, Position, PricePoint, Transaction};
use crate::numbers;
use crate::order;
use crate::order::SortKey;
use crate::rates;
use crate::rates::{Conversion, Rate};
use crate::symbols;
use crate::text;

verus! {

#[derive(Clone, Copy, Debug, PartialEq, Eq, Structural)]
pub enum ReportKind {
    Portfolio,
    Dividends,
}

impl ReportKind {
    pub open spec fn title_text(self) -> Seq<char> {
        match self {
            ReportKind::Portfolio => "Portfolio Performance"@,
            ReportKind::Dividends => "Dividend Income"@,
        }
    }

    pub fn title(self) -> (r: &'static str)
        ensures
            r@ == self.title_text(),
    {
        match self {
            ReportKind::Portfolio => "Portfolio Performance",
            ReportKind::Dividends => "Dividend Income",
        }
    }

    pub open spec fn stem(self) -> Seq<char> {
        match self {
            ReportKind::Portfolio => "portfolio-performance"@,
            ReportKind::Dividends => "dividend-income"@,
        }
    }

    pub fn file_stem(self) -> (r: &'static str)
        ensures
            r@ == self.stem(),
    {
        match self {
            ReportKind::Portfolio => "portfolio-performance",
            ReportKind::Dividends => "dividend-income",
        }
    }

    /// The kind that an entry of the selector stands for.
    pub fn from_index(index: u32) -> (r: ReportKind)
        ensures
            r == if index == 0 {
                ReportKind::Portfolio
            } else {
                ReportKind::Dividends
            },
    {
        if index == 0 {
            ReportKind::Portfolio
        } else {
            ReportKind::Dividends
        }
    }
}

/// The current year up to now, or a whole year.
#[derive(Clone, Copy, Debug, PartialEq, Eq, Structural)]
pub enum ReportPeriod {
    Ytd,
    Year(i32),
}

pub open spec fn year_start(year: int) -> int {
    calendar::day_number(year, 1, 1) * 86_400
}

/// The year of a timestamp, in 32 bits.
pub open spec fn year_of(timestamp: int) -> i32 {
    calendar::civil_parts(timestamp / 86_400).0
}

/// The timestamp of the start of a year.
fn start_of_year(year: i32) -> (r: i64)
    ensures
        r == year_start(year as int),
        -100_000_000_000_000_000 < r < 100_000_000_000_000_000,
{
    proof {
        calendar::day_number_bounds(year as int, 1, 1);
    }
    calendar::days_from_civil(year, 1, 1) * calendar::DAY_SECONDS
}

impl ReportPeriod {
    pub open spec fn label_text(self) -> Seq<char> {
        match self {
            ReportPeriod::Ytd => "Year to Date (YTD)"@,
            ReportPeriod::Year(year) => numbers::integer_text(year as int),
        }
    }

    pub fn label(self) -> (r: String)
        ensures
            r@ == self.label_text(),
    {
        match self {
            ReportPeriod::Ytd => "Year to Date (YTD)".to_owned(),
            ReportPeriod::Year(year) => numbers::print_integer(year as i64),
        }
    }

    pub open spec fn token(self, now: int) -> Seq<char> {
        match self {
            ReportPeriod::Ytd => numbers::integer_text(year_of(now) as int) + "-ytd"@,
            ReportPeriod::Year(year) => numbers::integer_text(year as int),
        }
    }

    pub fn filename_token(self, now: i64) -> (r: String)
        ensures
            r@ == self.token(now as int),
    {
        match self {
            ReportPeriod::Ytd => {
                let (year, _, _) = calendar::civil_from_days(calendar::day_of(now));
                let mut r = numbers::print_integer(year as i64);
                r.append("-ytd");
                r
            },
            ReportPeriod::Year(year) => numbers::print_integer(year as i64),
        }
    }

    pub open spec fn span(self, now: int) -> (int, int) {
        match self {
            ReportPeriod::Ytd => (year_start(year_of(now) as int), now),
            ReportPeriod::Year(year) => (year_start(year as int), year_start(year + 1) - 1),
        }
    }

    /// The first and the last second of the period.
    pub fn bounds(self, now: i64) -> (r: (i64, i64))
        requires
            self matches ReportPeriod::Year(year) ==> year < i32::MAX,
        ensures
            r.0 == self.span(now as int).0,
            r.1 == self.span(now as int).1,
    {
        match self {
            ReportPeriod::Ytd => {
                let (year, _, _) = calendar::civil_from_days(calendar::day_of(now));
                (start_of_year(year), now)
            },
            ReportPeriod::Year(year) => (start_of_year(year), start_of_year(year + 1) - 1),
        }
    }

    pub open spec fn dates_text(self, now: int) -> Seq<char> {
        let (start, end) = self.span(now);
        calendar::distribution_date_text(start) + " - "@ + calendar::distribution_date_text(
            if end <= now {
                end
            } else {
                now
            },
        )
    }

    pub fn date_range(self, now: i64) -> (r: String)
        requires
            self matches ReportPeriod::Year(year) ==> year < i32::MAX,
        ensures
            r@ == self.dates_text(now as int),
    {
        let (start, end) = self.bounds(now);
        let mut r = calendar::format_distribution_date(start);
        r.append(" - ");
        let last: i64 = if end <= now {
            end
        } else {
            now
        };
        r.append(calendar::format_distribution_date(last).as_str());
        r
    }
}

/// A whole year spans exactly the timestamps that fall on a date of that year.
pub proof fn year_spans_its_dates(year: int, timestamp: int)
    ensures
        year_start(year) <= timestamp <= year_start(year + 1) - 1 <==> calendar::civil(
            timestamp / 86_400,
        ).0 == year,
{
    let n = timestamp / 86_400;
    calendar::every_day_is_dated(n);
    let (y, m, d) = calendar::civil(n);
    let start = calendar::day_number(year, 1, 1);
    let next = calendar::day_number(year + 1, 1, 1);
    assert(start <= n < next <==> year_start(year) <= timestamp <= year_start(year + 1) - 1);
    if y < year {
        calendar::dates_are_ordered(y, m, d, year, 1, 1);
    } else if y > year {
        if y > year + 1 || m > 1 || d > 1 {
            calendar::dates_are_ordered(year + 1, 1, 1, y, m, d);
        }
    } else {
        calendar::dates_are_ordered(y, m, d, year + 1, 1, 1);
        if m > 1 || d > 1 {
            calendar::dates_are_ordered(year, 1, 1, y, m, d);
        }
    }
}

/// The account has a trade or a movement of cash at the time.
pub open spec fn active_at(
    trades: Seq<Transaction>,
    cash: Seq<CashEntry>,
    account_id: int,
    time: i64,
) -> bool {
    ||| exists|i: int|
        0 <= i < trades.len() && (#[trigger] trades[i]).account_id == account_id
            && trades[i].timestamp == time
    ||| exists|i: int|
        0 <= i < cash.len() && (#[trigger] cash[i]).account_id == account_id && cash[i].occurred_at
            == time
}

/// The periods of a report: the current year, then every completed year down to the
/// first one.
pub open spec fn report_periods(earliest_year: int, current_year: int) -> Seq<ReportPeriod> {
    if earliest_year < current_year {
        seq![ReportPeriod::Ytd] + Seq::new(
            (current_year - earliest_year) as nat,
            |k: int| ReportPeriod::Year((current_year - 1 - k) as i32),
        )
    } else {
        seq![ReportPeriod::Ytd]
    }
}

/// The first time at which an account has any activity.
#[verifier::loop_isolation(false)]
fn first_activity(
    transactions: &[Transaction],
    cash_entries: &[CashEntry],
    account_id: i64,
) -> (r: Option<i64>)
    ensures
        match r {
            Some(first) => active_at(transactions@, cash_entries@, account_id as int, first)
                && forall|time: i64| #[trigger]
                active_at(transactions@, cash_entries@, account_id as int, time) ==> first <= time,
            None => forall|time: i64|
                !#[trigger] active_at(transactions@, cash_entries@, account_id as int, time),
        },
{
    let mut first: Option<i64> = None;
    let mut i: usize = 0;
    while i < transactions.len()
        invariant
            i <= transactions@.len(),
            match first {
                Some(time) => active_at(transactions@, cash_entries@, account_id as int, time)
                    && forall|k: int|
                    0 <= k < i && (#[trigger] transactions@[k]).account_id == account_id ==> time
                        <= transactions@[k].timestamp,
                None => forall|k: int|
                    0 <= k < i ==> (#[trigger] transactions@[k]).account_id != account_id,
            },
        decreases transactions@.len() - i,
    {
        let t = &transactions[i];
        if t.account_id == account_id {
            assert(transactions@[i as int].account_id == account_id);
            let better = match first {
                Some(time) => t.timestamp < time,
                None => true,
            };
            if better {
                first = Some(t.timestamp);
            }
        }
        i += 1;
    }
    let mut j: usize = 0;
    while j < cash_entries.len()
        invariant
            j <= cash_entries@.len(),
            match first {
                Some(time) => active_at(transactions@, cash_entries@, account_id as int, time)
                    && (forall|k: int|
                    0 <= k < transactions@.len() && (#[trigger] transactions@[k]).account_id
                        == account_id ==> time <= transactions@[k].timestamp) && forall|k: int|
                    0 <= k < j && (#[trigger] cash_entries@[k]).account_id == account_id ==> time
                        <= cash_entries@[k].occurred_at,
                None => (forall|k: int|
                    0 <= k < transactions@.len() ==> (#[trigger] transactions@[k]).account_id
                        != account_id) && forall|k: int|
                    0 <= k < j ==> (#[trigger] cash_entries@[k]).account_id != account_id,
            },
        decreases cash_entries@.len() - j,
    {
        let c = &cash_entries[j];
        if c.account_id == account_id {
            assert(cash_entries@[j as int].account_id == account_id);
            let better = match first {
                Some(time) => c.occurred_at < time,
                None => true,
            };
            if better {
                first = Some(c.occurred_at);
            }
        }
        j += 1;
    }
    first
}

/// The year from which on an account can be reported on.
pub open spec fn is_earliest_year(
    trades: Seq<Transaction>,
    cash: Seq<CashEntry>,
    account_id: int,
    current_year: i32,
    year: i32,
) -> bool {
    ||| exists|first: i64| #[trigger]
        active_at(trades, cash, account_id, first) && year == year_of(first as int) && forall|
            time: i64,
        | #[trigger]
            active_at(trades, cash, account_id, time) ==> first <= time
    ||| year == current_year && forall|time: i64| !#[trigger] active_at(
        trades,
        cash,
        account_id,
        time,
    )
}

#[verifier::loop_isolation(false)]
pub fn report_periods_for_account(
    transactions: &[Transaction],
    cash_entries: &[CashEntry],
    account_id: i64,
    now: i64,
) -> (r: Vec<ReportPeriod>)
    ensures
        exists|earliest: i32| #[trigger]
            is_earliest_year(
                transactions@,
                cash_entries@,
                account_id as int,
                year_of(now as int),
                earliest,
            ) && r@ == report_periods(earliest as int, year_of(now as int) as int),
{
    let (current_year, _, _) = calendar::civil_from_days(calendar::day_of(now));
    let earliest: i32 = match first_activity(transactions, cash_entries, account_id) {
        Some(first) => {
            let (year, _, _) = calendar::civil_from_days(calendar::day_of(first));
            assert(active_at(transactions@, cash_entries@, account_id as int, first));
            year
        },
        None => current_year,
    };
    assert(is_earliest_year(
        transactions@,
        cash_entries@,
        account_id as int,
        current_year,
        earliest,
    ));
    let mut r: Vec<ReportPeriod> = Vec::new();
    r.push(ReportPeriod::Ytd);
    let mut year: i32 = current_year;
    while year > earliest
        invariant
            year <= current_year,
            year >= earliest || year == current_year,
            r@.len() == 1 + current_year - year,
            r@[0] == ReportPeriod::Ytd,
            forall|k: int|
                1 <= k < r@.len() ==> #[trigger] r@[k] == ReportPeriod::Year(
                    (current_year - k) as i32,
                ),
        decreases year - earliest,
    {
        year = year - 1;
        r.push(ReportPeriod::Year(year));
    }
    assert(r@ =~= report_periods(earliest as int, current_year as int));
    assert(current_year == year_of(now as int));
    assert(is_earliest_year(
        transactions@,
        cash_entries@,
        account_id as int,
        year_of(now as int),
        earliest,
    ) && r@ == report_periods(earliest as int, year_of(now as int) as int));
    r
}

pub open spec fn is_plain(c: char) -> bool {
    numbers::is_digit(c) || 'a' <= c && c <= 'z' || 'A' <= c && c <= 'Z'
}

/// Letters and digits stay; anything else becomes a hyphen.
pub open spec fn hyphened(s: Seq<char>) -> Seq<char> {
    Seq::new(
        s.len(),
        |i: int|
            if is_plain(s[i]) {
                s[i]
            } else {
                '-'
            },
    )
}

/// Of hyphens in a row one stays.
pub open spec fn single_hyphens(s: Seq<char>) -> Seq<char>
    decreases s.len(),
{
    if s.len() == 0 {
        Seq::empty()
    } else {
        let before = single_hyphens(s.drop_last());
        if s.last() == '-' && before.len() > 0 && before.last() == '-' {
            before
        } else {
            before.push(s.last())
        }
    }
}

/// Without a hyphen at either end.
pub open spec fn without_end_hyphens(s: Seq<char>) -> Seq<char> {
    let t = if s.len() > 0 && s[0] == '-' {
        s.skip(1)
    } else {
        s
    };
    if t.len() > 0 && t.last() == '-' {
        t.drop_last()
    } else {
        t
    }
}

/// A name as part of a file name.
pub open spec fn slug(name: Seq<char>) -> Seq<char> {
    let s = without_end_hyphens(
        single_hyphens(hyphened(text::lowercase(text::trimmed(name)))),
    );
    if s.len() == 0 {
        "account"@
    } else {
        s
    }
}

#[verifier::loop_isolation(false)]
pub fn report_filename_slug(value: &str) -> (r: String)
    ensures
        r@ == slug(value@),
{
    let plain = text::to_lower(text::trim(value).as_str());
    let chars = text::chars_of(plain.as_str());
    let ghost all = hyphened(plain@);
    let mut out: Vec<char> = Vec::new();
    let mut i: usize = 0;
    assert(all.take(0) =~= Seq::empty());
    while i < chars.len()
        invariant
            i <= chars@.len(),
            out@ == single_hyphens(all.take(i as int)),
        decreases chars@.len() - i,
    {
        assert(all.take(i + 1).drop_last() =~= all.take(i as int));
        assert(all.take(i + 1).last() == all[i as int]);
        let c: char = chars[i];
        let kept: char = if ('0' <= c && c <= '9') || ('a' <= c && c <= 'z') || ('A' <= c && c
            <= 'Z') {
            c
        } else {
            '-'
        };
        let repeated = kept == '-' && out.len() > 0 && out[out.len() - 1] == '-';
        if !repeated {
            out.push(kept);
        }
        i += 1;
    }
    assert(all.take(i as int) =~= all);
    let from: usize = if out.len() > 0 && out[0] == '-' {
        1
    } else {
        0
    };
    let to: usize = if out.len() > from && out[out.len() - 1] == '-' {
        out.len() - 1
    } else {
        out.len()
    };
    proof {
        let s = out@;
        let t = if s.len() > 0 && s[0] == '-' {
            s.skip(1)
        } else {
            s
        };
        assert(t =~= s.skip(from as int));
        assert(without_end_hyphens(s) =~= s.subrange(from as int, to as int));
    }
    if from == to {
        "account".to_owned()
    } else {
        text::text_of(&out, from, to)
    }
}

proof fn hyphens_stand_alone(s: Seq<char>)
    requires
        forall|i: int| 0 <= i < s.len() ==> is_plain(#[trigger] s[i]) || s[i] == '-',
    ensures
        forall|i: int|
            0 <= i < single_hyphens(s).len() ==> is_plain(#[trigger] single_hyphens(s)[i])
                || single_hyphens(s)[i] == '-',
        forall|i: int|
            1 <= i < single_hyphens(s).len() ==> !(#[trigger] single_hyphens(s)[i] == '-'
                && single_hyphens(s)[i - 1] == '-'),
    decreases s.len(),
{
    if s.len() > 0 {
        let d = s.drop_last();
        assert forall|i: int| 0 <= i < d.len() implies is_plain(#[trigger] d[i]) || d[i] == '-' by {
            assert(d[i] == s[i]);
        }
        hyphens_stand_alone(d);
        let before = single_hyphens(d);
        let after = single_hyphens(s);
        assert(is_plain(s[s.len() - 1]) || s[s.len() - 1] == '-');
        assert forall|i: int| 0 <= i < after.len() implies is_plain(#[trigger] after[i]) || after[i]
            == '-' by {
            if i < before.len() {
                assert(after[i] == before[i]);
            }
        }
        assert forall|i: int| 1 <= i < after.len() implies !(#[trigger] after[i] == '-' && after[i - 1]
            == '-') by {
            if i < before.len() {
                assert(after[i] == before[i] && after[i - 1] == before[i - 1]);
            }
        }
    }
}

/// A name in a file name is never empty, holds nothing but ASCII letters, digits and
/// hyphens, has no two hyphens in a row, and neither begins nor ends with one.
pub proof fn slug_is_plain(name: Seq<char>)
    ensures
        slug(name).len() > 0,
        forall|i: int|
            0 <= i < slug(name).len() ==> is_plain(#[trigger] slug(name)[i]) || slug(name)[i] == '-',
        forall|i: int|
            1 <= i < slug(name).len() ==> !(#[trigger] slug(name)[i] == '-' && slug(name)[i - 1]
                == '-'),
        slug(name)[0] != '-',
        slug(name).last() != '-',
{
    let h = hyphened(text::lowercase(text::trimmed(name)));
    hyphens_stand_alone(h);
    let s = single_hyphens(h);
    let t = if s.len() > 0 && s[0] == '-' {
        s.skip(1)
    } else {
        s
    };
    let from = s.len() - t.len();
    let u = without_end_hyphens(s);
    assert(forall|i: int| 0 <= i < u.len() ==> u[i] == s[from + i]);
    if u.len() > 0 {
        if from == 1 {
            assert(!(s[1] == '-' && s[0] == '-'));
        }
        if u.len() < t.len() {
            assert(s.last() == '-');
            let k = s.len() - 1;
            assert(!(s[k] == '-' && s[k - 1] == '-'));
        }
    }
    assert forall|i: int| 1 <= i < u.len() implies !(#[trigger] u[i] == '-' && u[i - 1] == '-') by {
        assert(!(s[from + i] == '-' && s[from + i - 1] == '-'));
    }
    reveal_strlit("account");
    if u.len() == 0 {
        let a = "account"@;
        assert(a.len() == 7);
        assert(a[0] == 'a' && a[1] == 'c' && a[2] == 'c' && a[3] == 'o' && a[4] == 'u' && a[5]
            == 'n' && a[6] == 't');
    }
}

proof fn nothing_to_join(s: Seq<char>)
    requires
        forall|i: int| 1 <= i < s.len() ==> !(#[trigger] s[i] == '-' && s[i - 1] == '-'),
    ensures
        single_hyphens(s) == s,
    decreases s.len(),
{
    if s.len() > 0 {
        let d = s.drop_last();
        assert forall|i: int| 1 <= i < d.len() implies !(#[trigger] d[i] == '-' && d[i - 1] == '-') by {
            assert(d[i] == s[i] && d[i - 1] == s[i - 1]);
        }
        nothing_to_join(d);
        if d.len() > 0 {
            let last = s.len() - 1;
            assert(!(s[last] == '-' && s[last - 1] == '-'));
        }
        assert(single_hyphens(s) =~= s);
    } else {
        assert(single_hyphens(s) =~= s);
    }
}

proof fn joining_adds_nothing(s: Seq<char>)
    ensures
        forall|i: int|
            0 <= i < single_hyphens(s).len() ==> s.contains(#[trigger] single_hyphens(s)[i]),
    decreases s.len(),
{
    if s.len() > 0 {
        let d = s.drop_last();
        joining_adds_nothing(d);
        let before = single_hyphens(d);
        let after = single_hyphens(s);
        assert forall|i: int| 0 <= i < after.len() implies s.contains(#[trigger] after[i]) by {
            if i < before.len() {
                assert(after[i] == before[i]);
                let k = choose|k: int| 0 <= k < d.len() && d[k] == before[i];
                assert(s[k] == after[i]);
            } else {
                assert(s[s.len() - 1] == after[i]);
            }
        }
    }
}

/// A name in a file name holds no capitals.
pub proof fn slug_has_no_capitals(name: Seq<char>)
    ensures
        forall|i: int|
            0 <= i < slug(name).len() ==> !('A' <= #[trigger] slug(name)[i] && slug(name)[i] <= 'Z'),
{
    let low = text::lowercase(text::trimmed(name));
    let h = hyphened(low);
    let s = single_hyphens(h);
    joining_adds_nothing(h);
    assert forall|i: int| 0 <= i < h.len() implies !('A' <= #[trigger] h[i] && h[i] <= 'Z') by {
        assert(low[i] == text::lower(text::trimmed(name)[i]));
    }
    assert forall|i: int| 0 <= i < s.len() implies !('A' <= #[trigger] s[i] && s[i] <= 'Z') by {
        let k = choose|k: int| 0 <= k < h.len() && h[k] == s[i];
        assert(!('A' <= h[k] && h[k] <= 'Z'));
    }
    let t = if s.len() > 0 && s[0] == '-' {
        s.skip(1)
    } else {
        s
    };
    let from = s.len() - t.len();
    let u = without_end_hyphens(s);
    assert(forall|i: int| 0 <= i < u.len() ==> u[i] == s[from + i]);
    reveal_strlit("account");
    if u.len() == 0 {
        let a = "account"@;
        assert(a.len() == 7);
        assert(a[0] == 'a' && a[1] == 'c' && a[2] == 'c' && a[3] == 'o' && a[4] == 'u' && a[5]
            == 'n' && a[6] == 't');
    }
}

/// A name in a file name stays as it is where it is made one again.
pub proof fn slug_is_final(name: Seq<char>)
    ensures
        slug(slug(name)) == slug(name),
{
    let s = slug(name);
    slug_is_plain(name);
    slug_has_no_capitals(name);
    assert(!text::blank(s[0]));
    assert(!text::blank(s.last()));
    assert(text::trimmed(s) == s);
    assert(text::lowercase(s) =~= s);
    assert(hyphened(s) =~= s);
    nothing_to_join(s);
}

/// The name under which a report is saved.
pub fn report_file_name(kind: ReportKind, account: &str, period: ReportPeriod, now: i64) -> (r: String)
    ensures
        r@ == "aureus-"@ + kind.stem() + "-"@ + slug(account@) + "-"@ + period.token(now as int)
            + ".pdf"@,
{
    let mut r = "aureus-".to_owned();
    r.append(kind.file_stem());
    r.append("-");
    r.append(report_filename_slug(account).as_str());
    r.append("-");
    r.append(period.filename_token(now).as_str());
    r.append(".pdf");
    r
}

/// Some trade of the account is in another currency than the account.
pub fn report_needs_fx(transactions: &[Transaction], account_id: i64, currency: &str) -> (r: bool)
    ensures
        r == exists|i: int|
            0 <= i < transactions@.len() && (#[trigger] transactions@[i]).account_id == account_id
                && !text::alike(transactions@[i].currency@, currency@),
{
    let mut i: usize = 0;
    while i < transactions.len()
        invariant
            i <= transactions@.len(),
            forall|k: int|
                0 <= k < i && (#[trigger] transactions@[k]).account_id == account_id ==> text::alike(
                    transactions@[k].currency@,
                    currency@,
                ),
        decreases transactions@.len() - i,
    {
        let t = &transactions[i];
        if t.account_id == account_id && !text::same_letters(t.currency.as_str(), currency) {
            return true;
        }
        i += 1;
    }
    false
}

/// Where the price of a holding at the end of a period comes from.
#[derive(Clone, Copy, PartialEq, Eq, Structural)]
pub enum EndPrice {
    Close(usize),
    Position(usize),
}

pub open spec fn holds(p: Position, account_id: int, symbol: Seq<char>) -> bool {
    p.account_id == account_id && text::alike(p.provider_symbol@, symbol)
}

/// The first of the positions that holds the security in the account.
pub open spec fn first_holding(positions: Seq<Position>, account_id: int, symbol: Seq<char>, i: int) -> bool {
    &&& 0 <= i < positions.len()
    &&& holds(positions[i], account_id, symbol)
    &&& forall|k: int| 0 <= k < i ==> !holds(#[trigger] positions[k], account_id, symbol)
}

/// Finds the position that holds a security in an account.
pub fn find_holding(positions: &[Position], account_id: i64, symbol: &str) -> (r: Option<usize>)
    ensures
        match r {
            Some(i) => first_holding(positions@, account_id as int, symbol@, i as int),
            None => forall|k: int|
                0 <= k < positions@.len() ==> !holds(
                    #[trigger] positions@[k],
                    account_id as int,
                    symbol@,
                ),
        },
{
    let mut i: usize = 0;
    while i < positions.len()
        invariant
            i <= positions@.len(),
            forall|k: int|
                0 <= k < i ==> !holds(#[trigger] positions@[k], account_id as int, symbol@),
        decreases positions@.len() - i,
    {
        let p = &positions[i];
        if p.account_id == account_id && text::same_letters(p.provider_symbol.as_str(), symbol) {
            return Some(i);
        }
        i += 1;
    }
    None
}

/// No two positions are the first to hold a security in an account.
proof fn first_holding_is_unique(
    positions: Seq<Position>,
    account_id: int,
    symbol: Seq<char>,
    i: int,
    j: int,
)
    requires
        first_holding(positions, account_id, symbol, i),
        first_holding(positions, account_id, symbol, j),
    ensures
        i == j,
{
    if i < j {
        assert(!holds(positions[i], account_id, symbol));
    } else if j < i {
        assert(!holds(positions[j], account_id, symbol));
    }
}

/// The price of a holding at the end of a period: the last close in its history, or,
/// where the period runs up to now, the last price of the position.
pub fn end_price(
    history: Option<&[PricePoint]>,
    positions: &[Position],
    account_id: i64,
    symbol: &str,
    period: ReportPeriod,
    period_end: i64,
) -> (r: Option<EndPrice>)
    ensures
        match rates::known_by(rates::points_view(history), period_end as int) {
            Some(i) => r == Some(EndPrice::Close(i)),
            None => match r {
                Some(EndPrice::Position(p)) => period == ReportPeriod::Ytd && first_holding(
                    positions@,
                    account_id as int,
                    symbol@,
                    p as int,
                ) && positions@[p as int].priced,
                Some(EndPrice::Close(_)) => false,
                None => period == ReportPeriod::Ytd ==> forall|p: int| #[trigger]
                    first_holding(positions@, account_id as int, symbol@, p) ==> !positions@[p].priced,
            },
        },
{
    match rates::historical_close_at(history, period_end) {
        Some(i) => Some(EndPrice::Close(i)),
        None => {
            if period != ReportPeriod::Ytd {
                return None;
            }
            match find_holding(positions, account_id, symbol) {
                Some(p) => if positions[p].priced {
                    Some(EndPrice::Position(p))
                } else {
                    proof {
                        assert forall|q: int| #[trigger]
                            first_holding(
                                positions@,
                                account_id as int,
                                symbol@,
                                q,
                            ) implies !positions@[q].priced by {
                            first_holding_is_unique(
                                positions@,
                                account_id as int,
                                symbol@,
                                p as int,
                                q,
                            );
                        }
                    }
                    None
                },
                None => None,
            }
        },
    }
}

/// The activity of an account in a period, by what it is.
pub struct PeriodActivity {
    pub purchases: Vec<usize>,
    pub sales: Vec<usize>,
    pub security_transfers: Vec<usize>,
    pub deposits: Vec<usize>,
    pub withdrawals: Vec<usize>,
    pub cash_transfers: Vec<usize>,
}

pub open spec fn traded_within(
    trades: Seq<Transaction>,
    account_id: int,
    start: int,
    end: int,
    kinds: spec_fn(Seq<char>) -> bool,
) -> spec_fn(int) -> bool {
    |i: int|
        trades[i].account_id == account_id && start <= trades[i].timestamp <= end && kinds(
            trades[i].transaction_type@,
        )
}

pub open spec fn moved_within(
    cash: Seq<CashEntry>,
    account_id: int,
    start: int,
    end: int,
    kinds: spec_fn(CashEntry) -> bool,
) -> spec_fn(int) -> bool {
    |i: int|
        cash[i].account_id == account_id && start <= cash[i].occurred_at <= end && kinds(cash[i])
}

pub open spec fn is_purchase(kind: Seq<char>) -> bool {
    kind == "BUY"@
}

pub open spec fn is_sale(kind: Seq<char>) -> bool {
    kind == "SELL"@
}

pub open spec fn is_security_transfer(kind: Seq<char>) -> bool {
    kind == "TRANSFER_IN"@ || kind == "TRANSFER_OUT"@
}

pub open spec fn is_money_in(entry: CashEntry) -> bool {
    entry.kind@ == "DEPOSIT"@ && entry.sign == AmountSign::Positive
}

pub open spec fn is_money_out(entry: CashEntry) -> bool {
    entry.kind@ == "DEPOSIT"@ && entry.sign == AmountSign::Negative
}

pub open spec fn is_money_moved(entry: CashEntry) -> bool {
    entry.kind@ == "TRANSFER"@
}

/// The trades of the lines are among as many as given.
pub open spec fn activity_fits(a: PeriodActivity, trades: int) -> bool {
    &&& forall|k: int| 0 <= k < a.purchases@.len() ==> #[trigger] a.purchases@[k] < trades
    &&& forall|k: int| 0 <= k < a.sales@.len() ==> #[trigger] a.sales@[k] < trades
    &&& forall|k: int|
        0 <= k < a.security_transfers@.len() ==> #[trigger] a.security_transfers@[k] < trades
}

pub open spec fn activity_matches(
    a: PeriodActivity,
    trades: Seq<Transaction>,
    cash: Seq<CashEntry>,
    account_id: int,
    start: int,
    end: int,
) -> bool {
    let t = trades.len() as int;
    let c = cash.len() as int;
    &&& a.purchases@ == order::selection(
        t,
        traded_within(trades, account_id, start, end, |k: Seq<char>| is_purchase(k)),
    )
    &&& a.sales@ == order::selection(
        t,
        traded_within(trades, account_id, start, end, |k: Seq<char>| is_sale(k)),
    )
    &&& a.security_transfers@ == order::selection(
        t,
        traded_within(trades, account_id, start, end, |k: Seq<char>| is_security_transfer(k)),
    )
    &&& a.deposits@ == order::selection(
        c,
        moved_within(cash, account_id, start, end, |e: CashEntry| is_money_in(e)),
    )
    &&& a.withdrawals@ == order::selection(
        c,
        moved_within(cash, account_id, start, end, |e: CashEntry| is_money_out(e)),
    )
    &&& a.cash_transfers@ == order::selection(
        c,
        moved_within(cash, account_id, start, end, |e: CashEntry| is_money_moved(e)),
    )
}

/// Sorts out the activity of an account in a period.
#[verifier::loop_isolation(false)]
#[verifier::rlimit(40)]
pub fn period_activity(
    transactions: &[Transaction],
    cash_entries: &[CashEntry],
    account_id: i64,
    period_start: i64,
    period_end: i64,
) -> (r: PeriodActivity)
    ensures
        activity_matches(
            r,
            transactions@,
            cash_entries@,
            account_id as int,
            period_start as int,
            period_end as int,
        ),
        activity_fits(r, transactions@.len() as int),
{
    let ghost trades = transactions@;
    let ghost cash = cash_entries@;
    let ghost a = account_id as int;
    let ghost s = period_start as int;
    let ghost e = period_end as int;
    let ghost bought = traded_within(trades, a, s, e, |k: Seq<char>| is_purchase(k));
    let ghost sold = traded_within(trades, a, s, e, |k: Seq<char>| is_sale(k));
    let ghost transferred = traded_within(trades, a, s, e, |k: Seq<char>| is_security_transfer(k));
    let mut buys: Vec<bool> = Vec::new();
    let mut sells: Vec<bool> = Vec::new();
    let mut transfers: Vec<bool> = Vec::new();
    let mut i: usize = 0;
    while i < transactions.len()
        invariant
            i <= trades.len(),
            buys@.len() == i,
            sells@.len() == i,
            transfers@.len() == i,
            forall|k: int| 0 <= k < i ==> #[trigger] buys@[k] == bought(k),
            forall|k: int| 0 <= k < i ==> #[trigger] sells@[k] == sold(k),
            forall|k: int| 0 <= k < i ==> #[trigger] transfers@[k] == transferred(k),
        decreases trades.len() - i,
    {
        let t = &transactions[i];
        let within = t.account_id == account_id && period_start <= t.timestamp && t.timestamp
            <= period_end;
        let kind = t.transaction_type.as_str();
        buys.push(within && text::same_text(kind, "BUY"));
        sells.push(within && text::same_text(kind, "SELL"));
        transfers.push(
            within && (text::same_text(kind, "TRANSFER_IN") || text::same_text(
                kind,
                "TRANSFER_OUT",
            )),
        );
        i += 1;
    }
    let ghost paid_in = moved_within(cash, a, s, e, |c: CashEntry| is_money_in(c));
    let ghost paid_out = moved_within(cash, a, s, e, |c: CashEntry| is_money_out(c));
    let ghost moved = moved_within(cash, a, s, e, |c: CashEntry| is_money_moved(c));
    let mut ins: Vec<bool> = Vec::new();
    let mut outs: Vec<bool> = Vec::new();
    let mut moves: Vec<bool> = Vec::new();
    let mut j: usize = 0;
    while j < cash_entries.len()
        invariant
            j <= cash.len(),
            ins@.len() == j,
            outs@.len() == j,
            moves@.len() == j,
            forall|k: int| 0 <= k < j ==> #[trigger] ins@[k] == paid_in(k),
            forall|k: int| 0 <= k < j ==> #[trigger] outs@[k] == paid_out(k),
            forall|k: int| 0 <= k < j ==> #[trigger] moves@[k] == moved(k),
        decreases cash.len() - j,
    {
        let c = &cash_entries[j];
        let within = c.account_id == account_id && period_start <= c.occurred_at && c.occurred_at
            <= period_end;
        let deposit = text::same_text(c.kind.as_str(), "DEPOSIT");
        ins.push(within && deposit && c.sign == AmountSign::Positive);
        outs.push(within && deposit && c.sign == AmountSign::Negative);
        moves.push(within && text::same_text(c.kind.as_str(), "TRANSFER"));
        j += 1;
    }
    let purchases = order::select(&buys);
    let sales = order::select(&sells);
    let security_transfers = order::select(&transfers);
    let deposits = order::select(&ins);
    let withdrawals = order::select(&outs);
    let cash_transfers = order::select(&moves);
    proof {
        let t = trades.len() as int;
        let c = cash.len() as int;
        order::is_selection(purchases@, t, |i: int| buys@[i], bought);
        order::is_selection(sales@, t, |i: int| sells@[i], sold);
        order::is_selection(security_transfers@, t, |i: int| transfers@[i], transferred);
        order::is_selection(deposits@, c, |i: int| ins@[i], paid_in);
        order::is_selection(withdrawals@, c, |i: int| outs@[i], paid_out);
        order::is_selection(cash_transfers@, c, |i: int| moves@[i], moved);
    }
    PeriodActivity { purchases, sales, security_transfers, deposits, withdrawals, cash_transfers }
}

pub open spec fn moved_by(cash: Seq<CashEntry>, account_id: int, end: int) -> spec_fn(int) -> bool {
    |i: int| cash[i].account_id == account_id && cash[i].occurred_at <= end
}

/// The movements of cash that make up the balance at the end of a completed year. Where
/// the period runs up to now there is nothing to add up: the balance of the account is
/// taken as it is.
#[verifier::loop_isolation(false)]
pub fn ending_cash(
    cash_entries: &[CashEntry],
    account_id: i64,
    period: ReportPeriod,
    period_end: i64,
) -> (r: Option<Vec<usize>>)
    ensures
        match r {
            Some(entries) => period != ReportPeriod::Ytd && entries@ == order::selection(
                cash_entries@.len() as int,
                moved_by(cash_entries@, account_id as int, period_end as int),
            ),
            None => period == ReportPeriod::Ytd,
        },
{
    if period == ReportPeriod::Ytd {
        return None;
    }
    let mut keep: Vec<bool> = Vec::new();
    let mut i: usize = 0;
    while i < cash_entries.len()
        invariant
            i <= cash_entries@.len(),
            keep@.len() == i,
            forall|k: int|
                0 <= k < i ==> #[trigger] keep@[k] == moved_by(
                    cash_entries@,
                    account_id as int,
                    period_end as int,
                )(k),
        decreases cash_entries@.len() - i,
    {
        let c = &cash_entries[i];
        keep.push(c.account_id == account_id && c.occurred_at <= period_end);
        i += 1;
    }
    let r = order::select(&keep);
    proof {
        order::is_selection(
            r@,
            cash_entries@.len() as int,
            |i: int| keep@[i],
            moved_by(cash_entries@, account_id as int, period_end as int),
        );
    }
    Some(r)
}

/// One line of a report.
pub struct ReportMetric {
    pub label: String,
    pub value: String,
}

pub open spec fn metric_is(m: ReportMetric, label: Seq<char>, value: Seq<char>) -> bool {
    m.label@ == label && m.value@ == value
}

pub open spec fn amount_text(amount: Option<(Seq<char>, bool)>, currency: Seq<char>) -> Seq<char> {
    match amount {
        Some((raw, negative)) => wording::currency_text(raw, negative, currency),
        None => "—"@,
    }
}

pub open spec fn signed_amount_text(amount: Option<(Seq<char>, bool)>, currency: Seq<char>) -> Seq<char> {
    match amount {
        Some((raw, negative)) => wording::signed_currency_text(raw, negative, currency),
        None => "—"@,
    }
}

/// An amount that counts only where it is complete.
pub open spec fn if_complete(amount: Option<(Seq<char>, bool)>, complete: bool) -> Option<(Seq<char>, bool)> {
    if complete {
        amount
    } else {
        None
    }
}

fn metric(label: &str, value: String) -> (r: ReportMetric)
    ensures
        metric_is(r, label@, value@),
{
    ReportMetric { label: label.to_owned(), value }
}

/// The amounts of a portfolio report as digits, each with whether it is negative.
pub struct ReportAmounts<'a> {
    pub ending_value: (&'a str, bool),
    pub market: (&'a str, bool),
    pub cash: (&'a str, bool),
    pub basis: (&'a str, bool),
    pub unrealized: (&'a str, bool),
    pub realized: Option<(&'a str, bool)>,
    pub dividends: (&'a str, bool),
}

pub open spec fn pair_view(p: (&str, bool)) -> Option<(Seq<char>, bool)> {
    Some((p.0@, p.1))
}

/// A holding at the end of a period: whether it has a price, and its currency.
pub struct ReportHolding {
    pub priced: bool,
    pub currency: String,
}

/// How the market value and the cost of a holding are converted, where they can be.
#[derive(Clone, Copy, PartialEq, Eq, Structural)]
pub struct ReportValue {
    pub market: Option<Conversion>,
    pub basis: Option<Conversion>,
}

/// The cost of a holding is known where it can be converted, and the market value where
/// there is a price too.
pub open spec fn report_values(
    holdings: Seq<ReportHolding>,
    target: Seq<char>,
    rate: Option<(Rate, bool)>,
) -> Seq<ReportValue> {
    Seq::new(
        holdings.len(),
        |i: int|
            {
                let basis = rates::conversion_at(holdings[i].currency@, target, rate);
                ReportValue {
                    market: if holdings[i].priced {
                        basis
                    } else {
                        None
                    },
                    basis,
                }
            },
    )
}

/// Finds how the holdings of a report are converted at the end of its period.
pub fn value_holdings(
    holdings: &Vec<ReportHolding>,
    target_currency: &str,
    fx_points: Option<&[PricePoint]>,
    period_end: i64,
    current: Option<bool>,
) -> (r: Vec<ReportValue>)
    ensures
        r@ == report_values(
            holdings@,
            target_currency@,
            rates::rate_at(rates::points_view(fx_points), period_end as int, current),
        ),
{
    let ghost whole = report_values(
        holdings@,
        target_currency@,
        rates::rate_at(rates::points_view(fx_points), period_end as int, current),
    );
    let mut r: Vec<ReportValue> = Vec::new();
    let mut i: usize = 0;
    while i < holdings.len()
        invariant
            i <= holdings@.len(),
            whole == report_values(
                holdings@,
                target_currency@,
                rates::rate_at(rates::points_view(fx_points), period_end as int, current),
            ),
            r@ == whole.take(i as int),
        decreases holdings@.len() - i,
    {
        let basis = rates::report_convert_at(
            holdings[i].currency.as_str(),
            target_currency,
            fx_points,
            period_end,
            current,
        );
        let market = if holdings[i].priced {
            basis
        } else {
            None
        };
        r.push(ReportValue { market, basis });
        i += 1;
    }
    assert(r@ =~= whole);
    r
}

/// Every holding has a market value.
pub open spec fn market_is_complete(values: Seq<ReportValue>) -> bool {
    forall|i: int| 0 <= i < values.len() ==> (#[trigger] values[i]).market is Some
}

/// Every holding has a cost.
pub open spec fn basis_is_complete(values: Seq<ReportValue>) -> bool {
    forall|i: int| 0 <= i < values.len() ==> (#[trigger] values[i]).basis is Some
}

/// Every payment could be converted.
pub open spec fn payments_are_complete(payments: Seq<Option<Conversion>>) -> bool {
    forall|i: int| 0 <= i < payments.len() ==> (#[trigger] payments[i]) is Some
}

fn are_complete(values: &Vec<ReportValue>) -> (r: (bool, bool))
    ensures
        r.0 == market_is_complete(values@),
        r.1 == basis_is_complete(values@),
{
    let mut market = true;
    let mut basis = true;
    let mut i: usize = 0;
    while i < values.len()
        invariant
            i <= values@.len(),
            market == market_is_complete(values@.take(i as int)),
            basis == basis_is_complete(values@.take(i as int)),
        decreases values@.len() - i,
    {
        proof {
            let now = values@.take(i as int);
            let next = values@.take(i + 1);
            assert(next[i as int] == values@[i as int]);
            assert(forall|k: int| 0 <= k < i ==> #[trigger] next[k] == now[k]);
            assert(forall|k: int| 0 <= k < i ==> #[trigger] now[k] == next[k]);
        }
        market = market && values[i].market.is_some();
        basis = basis && values[i].basis.is_some();
        i += 1;
    }
    assert(values@.take(i as int) =~= values@);
    (market, basis)
}

fn all_paid(payments: &Vec<Option<Conversion>>) -> (r: bool)
    ensures
        r == payments_are_complete(payments@),
{
    rates::every_conversion(payments).is_some()
}

/// The lines of a portfolio report. What rests on prices counts only where every holding
/// has a market value, what rests on costs only where every cost could be converted, and
/// the income only where every payment could.
pub fn portfolio_metrics(
    amounts: &ReportAmounts,
    values: &Vec<ReportValue>,
    payments: &Vec<Option<Conversion>>,
    currency: &str,
) -> (r: Vec<ReportMetric>)
    ensures
        r@.len() == 8,
        metric_is(
            r@[0],
            "Ending account value"@,
            amount_text(
                if_complete(pair_view(amounts.ending_value), market_is_complete(values@)),
                currency@,
            ),
        ),
        metric_is(
            r@[1],
            "Securities market value"@,
            amount_text(
                if_complete(pair_view(amounts.market), market_is_complete(values@)),
                currency@,
            ),
        ),
        metric_is(r@[2], "Cash balance"@, amount_text(pair_view(amounts.cash), currency@)),
        metric_is(
            r@[3],
            "Cost basis"@,
            amount_text(
                if_complete(pair_view(amounts.basis), basis_is_complete(values@)),
                currency@,
            ),
        ),
        metric_is(
            r@[4],
            "Unrealized gain / loss"@,
            signed_amount_text(
                if_complete(
                    pair_view(amounts.unrealized),
                    market_is_complete(values@) && basis_is_complete(values@),
                ),
                currency@,
            ),
        ),
        metric_is(
            r@[5],
            "Realized gain / loss - period"@,
            signed_amount_text(wording::amount_view(amounts.realized), currency@),
        ),
        metric_is(
            r@[6],
            "Gross dividend income - period"@,
            amount_text(
                if_complete(pair_view(amounts.dividends), payments_are_complete(payments@)),
                currency@,
            ),
        ),
        metric_is(r@[7], "Securities held"@, numbers::natural_text(values@.len())),
{
    let (complete_market, complete_basis) = are_complete(values);
    let mut r: Vec<ReportMetric> = Vec::new();
    let ending = if complete_market {
        Some(amounts.ending_value)
    } else {
        None
    };
    r.push(metric("Ending account value", wording::report_currency(ending, currency)));
    let market = if complete_market {
        Some(amounts.market)
    } else {
        None
    };
    r.push(metric("Securities market value", wording::report_currency(market, currency)));
    r.push(metric("Cash balance", wording::report_currency(Some(amounts.cash), currency)));
    let basis = if complete_basis {
        Some(amounts.basis)
    } else {
        None
    };
    r.push(metric("Cost basis", wording::report_currency(basis, currency)));
    let unrealized = if complete_market && complete_basis {
        Some(amounts.unrealized)
    } else {
        None
    };
    r.push(
        metric("Unrealized gain / loss", wording::report_signed_currency(unrealized, currency)),
    );
    r.push(
        metric(
            "Realized gain / loss - period",
            wording::report_signed_currency(amounts.realized, currency),
        ),
    );
    let dividends = if all_paid(payments) {
        Some(amounts.dividends)
    } else {
        None
    };
    r.push(
        metric("Gross dividend income - period", wording::report_currency(dividends, currency)),
    );
    r.push(metric("Securities held", numbers::print_natural(values.len() as u64)));
    r
}

/// How the amounts of trades are converted, each at its own time.
pub open spec fn trade_parts(
    places: Seq<usize>,
    trades: Seq<Transaction>,
    target: Seq<char>,
    fx: Option<Seq<PricePoint>>,
    current: Option<bool>,
) -> Seq<Option<Conversion>> {
    Seq::new(
        places.len(),
        |k: int|
            rates::conversion_at(
                trades[places[k] as int].currency@,
                target,
                rates::rate_at(fx, trades[places[k] as int].timestamp as int, current),
            ),
    )
}

/// Finds how the trades of a line of activity are converted. The amount of the line is
/// unknown as soon as one of them cannot be.
pub fn value_trades(
    places: &Vec<usize>,
    transactions: &[Transaction],
    target_currency: &str,
    fx_points: Option<&[PricePoint]>,
    current: Option<bool>,
) -> (r: Option<Vec<Conversion>>)
    requires
        forall|k: int| 0 <= k < places@.len() ==> #[trigger] places@[k] < transactions@.len(),
    ensures
        rates::are_whole(
            rates::list_view(r),
            trade_parts(
                places@,
                transactions@,
                target_currency@,
                rates::points_view(fx_points),
                current,
            ),
        ),
{
    let ghost whole = trade_parts(
        places@,
        transactions@,
        target_currency@,
        rates::points_view(fx_points),
        current,
    );
    let mut parts: Vec<Option<Conversion>> = Vec::new();
    let mut k: usize = 0;
    while k < places.len()
        invariant
            k <= places@.len(),
            forall|k: int| 0 <= k < places@.len() ==> #[trigger] places@[k] < transactions@.len(),
            whole == trade_parts(
                places@,
                transactions@,
                target_currency@,
                rates::points_view(fx_points),
                current,
            ),
            parts@ == whole.take(k as int),
        decreases places@.len() - k,
    {
        let trade = &transactions[places[k]];
        parts.push(
            rates::report_convert_at(
                trade.currency.as_str(),
                target_currency,
                fx_points,
                trade.timestamp,
                current,
            ),
        );
        k += 1;
    }
    assert(parts@ =~= whole);
    rates::every_conversion(&parts)
}

/// The kinds of lines that sum up activity, in their order.
#[derive(Clone, Copy, PartialEq, Eq, Structural)]
pub enum ActivityLine {
    Purchases,
    Sales,
    Deposits,
    Withdrawals,
    CashTransfers,
    SecurityTransfers,
    Dividends,
}

pub open spec fn line_text(line: ActivityLine) -> Seq<char> {
    match line {
        ActivityLine::Purchases => "Purchases"@,
        ActivityLine::Sales => "Sales"@,
        ActivityLine::Deposits => "Deposits"@,
        ActivityLine::Withdrawals => "Withdrawals"@,
        ActivityLine::CashTransfers => "Cash transfers"@,
        ActivityLine::SecurityTransfers => "Security transfers"@,
        ActivityLine::Dividends => "Dividend distributions"@,
    }
}

pub fn activity_line_label(line: ActivityLine) -> (r: &'static str)
    ensures
        r@ == line_text(line),
{
    match line {
        ActivityLine::Purchases => "Purchases",
        ActivityLine::Sales => "Sales",
        ActivityLine::Deposits => "Deposits",
        ActivityLine::Withdrawals => "Withdrawals",
        ActivityLine::CashTransfers => "Cash transfers",
        ActivityLine::SecurityTransfers => "Security transfers",
        ActivityLine::Dividends => "Dividend distributions",
    }
}

pub open spec fn line_if(line: ActivityLine, count: int) -> Seq<(ActivityLine, usize)> {
    if count > 0 {
        seq![(line, count as usize)]
    } else {
        Seq::empty()
    }
}

/// The lines of a report that sum up activity: one for each kind that occurred.
pub open spec fn activity_lines_of(a: PeriodActivity, dividends: int) -> Seq<(ActivityLine, usize)> {
    line_if(ActivityLine::Purchases, a.purchases@.len() as int) + line_if(
        ActivityLine::Sales,
        a.sales@.len() as int,
    ) + line_if(ActivityLine::Deposits, a.deposits@.len() as int) + line_if(
        ActivityLine::Withdrawals,
        a.withdrawals@.len() as int,
    ) + line_if(ActivityLine::CashTransfers, a.cash_transfers@.len() as int) + line_if(
        ActivityLine::SecurityTransfers,
        a.security_transfers@.len() as int,
    ) + line_if(ActivityLine::Dividends, dividends)
}

fn push_line(list: &mut Vec<(ActivityLine, usize)>, line: ActivityLine, count: usize)
    ensures
        final(list)@ == old(list)@ + line_if(line, count as int),
{
    if count > 0 {
        list.push((line, count));
    }
    assert(list@ =~= old(list)@ + line_if(line, count as int));
}

pub fn activity_lines(activity: &PeriodActivity, dividends: usize) -> (r: Vec<(ActivityLine, usize)>)
    ensures
        r@ == activity_lines_of(*activity, dividends as int),
{
    let mut r: Vec<(ActivityLine, usize)> = Vec::new();
    push_line(&mut r, ActivityLine::Purchases, activity.purchases.len());
    push_line(&mut r, ActivityLine::Sales, activity.sales.len());
    push_line(&mut r, ActivityLine::Deposits, activity.deposits.len());
    push_line(&mut r, ActivityLine::Withdrawals, activity.withdrawals.len());
    push_line(&mut r, ActivityLine::CashTransfers, activity.cash_transfers.len());
    push_line(&mut r, ActivityLine::SecurityTransfers, activity.security_transfers.len());
    push_line(&mut r, ActivityLine::Dividends, dividends);
    assert(r@ =~= activity_lines_of(*activity, dividends as int));
    r
}

/// The total of a dividend report: a dash where a payment could not be converted.
pub fn dividend_total_text(
    total: (&str, bool),
    payments: &Vec<Option<Conversion>>,
    currency: &str,
) -> (r: String)
    ensures
        r@ == if payments_are_complete(payments@) {
            wording::currency_text(total.0@, total.1, currency@)
        } else {
            "—"@
        },
{
    if all_paid(payments) {
        wording::format_currency(total.0, total.1, currency)
    } else {
        "—".to_owned()
    }
}

/// The months in which distributions fall.
pub open spec fn pays_in_month(times: Seq<i64>, month: i64) -> bool {
    exists|i: int|
        0 <= i < times.len() && (calendar::year_month((#[trigger] times[i]) as int) matches Some(
            (_, m),
        ) && m == month)
}

/// The months of a dividend report, from the first of the year to the last.
#[verifier::loop_isolation(false)]
pub fn dividend_months(times: &Vec<i64>) -> (r: Vec<i64>)
    ensures
        order::ascending(r@),
        forall|month: i64| #[trigger] r@.contains(month) <==> pays_in_month(times@, month),
{
    let mut months: Vec<i64> = Vec::new();
    let mut i: usize = 0;
    while i < times.len()
        invariant
            i <= times@.len(),
            forall|a: int| 0 <= a < months@.len() ==> pays_in_month(times@, #[trigger] months@[a]),
            forall|k: int|
                0 <= k < i ==> (calendar::year_month((#[trigger] times@[k]) as int) matches Some(
                    (_, m),
                ) ==> months@.contains(m as i64)),
        decreases times@.len() - i,
    {
        match calendar::timestamp_year_month(times[i]) {
            Some((_, month)) => {
                let ghost before = months@;
                months.push(month as i64);
                proof {
                    assert(pays_in_month(times@, month as i64)) by {
                    }
                    assert(months@[before.len() as int] == month as i64);
                    assert forall|v: i64| before.contains(v) implies months@.contains(v) by {
                        let q = choose|q: int| 0 <= q < before.len() && before[q] == v;
                        assert(months@[q] == v);
                    }
                }
            },
            None => {},
        }
        i += 1;
    }
    let r = order::ascending_distinct(&months);
    proof {
        assert forall|month: i64| #[trigger] r@.contains(month) <==> pays_in_month(times@, month) by {
            assert(r@.contains(month) == months@.contains(month));
            if months@.contains(month) {
                let a = choose|a: int| 0 <= a < months@.len() && months@[a] == month;
                assert(pays_in_month(times@, months@[a]));
            }
        }
    }
    r
}

pub open spec fn paid_between(events: Seq<DividendEvent>, start: int, end: int) -> spec_fn(int) -> bool {
    |i: int| start <= events[i].timestamp <= end
}

/// The distributions of a security that fall into a period.
#[verifier::loop_isolation(false)]
pub fn distributions_within(events: &[DividendEvent], start: i64, end: i64) -> (r: Vec<usize>)
    ensures
        r@ == order::selection(
            events@.len() as int,
            paid_between(events@, start as int, end as int),
        ),
{
    let mut keep: Vec<bool> = Vec::new();
    let mut i: usize = 0;
    while i < events.len()
        invariant
            i <= events@.len(),
            keep@.len() == i,
            forall|k: int|
                0 <= k < i ==> #[trigger] keep@[k] == paid_between(
                    events@,
                    start as int,
                    end as int,
                )(k),
        decreases events@.len() - i,
    {
        keep.push(events[i].timestamp >= start && events[i].timestamp <= end);
        i += 1;
    }
    let r = order::select(&keep);
    proof {
        order::is_selection(
            r@,
            events@.len() as int,
            |i: int| keep@[i],
            paid_between(events@, start as int, end as int),
        );
    }
    r
}

pub open spec fn times_ascending(times: Seq<i64>) -> spec_fn(int) -> SortKey {
    |i: int| SortKey { first: times[i] as i128, second: 0, third: 0 }
}

/// The rows of a report in the order of time.
#[verifier::loop_isolation(false)]
pub fn rows_in_time(times: &Vec<i64>) -> (r: Vec<usize>)
    ensures
        r@ == order::arrangement(times@.len() as int, |i: int| true, times_ascending(times@)),
{
    let mut keep: Vec<bool> = Vec::new();
    let mut keys: Vec<SortKey> = Vec::new();
    let mut i: usize = 0;
    while i < times.len()
        invariant
            i <= times@.len(),
            keep@.len() == i,
            keys@.len() == i,
            forall|k: int| 0 <= k < i ==> #[trigger] keep@[k],
            forall|k: int| 0 <= k < i ==> #[trigger] keys@[k] == times_ascending(times@)(k),
        decreases times@.len() - i,
    {
        keep.push(true);
        keys.push(SortKey { first: times[i] as i128, second: 0, third: 0 });
        i += 1;
    }
    let r = order::arrange(&keep, &keys);
    proof {
        order::is_arrangement(
            r@,
            times@.len() as int,
            |i: int| keep@[i],
            |i: int| keys@[i],
            |i: int| true,
            times_ascending(times@),
        );
    }
    r
}

/// The securities that paid, sorted; their number is the number of payers.
#[verifier::loop_isolation(false)]
pub fn payers(sources: &Vec<String>) -> (r: Vec<String>)
    ensures
        symbols::sorted_texts(r@),
        forall|n: Seq<char>| #[trigger] symbols::names(r@, n) <==> symbols::names(sources@, n),
{
    let mut r: Vec<String> = Vec::new();
    let mut i: usize = 0;
    while i < sources.len()
        invariant
            i <= sources@.len(),
            symbols::sorted_texts(r@),
            forall|n: Seq<char>| #[trigger]
                symbols::names(r@, n) <==> symbols::names(sources@.take(i as int), n),
        decreases sources@.len() - i,
    {
        let ghost before = r@;
        let ghost head = sources@.take(i as int);
        let ghost longer = sources@.take(i + 1);
        symbols::insert_sorted(&mut r, sources[i].clone());
        proof {
            assert forall|n: Seq<char>| #[trigger]
                symbols::names(r@, n) <==> symbols::names(longer, n) by {
                assert(symbols::names(before, n) <==> symbols::names(head, n));
                if symbols::names(head, n) {
                    let k = choose|k: int| 0 <= k < head.len() && (#[trigger] head[k])@ == n;
                    assert(longer[k]@ == n);
                }
                if symbols::names(longer, n) {
                    let k = choose|k: int| 0 <= k < longer.len() && (#[trigger] longer[k])@ == n;
                    if k < i {
                        assert(head[k]@ == n);
                    }
                }
                assert(longer[i as int]@ == sources@[i as int]@);
            }
        }
        i += 1;
    }
    assert(sources@.take(i as int) =~= sources@);
    r
}

/// The sum of a month is known where each of its distributions could be converted.
pub fn month_is_complete(times: &Vec<i64>, converted: &Vec<bool>, month: u32) -> (r: bool)
    requires
        times@.len() == converted@.len(),
    ensures
        r == forall|i: int|
            0 <= i < times@.len() && (calendar::year_month(
                (#[trigger] times@[i]) as int,
            ) matches Some((_, m)) && m == month) ==> converted@[i],
{
    let mut i: usize = 0;
    while i < times.len()
        invariant
            i <= times@.len(),
            times@.len() == converted@.len(),
            forall|k: int|
                0 <= k < i && (calendar::year_month((#[trigger] times@[k]) as int) matches Some(
                    (_, m),
                ) && m == month) ==> converted@[k],
        decreases times@.len() - i,
    {
        let in_month = match calendar::timestamp_year_month(times[i]) {
            Some((_, m)) => m == month,
            None => false,
        };
        if in_month && !converted[i] {
            return false;
        }
        i += 1;
    }
    true
}

/// The sum of a security is known where each of its distributions could be converted.
pub fn source_is_complete(sources: &Vec<String>, converted: &Vec<bool>, source: &str) -> (r: bool)
    requires
        sources@.len() == converted@.len(),
    ensures
        r == forall|i: int|
            0 <= i < sources@.len() && (#[trigger] sources@[i])@ == source@ ==> converted@[i],
{
    let mut i: usize = 0;
    while i < sources.len()
        invariant
            i <= sources@.len(),
            sources@.len() == converted@.len(),
            forall|k: int|
                0 <= k < i && (#[trigger] sources@[k])@ == source@ ==> converted@[k],
        decreases sources@.len() - i,
    {
        if text::same_text(sources[i].as_str(), source) && !converted[i] {
            return false;
        }
        i += 1;
    }
    true
}

/// Which trades and movements of cash the lines of a report count: those of the account and
/// of the period, the first and the last second included. A purchase is a trade of the type
/// BUY, a sale one of the type SELL, and shares that were transferred in either direction are
/// transfers. Deposits bring money in and withdrawals take it out, and money that was
/// transferred is neither. What was recorded otherwise stands in no line.
pub proof fn lines_count_by_type(
    a: PeriodActivity,
    trades: Seq<Transaction>,
    cash: Seq<CashEntry>,
    account_id: int,
    start: int,
    end: int,
)
    requires
        activity_matches(a, trades, cash, account_id, start, end),
        trades.len() <= usize::MAX,
        cash.len() <= usize::MAX,
    ensures
        forall|i: int|
            0 <= i < trades.len() ==> {
                let within = (#[trigger] trades[i]).account_id == account_id && start
                    <= trades[i].timestamp <= end;
                let kind = trades[i].transaction_type@;
                &&& a.purchases@.contains(i as usize) <==> within && kind == "BUY"@
                &&& a.sales@.contains(i as usize) <==> within && kind == "SELL"@
                &&& a.security_transfers@.contains(i as usize) <==> within && (kind
                    == "TRANSFER_IN"@ || kind == "TRANSFER_OUT"@)
            },
        forall|i: int|
            0 <= i < cash.len() ==> {
                let within = (#[trigger] cash[i]).account_id == account_id && start
                    <= cash[i].occurred_at <= end;
                let kind = cash[i].kind@;
                &&& a.deposits@.contains(i as usize) <==> within && kind == "DEPOSIT"@
                    && cash[i].sign == AmountSign::Positive
                &&& a.withdrawals@.contains(i as usize) <==> within && kind == "DEPOSIT"@
                    && cash[i].sign == AmountSign::Negative
                &&& a.cash_transfers@.contains(i as usize) <==> within && kind == "TRANSFER"@
            },
        a.purchases@.no_duplicates(),
        a.sales@.no_duplicates(),
        a.security_transfers@.no_duplicates(),
        a.deposits@.no_duplicates(),
        a.withdrawals@.no_duplicates(),
        a.cash_transfers@.no_duplicates(),
        forall|i: usize|
            a.purchases@.contains(i) || a.sales@.contains(i) || #[trigger] a.security_transfers@.contains(
                i,
            ) ==> i < trades.len(),
{
    let t = trades.len() as int;
    let c = cash.len() as int;
    let bought = traded_within(trades, account_id, start, end, |k: Seq<char>| is_purchase(k));
    let sold = traded_within(trades, account_id, start, end, |k: Seq<char>| is_sale(k));
    let moved = traded_within(
        trades,
        account_id,
        start,
        end,
        |k: Seq<char>| is_security_transfer(k),
    );
    let paid_in = moved_within(cash, account_id, start, end, |e: CashEntry| is_money_in(e));
    let paid_out = moved_within(cash, account_id, start, end, |e: CashEntry| is_money_out(e));
    let between = moved_within(cash, account_id, start, end, |e: CashEntry| is_money_moved(e));
    order::selection_lists_kept_positions(t, bought);
    order::selection_lists_kept_positions(t, sold);
    order::selection_lists_kept_positions(t, moved);
    order::selection_lists_kept_positions(c, paid_in);
    order::selection_lists_kept_positions(c, paid_out);
    order::selection_lists_kept_positions(c, between);
    assert forall|i: int| 0 <= i < trades.len() implies {
        let within = (#[trigger] trades[i]).account_id == account_id && start
            <= trades[i].timestamp <= end;
        let kind = trades[i].transaction_type@;
        &&& a.purchases@.contains(i as usize) <==> within && kind == "BUY"@
        &&& a.sales@.contains(i as usize) <==> within && kind == "SELL"@
        &&& a.security_transfers@.contains(i as usize) <==> within && (kind == "TRANSFER_IN"@
            || kind == "TRANSFER_OUT"@)
    } by {
        assert(a.purchases@.contains(i as usize) <==> bought(i));
        assert(a.sales@.contains(i as usize) <==> sold(i));
        assert(a.security_transfers@.contains(i as usize) <==> moved(i));
    }
    assert forall|i: int| 0 <= i < cash.len() implies {
        let within = (#[trigger] cash[i]).account_id == account_id && start <= cash[i].occurred_at
            <= end;
        let kind = cash[i].kind@;
        &&& a.deposits@.contains(i as usize) <==> within && kind == "DEPOSIT"@ && cash[i].sign
            == AmountSign::Positive
        &&& a.withdrawals@.contains(i as usize) <==> within && kind == "DEPOSIT"@ && cash[i].sign
            == AmountSign::Negative
        &&& a.cash_transfers@.contains(i as usize) <==> within && kind == "TRANSFER"@
    } by {
        assert(a.deposits@.contains(i as usize) <==> paid_in(i));
        assert(a.withdrawals@.contains(i as usize) <==> paid_out(i));
        assert(a.cash_transfers@.contains(i as usize) <==> between(i));
    }
}

/// A line of activity stands in a report exactly where it counts something, with the number
/// of what it counts, and no line stands there twice.
pub proof fn lines_stand_where_they_count(a: PeriodActivity, dividends: usize)
    ensures
        ({
            let list = activity_lines_of(a, dividends as int);
            &&& forall|n: usize| #[trigger]
                list.contains((ActivityLine::Purchases, n)) <==> n > 0 && n == a.purchases@.len()
            &&& forall|n: usize| #[trigger]
                list.contains((ActivityLine::Sales, n)) <==> n > 0 && n == a.sales@.len()
            &&& forall|n: usize| #[trigger]
                list.contains((ActivityLine::Deposits, n)) <==> n > 0 && n == a.deposits@.len()
            &&& forall|n: usize| #[trigger]
                list.contains((ActivityLine::Withdrawals, n)) <==> n > 0 && n
                    == a.withdrawals@.len()
            &&& forall|n: usize| #[trigger]
                list.contains((ActivityLine::CashTransfers, n)) <==> n > 0 && n
                    == a.cash_transfers@.len()
            &&& forall|n: usize| #[trigger]
                list.contains((ActivityLine::SecurityTransfers, n)) <==> n > 0 && n
                    == a.security_transfers@.len()
            &&& forall|n: usize| #[trigger]
                list.contains((ActivityLine::Dividends, n)) <==> n > 0 && n == dividends
        }),
{
    let s1 = line_if(ActivityLine::Purchases, a.purchases@.len() as int);
    let s2 = line_if(ActivityLine::Sales, a.sales@.len() as int);
    let s3 = line_if(ActivityLine::Deposits, a.deposits@.len() as int);
    let s4 = line_if(ActivityLine::Withdrawals, a.withdrawals@.len() as int);
    let s5 = line_if(ActivityLine::CashTransfers, a.cash_transfers@.len() as int);
    let s6 = line_if(ActivityLine::SecurityTransfers, a.security_transfers@.len() as int);
    let s7 = line_if(ActivityLine::Dividends, dividends as int);
    let list = activity_lines_of(a, dividends as int);
    assert forall|x: (ActivityLine, usize)| #[trigger] list.contains(x) <==> s1.contains(x)
        || s2.contains(x) || s3.contains(x) || s4.contains(x) || s5.contains(x) || s6.contains(x)
        || s7.contains(x) by {
        in_either(s1, s2, x);
        in_either(s1 + s2, s3, x);
        in_either(s1 + s2 + s3, s4, x);
        in_either(s1 + s2 + s3 + s4, s5, x);
        in_either(s1 + s2 + s3 + s4 + s5, s6, x);
        in_either(s1 + s2 + s3 + s4 + s5 + s6, s7, x);
    }
    line_alone(ActivityLine::Purchases, a.purchases.len());
    line_alone(ActivityLine::Sales, a.sales.len());
    line_alone(ActivityLine::Deposits, a.deposits.len());
    line_alone(ActivityLine::Withdrawals, a.withdrawals.len());
    line_alone(ActivityLine::CashTransfers, a.cash_transfers.len());
    line_alone(ActivityLine::SecurityTransfers, a.security_transfers.len());
    line_alone(ActivityLine::Dividends, dividends);
}

proof fn line_alone(line: ActivityLine, count: usize)
    ensures
        forall|x: (ActivityLine, usize)| #[trigger]
            line_if(line, count as int).contains(x) <==> count > 0 && x == (line, count),
{
    if count > 0 {
        assert(line_if(line, count as int)[0] == (line, count));
    }
}

proof fn in_either<A>(a: Seq<A>, b: Seq<A>, x: A)
    ensures
        (a + b).contains(x) <==> a.contains(x) || b.contains(x),
{
    if a.contains(x) {
        let k = choose|k: int| 0 <= k < a.len() && a[k] == x;
        assert((a + b)[k] == x);
    }
    if b.contains(x) {
        let k = choose|k: int| 0 <= k < b.len() && b[k] == x;
        assert((a + b)[a.len() + k] == x);
    }
}

/// A whole year covers every second of its dates and no other; the year to date covers the
/// dates of the current year up to now.
pub proof fn periods_cover_their_dates(year: i32, now: i64, timestamp: int)
    requires
        year < i32::MAX,
        i32::MIN <= calendar::civil(now as int / 86_400).0 <= i32::MAX,
    ensures
        ReportPeriod::Year(year).span(now as int).0 <= timestamp <= ReportPeriod::Year(year).span(
            now as int,
        ).1 <==> calendar::civil(timestamp / 86_400).0 == year,
        ReportPeriod::Ytd.span(now as int).0 <= timestamp <= ReportPeriod::Ytd.span(
            now as int,
        ).1 <==> timestamp <= now && calendar::civil(timestamp / 86_400).0 == calendar::civil(
            now as int / 86_400,
        ).0,
{
    year_spans_its_dates(year as int, timestamp);
    let current = calendar::civil(now as int / 86_400).0;
    year_spans_its_dates(current, timestamp);
    year_spans_its_dates(current, now as int);
}

/// The periods of an account begin with the year to date, and after it come all completed
/// years down to the one of its first activity, the newest first.
pub proof fn periods_reach_back_to_the_first_year(earliest: i32, current: i32)
    ensures
        ({
            let list = report_periods(earliest as int, current as int);
            &&& list[0] == ReportPeriod::Ytd
            &&& forall|k: int|
                1 <= k < list.len() ==> #[trigger] list[k] == ReportPeriod::Year(
                    (current - k) as i32,
                )
            &&& forall|year: i32| #[trigger]
                list.contains(ReportPeriod::Year(year)) <==> earliest <= year < current
        }),
{
    let list = report_periods(earliest as int, current as int);
    assert forall|year: i32| #[trigger] list.contains(ReportPeriod::Year(year)) <==> earliest
        <= year < current by {
        if earliest <= year < current {
            assert(list[current - year] == ReportPeriod::Year(year));
        }
        if list.contains(ReportPeriod::Year(year)) {
            let k = choose|k: int| 0 <= k < list.len() && list[k] == ReportPeriod::Year(year);
            assert(k >= 1);
            assert(list[k] == ReportPeriod::Year((current - k) as i32));
        }
    }
}

/// The cash at the end of a completed year is made of all movements of the account up to
/// then.
pub proof fn ending_cash_takes_all_movements(
    cash: Seq<CashEntry>,
    account_id: int,
    end: int,
    i: int,
)
    requires
        cash.len() <= usize::MAX,
        0 <= i < cash.len(),
    ensures
        order::selection(cash.len() as int, moved_by(cash, account_id, end)).contains(i as usize)
            <==> cash[i].account_id == account_id && cash[i].occurred_at <= end,
        order::selection(cash.len() as int, moved_by(cash, account_id, end)).no_duplicates(),
{
    order::selection_lists_kept_positions(cash.len() as int, moved_by(cash, account_id, end));
    assert(moved_by(cash, account_id, end)(i) <==> cash[i].account_id == account_id
        && cash[i].occurred_at <= end);
}

/// The distributions of a period are those from its first to its last second, and the rows of
/// a report come in the order of time.
pub proof fn distributions_of_a_period(events: Seq<DividendEvent>, start: int, end: int, i: int)
    requires
        events.len() <= usize::MAX,
        0 <= i < events.len(),
    ensures
        order::selection(events.len() as int, paid_between(events, start, end)).contains(i as usize)
            <==> start <= events[i].timestamp <= end,
{
    order::selection_lists_kept_positions(events.len() as int, paid_between(events, start, end));
    assert(paid_between(events, start, end)(i) <==> start <= events[i].timestamp <= end);
}

pub proof fn rows_come_in_time(times: Seq<i64>)
    requires
        times.len() <= usize::MAX,
    ensures
        ({
            let list = order::arrangement(times.len() as int, |i: int| true, times_ascending(times));
            &&& list.no_duplicates()
            &&& forall|i: usize| #[trigger] list.contains(i) <==> i < times.len()
            &&& forall|a: int, b: int|
                0 <= a < b < list.len() ==> times[#[trigger] list[a] as int]
                    <= times[#[trigger] list[b] as int]
        }),
{
    order::arrangement_sorts_kept_positions(
        times.len() as int,
        |i: int| true,
        times_ascending(times),
    );
}

/// What a report knows of a holding: its cost where its currency can be converted, and its
/// market value where it has a price too.
pub proof fn prices_and_rates_make_values(
    holdings: Seq<ReportHolding>,
    target: Seq<char>,
    rate: Option<(Rate, bool)>,
    i: int,
)
    requires
        0 <= i < holdings.len(),
    ensures
        report_values(holdings, target, rate).len() == holdings.len(),
        ({
            let value = report_values(holdings, target, rate)[i];
            &&& value.basis == rates::conversion_at(holdings[i].currency@, target, rate)
            &&& value.market is Some <==> holdings[i].priced && value.basis is Some
            &&& value.market is Some ==> value.market == value.basis
            &&& text::alike(holdings[i].currency@, target) ==> value.basis == Some(Conversion::Same)
        }),
{
}

/// One holding without a market value leaves the market value of a report unknown, one
/// without a cost its cost, and one payment that cannot be converted its income; and where
/// there is none of these, they are known.
pub proof fn totals_need_every_part(
    values: Seq<ReportValue>,
    payments: Seq<Option<Conversion>>,
    i: int,
)
    ensures
        0 <= i < values.len() && values[i].market is None ==> !market_is_complete(values),
        0 <= i < values.len() && values[i].basis is None ==> !basis_is_complete(values),
        0 <= i < payments.len() && payments[i] is None ==> !payments_are_complete(payments),
        market_is_complete(Seq::empty()) && basis_is_complete(Seq::empty())
            && payments_are_complete(Seq::empty()),
        market_is_complete(values) && values.len() > 0 && 0 <= i < values.len()
            ==> values[i].market is Some,
{
}

/// Reports and their files are named after what they tell, and periods after their years.
pub proof fn reports_are_named(year: i32, now: int)
    ensures
        ReportKind::Portfolio.title_text() == "Portfolio Performance"@,
        ReportKind::Dividends.title_text() == "Dividend Income"@,
        ReportKind::Portfolio.stem() == "portfolio-performance"@,
        ReportKind::Dividends.stem() == "dividend-income"@,
        ReportPeriod::Ytd.label_text() == "Year to Date (YTD)"@,
        ReportPeriod::Year(year).label_text() == numbers::integer_text(year as int),
        ReportPeriod::Year(year).token(now) == numbers::integer_text(year as int),
        calendar::day_number(year as int, 1, 1) * 86_400 <= now < calendar::day_number(
            year + 1,
            1,
            1,
        ) * 86_400 ==> ReportPeriod::Ytd.token(now) == numbers::integer_text(year as int)
            + "-ytd"@,
{
    if calendar::day_number(year as int, 1, 1) * 86_400 <= now < calendar::day_number(
        year + 1,
        1,
        1,
    ) * 86_400 {
        year_is_that_of_its_days(now, year);
    }
}

proof fn year_is_that_of_its_days(now: int, year: i32)
    requires
        calendar::day_number(year as int, 1, 1) * 86_400 <= now < calendar::day_number(
            year + 1,
            1,
            1,
        ) * 86_400,
    ensures
        year_of(now) == year,
{
    let n = now / 86_400;
    calendar::every_day_is_dated(n);
    let (y, m, d) = calendar::civil(n);
    assert(calendar::valid_date(year as int, 1, 1) && calendar::valid_date(year + 1, 1, 1));
    if y < year {
        calendar::dates_are_ordered(y, m, d, year as int, 1, 1);
    }
    if y > year && (y > year + 1 || m > 1 || d > 1) {
        calendar::dates_are_ordered(year + 1, 1, 1, y, m, d);
    }
}

/// A period is dated from its first day to its last, or to today where that comes before.
pub proof fn period_is_dated_up_to_today(year: i32, now: int)
    ensures
        ({
            let start = calendar::day_number(year as int, 1, 1) * 86_400;
            let end = calendar::day_number(year + 1, 1, 1) * 86_400 - 1;
            &&& end <= now ==> ReportPeriod::Year(year).dates_text(now)
                == calendar::distribution_date_text(start) + " - "@
                + calendar::distribution_date_text(end)
            &&& end >= now ==> ReportPeriod::Year(year).dates_text(now)
                == calendar::distribution_date_text(start) + " - "@
                + calendar::distribution_date_text(now)
            &&& start <= now <= end ==> ReportPeriod::Ytd.dates_text(now)
                == calendar::distribution_date_text(start) + " - "@
                + calendar::distribution_date_text(now)
        }),
{
    let start = calendar::day_number(year as int, 1, 1) * 86_400;
    let end = calendar::day_number(year + 1, 1, 1) * 86_400 - 1;
    if start <= now <= end {
        year_is_that_of_its_days(now, year);
    }
}

/// The first year of an account is that of a record of it, and no record of it is older; an
/// account without records has the current year alone.
pub proof fn first_year_is_that_of_a_record(
    trades: Seq<Transaction>,
    cash: Seq<CashEntry>,
    account_id: int,
    current_year: i32,
    year: i32,
    i: int,
    c: int,
)
    requires
        is_earliest_year(trades, cash, account_id, current_year, year),
    ensures
        0 <= i < trades.len() && trades[i].account_id == account_id ==> exists|first: i64|
            first <= trades[i].timestamp && year == #[trigger] year_of(first as int),
        0 <= c < cash.len() && cash[c].account_id == account_id ==> exists|first: i64|
            first <= cash[c].occurred_at && year == #[trigger] year_of(first as int),
        year != current_year ==> (exists|k: int|
            0 <= k < trades.len() && (#[trigger] trades[k]).account_id == account_id && year_of(
                trades[k].timestamp as int,
            ) == year) || exists|k: int|
            0 <= k < cash.len() && (#[trigger] cash[k]).account_id == account_id && year_of(
                cash[k].occurred_at as int,
            ) == year,
{
    if 0 <= i < trades.len() && trades[i].account_id == account_id {
        assert(active_at(trades, cash, account_id, trades[i].timestamp));
    }
    if 0 <= c < cash.len() && cash[c].account_id == account_id {
        assert(active_at(trades, cash, account_id, cash[c].occurred_at));
    }
}

/// What is not known is shown as a dash, and a total that lacks a part as not known.
pub proof fn unknown_amounts_are_dashes(
    raw: Seq<char>,
    negative: bool,
    currency: Seq<char>,
    amount: Option<(Seq<char>, bool)>,
)
    ensures
        amount_text(None, currency) == "—"@,
        signed_amount_text(None, currency) == "—"@,
        amount_text(Some((raw, negative)), currency) == wording::with_currency(
            wording::money_text(raw, negative),
            currency,
        ),
        signed_amount_text(Some((raw, true)), currency) == "−"@ + wording::with_currency(
            wording::money_text(raw, false),
            currency,
        ),
        signed_amount_text(Some((raw, false)), currency) == "+"@ + wording::with_currency(
            wording::money_text(raw, false),
            currency,
        ),
        if_complete(amount, false) is None,
        if_complete(amount, true) == amount,
{
}

/// A row of a report says what it is about and what it comes to.
pub proof fn metrics_say_label_and_value(m: ReportMetric, label: Seq<char>, value: Seq<char>)
    ensures
        metric_is(m, m.label@, m.value@),
        metric_is(m, label, value) ==> m.label@ == label && m.value@ == value,
{
}

/// A security of an account is found wherever the account holds it.
pub proof fn holding_is_found_in_its_account(
    positions: Seq<Position>,
    account_id: int,
    symbol: Seq<char>,
    k: int,
)
    requires
        0 <= k < positions.len(),
        positions[k].account_id == account_id,
        text::alike(positions[k].provider_symbol@, symbol),
    ensures
        exists|i: int|
            #[trigger] first_holding(positions, account_id, symbol, i) && i <= k
                && positions[i].account_id == account_id && text::alike(
                positions[i].provider_symbol@,
                symbol,
            ),
    decreases k,
{
    if forall|j: int| 0 <= j < k ==> !holds(#[trigger] positions[j], account_id, symbol) {
        assert(first_holding(positions, account_id, symbol, k));
    } else {
        let j = choose|j: int| 0 <= j < k && holds(#[trigger] positions[j], account_id, symbol);
        holding_is_found_in_its_account(positions, account_id, symbol, j);
    }
}

/// Trades of a period are converted each by the last rate known when it was made.
pub proof fn trades_take_the_last_rate_of_their_time(
    places: Seq<usize>,
    trades: Seq<Transaction>,
    target: Seq<char>,
    points: Seq<PricePoint>,
    current: Option<bool>,
    p: int,
    k: int,
)
    requires
        0 <= p < places.len(),
        points.len() <= usize::MAX,
    ensures
        trade_parts(places, trades, target, Some(points), current).len() == places.len(),
        ({
            let t = trades[places[p] as int];
            let part = trade_parts(places, trades, target, Some(points), current)[p];
            &&& text::alike(t.currency@, target) ==> part == Some(Conversion::Same)
            &&& text::alike(t.currency@, "USD"@) && text::alike(target, "CAD"@) && 0 <= k
                < points.len() && points[k].timestamp <= t.timestamp && (forall|j: int|
                k < j < points.len() ==> (#[trigger] points[j]).timestamp > t.timestamp) ==> part
                == Some(Conversion::Multiply(Rate::Historical(k as usize)))
        }),
{
    let t = trades[places[p] as int];
    if text::alike(t.currency@, "USD"@) && text::alike(target, "CAD"@) && 0 <= k < points.len()
        && points[k].timestamp <= t.timestamp && (forall|j: int|
        k < j < points.len() ==> (#[trigger] points[j]).timestamp > t.timestamp) {
        rates::last_known_rate_exchanges_dollars(
            t.currency@,
            target,
            points,
            t.timestamp as int,
            current,
            k,
        );
    }
}

/// The lines of a report on activity are named after what they count.
pub proof fn activity_lines_are_named()
    ensures
        line_text(ActivityLine::Purchases) == "Purchases"@,
        line_text(ActivityLine::Sales) == "Sales"@,
        line_text(ActivityLine::Deposits) == "Deposits"@,
        line_text(ActivityLine::Withdrawals) == "Withdrawals"@,
        line_text(ActivityLine::CashTransfers) == "Cash transfers"@,
        line_text(ActivityLine::SecurityTransfers) == "Security transfers"@,
        line_text(ActivityLine::Dividends) == "Dividend distributions"@,
{
}

/// A month is listed exactly where one of the times lies in it, in whatever year.
pub proof fn months_are_those_of_the_times(times: Seq<i64>, month: i64)
    ensures
        pays_in_month(times, month) <==> exists|i: int|
            0 <= i < times.len() && (#[trigger] times[i]) > 0 && calendar::civil(
                times[i] as int / 86_400,
            ).1 == month,
{
    assert forall|i: int| 0 <= i < times.len() implies ((calendar::year_month(
        (#[trigger] times[i]) as int,
    ) matches Some((_, m)) && m == month) <==> times[i] > 0 && calendar::civil(
        times[i] as int / 86_400,
    ).1 == month) by {
        calendar::every_day_is_dated(times[i] as int / 86_400);
    }
}

proof fn single_hyphens_stay(s: Seq<char>)
    requires
        forall|i: int| 0 < i < s.len() ==> !(#[trigger] s[i] == '-' && s[i - 1] == '-'),
    ensures
        single_hyphens(s) == s,
    decreases s.len(),
{
    if s.len() > 0 {
        let before = s.drop_last();
        assert forall|i: int| 0 < i < before.len() implies !(#[trigger] before[i] == '-'
            && before[i - 1] == '-') by {
            assert(before[i] == s[i] && before[i - 1] == s[i - 1]);
        }
        single_hyphens_stay(before);
        if before.len() > 0 {
            assert(s[s.len() - 1] == s.last());
            assert(s[s.len() - 2] == before.last());
        }
        assert(before.push(s.last()) =~= s);
    } else {
        assert(s =~= Seq::<char>::empty());
    }
}

/// Two words with one mark between them are named with a hyphen there; a plain word is named
/// as it is, but for its capitals; and what has no letters or digits is just an account.
pub proof fn files_are_named_after_the_account(a: Seq<char>, mark: char, b: Seq<char>)
    requires
        a.len() > 0,
        b.len() > 0,
        forall|i: int|
            0 <= i < a.len() ==> 'a' <= #[trigger] a[i] && a[i] <= 'z' || '0' <= a[i] && a[i]
                <= '9',
        forall|i: int|
            0 <= i < b.len() ==> 'a' <= #[trigger] b[i] && b[i] <= 'z' || '0' <= b[i] && b[i]
                <= '9',
        !('a' <= mark && mark <= 'z' || 'A' <= mark && mark <= 'Z' || '0' <= mark && mark <= '9'),
    ensures
        slug(a) == a,
        slug(text::uppercase(a)) == a,
        slug(a + seq![mark] + b) == a + seq!['-'] + b,
        slug(Seq::empty()) == "account"@,
{
    plain_text_is_its_slug(a, a);
    let upper = text::uppercase(a);
    assert forall|i: int| 0 <= i < a.len() implies text::lower(#[trigger] upper[i]) == a[i] by {}
    plain_text_is_its_slug(upper, a);
    let s = a + seq![mark] + b;
    let want = a + seq!['-'] + b;
    assert(!text::blank(s[0]) && !text::blank(s.last()));
    assert(text::trim_front(s) == s);
    assert(text::trimmed(s) == s);
    assert(hyphened(text::lowercase(s)) =~= want);
    assert forall|i: int| 0 < i < want.len() implies !(#[trigger] want[i] == '-' && want[i - 1]
        == '-') by {}
    single_hyphens_stay(want);
    assert(want[0] == a[0] && want.last() == b.last());
    assert(text::lowercase(text::trimmed(Seq::<char>::empty())) =~= Seq::<char>::empty());
    assert(hyphened(Seq::<char>::empty()) =~= Seq::<char>::empty());
    assert(single_hyphens(Seq::<char>::empty()) =~= Seq::<char>::empty());
}

proof fn plain_text_is_its_slug(s: Seq<char>, want: Seq<char>)
    requires
        s.len() > 0,
        s.len() == want.len(),
        forall|i: int| 0 <= i < s.len() ==> text::lower(#[trigger] s[i]) == want[i],
        forall|i: int| 0 <= i < s.len() ==> !text::blank(#[trigger] s[i]),
        forall|i: int|
            0 <= i < want.len() ==> 'a' <= #[trigger] want[i] && want[i] <= 'z' || '0' <= want[i]
                && want[i] <= '9',
    ensures
        slug(s) == want,
{
    assert(text::trim_front(s) == s);
    assert(text::trimmed(s) == s);
    assert(hyphened(text::lowercase(s)) =~= want);
    single_hyphens_stay(want);
}

} // verus!
