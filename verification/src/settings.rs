//! Settings, and the currencies that follow from them.

use vstd::prelude::*;
use crate::calendar;
use crate::model::{Account, Position};
use crate::numbers;
use crate::text;

verus! {

pub open spec fn is_dollar(currency: Seq<char>) -> bool {
    currency == "CAD"@ || currency == "USD"@
}

fn dollar(currency: &str) -> (r: bool)
    ensures
        r == is_dollar(currency@),
{
    text::same_text(currency, "CAD") || text::same_text(currency, "USD")
}

/// The currency that the portfolio is shown in: the chosen one, else that of the first
/// account, as long as it is one of the two dollars, else US dollars.
pub open spec fn base_of(setting: Option<Seq<char>>, first_account: Option<Seq<char>>) -> Seq<char> {
    match setting {
        Some(chosen) if is_dollar(chosen) => chosen,
        _ => match first_account {
            Some(currency) if is_dollar(currency) => currency,
            _ => "USD"@,
        },
    }
}

pub fn base_currency(setting: Option<&str>, accounts: &[Account]) -> (r: String)
    ensures
        r@ == base_of(
            crate::charts::text_view(setting),
            if accounts@.len() > 0 {
                Some(accounts@[0].currency@)
            } else {
                None
            },
        ),
{
    match setting {
        Some(chosen) => {
            if dollar(chosen) {
                return chosen.to_owned();
            }
        },
        None => {},
    }
    if accounts.len() > 0 && dollar(accounts[0].currency.as_str()) {
        accounts[0].currency.clone()
    } else {
        "USD".to_owned()
    }
}

/// The base currency is always one of the two dollars.
pub proof fn base_is_a_dollar(setting: Option<Seq<char>>, first_account: Option<Seq<char>>)
    ensures
        is_dollar(base_of(setting, first_account)),
{
}

/// The own theme is used unless it was switched off.
pub fn aureus_theme_enabled(setting: Option<&str>) -> (r: bool)
    ensures
        r == !(setting is Some && setting->0@ == "0"@),
{
    match setting {
        Some(value) => !text::same_text(value, "0"),
        None => true,
    }
}

pub open spec fn currency_choice(index: int) -> Seq<char> {
    if index == 1 {
        "USD"@
    } else {
        "CAD"@
    }
}

pub fn currency_at(index: u32) -> (r: &'static str)
    ensures
        r@ == currency_choice(index as int),
{
    if index == 1 {
        "USD"
    } else {
        "CAD"
    }
}

/// A currency that an exchange rate is needed for.
pub open spec fn exchanged(currency: Seq<char>, base: Seq<char>) -> bool {
    currency != base && is_dollar(currency) && is_dollar(base)
}

pub open spec fn positions_need_fx(positions: Seq<Position>, base: Seq<char>) -> bool {
    exists|i: int| 0 <= i < positions.len() && exchanged((#[trigger] positions[i]).currency@, base)
}

pub open spec fn accounts_need_fx(accounts: Seq<Account>, base: Seq<char>) -> bool {
    exists|i: int|
        0 <= i < accounts.len() && (#[trigger] accounts[i]).holds_cash && exchanged(
            accounts[i].currency@,
            base,
        )
}

fn needs_exchange(currency: &str, base: &str) -> (r: bool)
    ensures
        r == exchanged(currency@, base@),
{
    !text::same_text(currency, base) && dollar(currency) && dollar(base)
}

pub fn portfolio_needs_fx(positions: &[Position], base: &str) -> (r: bool)
    ensures
        r == positions_need_fx(positions@, base@),
{
    let mut i: usize = 0;
    while i < positions.len()
        invariant
            i <= positions@.len(),
            forall|k: int| 0 <= k < i ==> !exchanged((#[trigger] positions@[k]).currency@, base@),
        decreases positions@.len() - i,
    {
        if needs_exchange(positions[i].currency.as_str(), base) {
            return true;
        }
        i += 1;
    }
    false
}

pub fn portfolio_needs_fx_with_cash(positions: &[Position], accounts: &[Account], base: &str) -> (r:
    bool)
    ensures
        r == (positions_need_fx(positions@, base@) || accounts_need_fx(accounts@, base@)),
{
    if portfolio_needs_fx(positions, base) {
        return true;
    }
    let mut i: usize = 0;
    while i < accounts.len()
        invariant
            i <= accounts@.len(),
            !positions_need_fx(positions@, base@),
            forall|k: int|
                0 <= k < i ==> !((#[trigger] accounts@[k]).holds_cash && exchanged(
                    accounts@[k].currency@,
                    base@,
                )),
        decreases accounts@.len() - i,
    {
        if accounts[i].holds_cash && needs_exchange(accounts[i].currency.as_str(), base) {
            return true;
        }
        i += 1;
    }
    false
}

/// The age of the oldest quote; nothing where there is no quote.
pub open spec fn oldest_quote(positions: Seq<Position>) -> Option<i64>
    decreases positions.len(),
{
    if positions.len() == 0 {
        None
    } else {
        match (oldest_quote(positions.drop_last()), positions.last().quote_updated_at) {
            (Some(a), Some(b)) => if a <= b {
                Some(a)
            } else {
                Some(b)
            },
            (Some(a), None) => Some(a),
            (None, b) => b,
        }
    }
}

pub open spec fn all_quoted(positions: Seq<Position>) -> bool {
    forall|i: int| 0 <= i < positions.len() ==> (#[trigger] positions[i]).quote_updated_at is Some
}

pub open spec fn all_in_dollars(positions: Seq<Position>) -> bool {
    forall|i: int| 0 <= i < positions.len() ==> is_dollar((#[trigger] positions[i]).currency@)
}

/// The parts of the line about prices: the state of the quotes, the exchange rate where
/// one is needed, and a hint at other currencies.
pub open spec fn market_status_parts(
    positions: Seq<Position>,
    base: Seq<char>,
    state: Seq<char>,
    rate: Option<(Seq<char>, Seq<char>)>,
    now: int,
) -> Seq<Seq<char>> {
    let quotes = match oldest_quote(positions) {
        Some(oldest) => {
            let age = calendar::relative_text(numbers::saturated(now - oldest));
            if all_quoted(positions) {
                seq![state + " · oldest "@ + age]
            } else {
                seq!["Some quotes unavailable · cached "@ + age]
            }
        },
        None => if positions.len() == 0 {
            Seq::empty()
        } else {
            seq!["Quotes unavailable"@]
        },
    };
    let fx = if positions_need_fx(positions, base) {
        match rate {
            Some((rate, date)) => seq!["USD/CAD "@ + rate + " · "@ + date],
            None => seq!["waiting for USD/CAD rate"@],
        }
    } else {
        Seq::empty()
    };
    let others = if all_in_dollars(positions) {
        Seq::empty()
    } else {
        seq!["some currencies are shown natively"@]
    };
    quotes + fx + others
}

/// The parts of a line with a dot between them.
pub open spec fn joined(parts: Seq<Seq<char>>) -> Seq<char>
    decreases parts.len(),
{
    if parts.len() == 0 {
        Seq::empty()
    } else if parts.len() == 1 {
        parts[0]
    } else {
        joined(parts.drop_last()) + " · "@ + parts.last()
    }
}

fn add_part(line: &mut String, Ghost(parts): Ghost<Seq<Seq<char>>>, part: &str, first: bool)
    requires
        old(line)@ == joined(parts),
        first == (parts.len() == 0),
    ensures
        final(line)@ == joined(parts.push(part@)),
{
    assert(parts.push(part@).drop_last() =~= parts);
    if !first {
        line.append(" · ");
    }
    line.append(part);
    assert(first ==> line@ =~= part@);
}

/// The line about prices. `state` is the word for the age of the oldest quote; `rate` is
/// the exchange rate and its date.
#[verifier::loop_isolation(false)]
pub fn market_status_text(
    positions: &[Position],
    base: &str,
    state: &str,
    rate: Option<(&str, &str)>,
    now: i64,
) -> (r: String)
    ensures
        r@ == joined(
            market_status_parts(
                positions@,
                base@,
                state@,
                crate::charts::bounds_view(rate),
                now as int,
            ),
        ),
{
    let mut oldest: Option<i64> = None;
    let mut quoted = true;
    let mut dollars = true;
    let mut i: usize = 0;
    assert(positions@.take(0) =~= Seq::empty());
    while i < positions.len()
        invariant
            i <= positions@.len(),
            oldest == oldest_quote(positions@.take(i as int)),
            quoted == forall|k: int|
                0 <= k < i ==> (#[trigger] positions@[k]).quote_updated_at is Some,
            dollars == forall|k: int|
                0 <= k < i ==> is_dollar((#[trigger] positions@[k]).currency@),
        decreases positions@.len() - i,
    {
        assert(positions@.take(i + 1).drop_last() =~= positions@.take(i as int));
        assert(positions@.take(i + 1).last() == positions@[i as int]);
        let p = &positions[i];
        match p.quote_updated_at {
            Some(time) => {
                oldest = match oldest {
                    Some(a) => if a <= time {
                        Some(a)
                    } else {
                        Some(time)
                    },
                    None => Some(time),
                };
            },
            None => {
                quoted = false;
            },
        }
        if !dollar(p.currency.as_str()) {
            dollars = false;
        }
        i += 1;
    }
    assert(positions@.take(i as int) =~= positions@);
    let mut line = String::new();
    let ghost mut parts: Seq<Seq<char>> = Seq::empty();
    let mut empty = true;
    assert(line@ =~= joined(parts));
    match oldest {
        Some(time) => {
            let age = calendar::relative_time(now, time);
            let mut part = if quoted {
                let mut t = state.to_owned();
                t.append(" · oldest ");
                t
            } else {
                "Some quotes unavailable · cached ".to_owned()
            };
            part.append(age.as_str());
            add_part(&mut line, Ghost(parts), part.as_str(), empty);
            proof {
                parts = parts.push(part@);
            }
            empty = false;
        },
        None => {
            if positions.len() > 0 {
                add_part(&mut line, Ghost(parts), "Quotes unavailable", empty);
                proof {
                    parts = parts.push("Quotes unavailable"@);
                }
                empty = false;
            }
        },
    }
    let ghost quotes = parts;
    if portfolio_needs_fx(positions, base) {
        let mut part = String::new();
        match rate {
            Some((value, date)) => {
                part.append("USD/CAD ");
                part.append(value);
                part.append(" · ");
                part.append(date);
                assert(part@ =~= "USD/CAD "@ + value@ + " · "@ + date@);
            },
            None => {
                part.append("waiting for USD/CAD rate");
                assert(part@ =~= "waiting for USD/CAD rate"@);
            },
        }
        add_part(&mut line, Ghost(parts), part.as_str(), empty);
        proof {
            parts = parts.push(part@);
        }
        empty = false;
    }
    if !dollars {
        add_part(&mut line, Ghost(parts), "some currencies are shown natively", empty);
        proof {
            parts = parts.push("some currencies are shown natively"@);
        }
    }
    proof {
        if oldest is None && positions@.len() > 0 {
            no_quote_means_some_missing(positions@);
        }
        assert(parts =~= market_status_parts(
            positions@,
            base@,
            state@,
            crate::charts::bounds_view(rate),
            now as int,
        ));
    }
    line
}

proof fn no_quote_means_some_missing(positions: Seq<Position>)
    requires
        oldest_quote(positions) is None,
        positions.len() > 0,
    ensures
        !all_quoted(positions),
{
    assert(positions[positions.len() - 1].quote_updated_at is None);
}

/// The base currency that a choice leads to; nothing where it changes nothing.
pub fn chosen_base(index: u32, current: &str) -> (r: Option<&'static str>)
    ensures
        match r {
            Some(currency) => index <= 1 && currency@ == currency_choice(index as int) && currency@
                != current@,
            None => index > 1 || current@ == currency_choice(index as int),
        },
{
    if index > 1 {
        return None;
    }
    let currency = currency_at(index);
    if text::same_text(current, currency) {
        None
    } else {
        Some(currency)
    }
}

/// The entry of the currency selector for the base currency.
pub fn base_index(base: &str) -> (r: u32)
    ensures
        r == if base@ == "USD"@ {
            1u32
        } else {
            0u32
        },
{
    if text::same_text(base, "USD") {
        1
    } else {
        0
    }
}

/// The currency selector shows the base currency.
pub proof fn base_index_shows_base(setting: Option<Seq<char>>, first_account: Option<Seq<char>>)
    ensures
        ({
            let base = base_of(setting, first_account);
            currency_choice(
                if base == "USD"@ {
                    1
                } else {
                    0
                },
            ) == base
        }),
{
}

pub fn theme_setting(active: bool) -> (r: &'static str)
    ensures
        r@ == if active {
            "1"@
        } else {
            "0"@
        },
{
    if active {
        "1"
    } else {
        "0"
    }
}

/// The theme that was stored is the one that is used.
pub proof fn theme_setting_is_kept(active: bool)
    ensures
        active == !((if active {
            "1"@
        } else {
            "0"@
        }) == "0"@),
{
    reveal_strlit("0");
    reveal_strlit("1");
    assert("0"@[0] == '0' && "1"@[0] == '1');
}

/// The base currency is the one that was chosen; without a choice it is that of the first
/// account; and where neither is a dollar it is the American one.
pub proof fn choice_comes_before_the_account(
    chosen: Seq<char>,
    account: Seq<char>,
    first_account: Option<Seq<char>>,
)
    ensures
        base_of(Some("CAD"@), first_account) == "CAD"@,
        base_of(Some("USD"@), first_account) == "USD"@,
        chosen != "CAD"@ && chosen != "USD"@ ==> base_of(Some(chosen), first_account) == base_of(
            None,
            first_account,
        ),
        base_of(None, Some("CAD"@)) == "CAD"@,
        account != "CAD"@ ==> base_of(None, Some(account)) == "USD"@,
        base_of(None, None) == "USD"@,
{
}

/// The choice of a currency: Canadian dollars at every place but the second.
pub proof fn currencies_have_their_places(index: int)
    ensures
        currency_choice(1) == "USD"@,
        index != 1 ==> currency_choice(index) == "CAD"@,
{
}

/// A rate is needed exactly where a holding, or the cash of an account, is in dollars of the
/// other kind.
pub proof fn rate_is_needed_for_other_dollars(positions: Seq<Position>, accounts: Seq<Account>)
    ensures
        positions_need_fx(positions, "CAD"@) <==> exists|i: int|
            0 <= i < positions.len() && (#[trigger] positions[i]).currency@ == "USD"@,
        positions_need_fx(positions, "USD"@) <==> exists|i: int|
            0 <= i < positions.len() && (#[trigger] positions[i]).currency@ == "CAD"@,
        accounts_need_fx(accounts, "CAD"@) <==> exists|i: int|
            0 <= i < accounts.len() && (#[trigger] accounts[i]).holds_cash && accounts[i].currency@
                == "USD"@,
        accounts_need_fx(accounts, "USD"@) <==> exists|i: int|
            0 <= i < accounts.len() && (#[trigger] accounts[i]).holds_cash && accounts[i].currency@
                == "CAD"@,
        forall|base: Seq<char>|
            base != "CAD"@ && base != "USD"@ ==> !(#[trigger] positions_need_fx(positions, base))
                && !accounts_need_fx(accounts, base),
{
    reveal_strlit("USD");
    reveal_strlit("CAD");
    assert("USD"@[0] == 'U' && "CAD"@[0] == 'C');
}

/// The oldest quote is one of those known, and none of them is older.
pub proof fn oldest_quote_is_the_oldest(positions: Seq<Position>, i: int)
    requires
        0 <= i < positions.len(),
    ensures
        positions[i].quote_updated_at matches Some(time) ==> oldest_quote(positions) is Some
            && oldest_quote(positions)->0 <= time,
        oldest_quote(positions) is Some ==> exists|k: int|
            0 <= k < positions.len() && (#[trigger] positions[k]).quote_updated_at == oldest_quote(
                positions,
            ),
    decreases positions.len(),
{
    let before = positions.drop_last();
    assert(positions.last() == positions[positions.len() - 1]);
    if before.len() > 0 {
        let j = if i < before.len() {
            i
        } else {
            0
        };
        oldest_quote_is_the_oldest(before, j);
        assert(before[j] == positions[j]);
        if oldest_quote(before) is Some {
            let k = choose|k: int|
                0 <= k < before.len() && (#[trigger] before[k]).quote_updated_at == oldest_quote(
                    before,
                );
            assert(positions[k] == before[k]);
        }
    } else {
        assert(oldest_quote(before) is None);
    }
}

/// What the market status says of the quotes: nothing without holdings, the age of the oldest
/// one where every holding has one, and a warning where one is missing.
pub proof fn status_tells_of_missing_quotes(
    positions: Seq<Position>,
    base: Seq<char>,
    state: Seq<char>,
    rate: Option<(Seq<char>, Seq<char>)>,
    now: int,
    i: int,
)
    ensures
        ({
            let parts = market_status_parts(positions, base, state, rate, now);
            let old = oldest_quote(positions);
            &&& positions.len() == 0 ==> parts.len() == 0
            &&& old is Some && (forall|k: int|
                0 <= k < positions.len() ==> (#[trigger] positions[k]).quote_updated_at is Some)
                ==> parts.len() > 0 && parts[0] == state + " · oldest "@ + calendar::relative_text(
                numbers::saturated(now - old->0),
            )
            &&& old is Some && 0 <= i < positions.len() && positions[i].quote_updated_at is None
                ==> parts.len() > 0 && parts[0] == "Some quotes unavailable · cached "@
                + calendar::relative_text(numbers::saturated(now - old->0))
            &&& old is None && positions.len() > 0 ==> parts.len() > 0 && parts[0]
                == "Quotes unavailable"@
        }),
{
}

/// What the market status says of currencies: it names the rate where one is needed, or says
/// that it is awaited; and says so where a holding is in neither kind of dollars.
pub proof fn status_tells_of_currencies(
    positions: Seq<Position>,
    base: Seq<char>,
    state: Seq<char>,
    rate: Seq<char>,
    date: Seq<char>,
    now: int,
)
    ensures
        ({
            let with = market_status_parts(positions, base, state, Some((rate, date)), now);
            let waiting = market_status_parts(positions, base, state, None, now);
            let foreign = exists|k: int|
                0 <= k < positions.len() && (#[trigger] positions[k]).currency@ != "CAD"@
                    && positions[k].currency@ != "USD"@;
            let quotes: int = if positions.len() > 0 {
                1
            } else {
                0
            };
            let others: int = if foreign {
                1
            } else {
                0
            };
            &&& with.len() == waiting.len()
            &&& foreign ==> with.len() > 0 && with.last() == "some currencies are shown natively"@
                && waiting.last() == with.last()
            &&& positions_need_fx(positions, base) ==> {
                &&& with.len() == quotes + 1 + others
                &&& with[quotes] == "USD/CAD "@ + rate + " · "@ + date
                &&& waiting[quotes] == "waiting for USD/CAD rate"@
            }
            &&& !positions_need_fx(positions, base) ==> with.len() == quotes + others
        }),
{
    no_quote_means_some_missing_or_none(positions);
}

proof fn no_quote_means_some_missing_or_none(positions: Seq<Position>)
    ensures
        positions.len() == 0 ==> oldest_quote(positions) is None,
        all_in_dollars(positions) <==> !(exists|k: int|
            0 <= k < positions.len() && (#[trigger] positions[k]).currency@ != "CAD"@
                && positions[k].currency@ != "USD"@),
{
}

/// Parts of the status are joined with a dot between any two of them.
pub proof fn parts_are_joined_with_dots(parts: Seq<Seq<char>>, part: Seq<char>)
    ensures
        joined(Seq::empty()) == Seq::<char>::empty(),
        joined(seq![part]) == part,
        parts.len() > 0 ==> joined(parts.push(part)) == joined(parts) + " · "@ + part,
{
    assert(parts.push(part).drop_last() =~= parts);
}

} // verus!
