//! Which price and which exchange rate applies at a time.

use vstd::prelude::*;
use crate::model::{PricePoint, Transaction};
use crate::text;

verus! {

/// The last of the points that lies at or before a time.
pub open spec fn last_by(points: Seq<PricePoint>, timestamp: int) -> Option<usize>
    decreases points.len(),
{
    if points.len() == 0 {
        None
    } else if points.last().timestamp <= timestamp {
        Some((points.len() - 1) as usize)
    } else {
        last_by(points.drop_last(), timestamp)
    }
}

/// In a history that runs forward the last point at or before a time has every later
/// point after that time.
pub proof fn last_point_splits_history(points: Seq<PricePoint>, timestamp: int)
    requires
        points.len() <= usize::MAX,
    ensures
        match last_by(points, timestamp) {
            Some(i) => {
                &&& i < points.len()
                &&& points[i as int].timestamp <= timestamp
                &&& forall|k: int| i < k < points.len() ==> points[k].timestamp > timestamp
            },
            None => forall|k: int| 0 <= k < points.len() ==> points[k].timestamp > timestamp,
        },
    decreases points.len(),
{
    if points.len() > 0 && points.last().timestamp > timestamp {
        let shorter = points.drop_last();
        last_point_splits_history(shorter, timestamp);
        match last_by(points, timestamp) {
            Some(i) => {
                assert(points[i as int] == shorter[i as int]);
                assert forall|k: int| i < k < points.len() implies points[k].timestamp
                    > timestamp by {
                    if k < shorter.len() {
                        assert(points[k] == shorter[k]);
                    }
                }
            },
            None => {
                assert forall|k: int| 0 <= k < points.len() implies points[k].timestamp
                    > timestamp by {
                    if k < shorter.len() {
                        assert(points[k] == shorter[k]);
                    }
                }
            },
        }
    }
}

pub open spec fn known_by(points: Option<Seq<PricePoint>>, timestamp: int) -> Option<usize> {
    match points {
        Some(points) => last_by(points, timestamp),
        None => None,
    }
}

pub open spec fn points_view(points: Option<&[PricePoint]>) -> Option<Seq<PricePoint>> {
    match points {
        Some(points) => Some(points@),
        None => None,
    }
}

/// The position of the closing price that was known at a time.
#[verifier::loop_isolation(false)]
pub fn historical_close_at(points: Option<&[PricePoint]>, timestamp: i64) -> (r: Option<usize>)
    ensures
        r == known_by(points_view(points), timestamp as int),
{
    match points {
        None => None,
        Some(points) => {
            let mut n: usize = points.len();
            assert(points@.take(n as int) =~= points@);
            while n > 0
                invariant
                    n <= points@.len(),
                    last_by(points@.take(n as int), timestamp as int) == last_by(
                        points@,
                        timestamp as int,
                    ),
                decreases n,
            {
                assert(points@.take(n as int).last() == points@[n - 1]);
                if points[n - 1].timestamp <= timestamp {
                    return Some(n - 1);
                }
                assert(points@.take(n as int).drop_last() =~= points@.take(n - 1));
                n -= 1;
            }
            None
        },
    }
}

/// The position of the exchange rate that was known at a time.
pub fn historical_fx_at(points: Option<&[PricePoint]>, timestamp: i64) -> (r: Option<usize>)
    ensures
        r == known_by(points_view(points), timestamp as int),
{
    historical_close_at(points, timestamp)
}

/// A trade of a security, at or before a time, with a price.
pub open spec fn prices(t: Transaction, symbol: Seq<char>, timestamp: int) -> bool {
    text::alike(t.provider_symbol@, symbol) && t.timestamp <= timestamp && t.priced
}

/// The last trade in the order given that prices a security at a time.
pub open spec fn last_priced(
    trades: Seq<Transaction>,
    order: Seq<usize>,
    symbol: Seq<char>,
    timestamp: int,
) -> Option<usize>
    decreases order.len(),
{
    if order.len() == 0 {
        None
    } else if prices(trades[order.last() as int], symbol, timestamp) {
        Some(order.last())
    } else {
        last_priced(trades, order.drop_last(), symbol, timestamp)
    }
}

/// The latest trade, in the order given, from which a security can be priced at a time.
pub fn transaction_price_at(
    transactions: &[Transaction],
    order: &Vec<usize>,
    symbol: &str,
    timestamp: i64,
) -> (r: Option<usize>)
    requires
        forall|k: int| 0 <= k < order@.len() ==> #[trigger] order@[k] < transactions@.len(),
    ensures
        r == last_priced(transactions@, order@, symbol@, timestamp as int),
{
    let mut n: usize = order.len();
    assert(order@.take(n as int) =~= order@);
    while n > 0
        invariant
            n <= order@.len(),
            forall|k: int| 0 <= k < order@.len() ==> #[trigger] order@[k] < transactions@.len(),
            last_priced(transactions@, order@.take(n as int), symbol@, timestamp as int)
                == last_priced(transactions@, order@, symbol@, timestamp as int),
        decreases n,
    {
        assert(order@.take(n as int).last() == order@[n - 1]);
        let t = &transactions[order[n - 1]];
        if text::same_letters(t.provider_symbol.as_str(), symbol) && t.timestamp <= timestamp
            && t.priced {
            return Some(order[n - 1]);
        }
        assert(order@.take(n as int).drop_last() =~= order@.take(n - 1));
        n -= 1;
    }
    None
}

/// Where an exchange rate, in Canadian dollars for one US dollar, is found.
#[derive(Clone, Copy, PartialEq, Eq, Structural)]
pub enum Rate {
    Historical(usize),
    Current,
}

/// How an amount is converted.
#[derive(Clone, Copy, PartialEq, Eq, Structural)]
pub enum Conversion {
    Same,
    Multiply(Rate),
    Divide(Rate),
}

/// The rate known at a time, or else the current one, and whether it is above zero.
pub open spec fn rate_at(
    points: Option<Seq<PricePoint>>,
    timestamp: int,
    current: Option<bool>,
) -> Option<(Rate, bool)> {
    match known_by(points, timestamp) {
        Some(i) => Some((Rate::Historical(i), points->0[i as int].positive)),
        None => match current {
            Some(positive) => Some((Rate::Current, positive)),
            None => None,
        },
    }
}

/// The conversion between two currencies. Only the two dollars are exchanged, and a
/// rate that is not above zero divides nothing.
pub open spec fn conversion(
    same: bool,
    usd_to_cad: bool,
    cad_to_usd: bool,
    rate: Option<(Rate, bool)>,
) -> Option<Conversion> {
    if same {
        Some(Conversion::Same)
    } else {
        match rate {
            None => None,
            Some((rate, positive)) => if usd_to_cad {
                Some(Conversion::Multiply(rate))
            } else if cad_to_usd && positive {
                Some(Conversion::Divide(rate))
            } else {
                None
            },
        }
    }
}

/// The conversion of an amount at a time, the case of the currency codes aside.
pub open spec fn conversion_at(
    from: Seq<char>,
    to: Seq<char>,
    rate: Option<(Rate, bool)>,
) -> Option<Conversion> {
    conversion(
        text::alike(from, to),
        text::alike(from, "USD"@) && text::alike(to, "CAD"@),
        text::alike(from, "CAD"@) && text::alike(to, "USD"@),
        rate,
    )
}

/// The conversion of an amount at a time where the currency codes are taken as written.
pub open spec fn exact_conversion_at(
    from: Seq<char>,
    to: Seq<char>,
    rate: Option<(Rate, bool)>,
) -> Option<Conversion> {
    conversion(
        from == to,
        from == "USD"@ && to == "CAD"@,
        from == "CAD"@ && to == "USD"@,
        rate,
    )
}

fn find_rate(
    points: Option<&[PricePoint]>,
    timestamp: i64,
    current: Option<bool>,
) -> (r: Option<(Rate, bool)>)
    ensures
        r == rate_at(points_view(points), timestamp as int, current),
{
    match historical_fx_at(points, timestamp) {
        Some(i) => match points {
            Some(points) => {
                let count: usize = points.len();
                assert(count == points@.len());
                proof {
                    last_point_splits_history(points@, timestamp as int);
                }
                Some((Rate::Historical(i), points[i].positive))
            },
            None => None,
        },
        None => match current {
            Some(positive) => Some((Rate::Current, positive)),
            None => None,
        },
    }
}

fn choose_conversion(
    same: bool,
    usd_to_cad: bool,
    cad_to_usd: bool,
    rate: Option<(Rate, bool)>,
) -> (r: Option<Conversion>)
    ensures
        r == conversion(same, usd_to_cad, cad_to_usd, rate),
{
    if same {
        return Some(Conversion::Same);
    }
    match rate {
        None => None,
        Some((rate, positive)) => if usd_to_cad {
            Some(Conversion::Multiply(rate))
        } else if cad_to_usd && positive {
            Some(Conversion::Divide(rate))
        } else {
            None
        },
    }
}

/// How an amount of a time is converted: by the rate known at that time, or else by the
/// current one. `current` says whether the current rate, if there is one, is above zero.
pub fn report_convert_at(
    from_currency: &str,
    to_currency: &str,
    fx_points: Option<&[PricePoint]>,
    timestamp: i64,
    current: Option<bool>,
) -> (r: Option<Conversion>)
    ensures
        r == conversion_at(
            from_currency@,
            to_currency@,
            rate_at(points_view(fx_points), timestamp as int, current),
        ),
{
    let same = text::same_letters(from_currency, to_currency);
    let usd_to_cad = text::same_letters(from_currency, "USD") && text::same_letters(
        to_currency,
        "CAD",
    );
    let cad_to_usd = text::same_letters(from_currency, "CAD") && text::same_letters(
        to_currency,
        "USD",
    );
    choose_conversion(same, usd_to_cad, cad_to_usd, find_rate(fx_points, timestamp, current))
}

/// How an amount in the portfolio's history is converted: by the rate known then.
pub fn history_convert_at(
    from_currency: &str,
    to_currency: &str,
    fx_points: Option<&[PricePoint]>,
    timestamp: i64,
) -> (r: Option<Conversion>)
    ensures
        r == exact_conversion_at(
            from_currency@,
            to_currency@,
            rate_at(points_view(fx_points), timestamp as int, None),
        ),
{
    let same = text::same_text(from_currency, to_currency);
    let usd_to_cad = text::same_text(from_currency, "USD") && text::same_text(to_currency, "CAD");
    let cad_to_usd = text::same_text(from_currency, "CAD") && text::same_text(to_currency, "USD");
    choose_conversion(same, usd_to_cad, cad_to_usd, find_rate(fx_points, timestamp, None))
}

/// What one conversion multiplies by, the conversion back divides by, as long as the
/// rate is above zero.
pub proof fn conversions_are_inverse(from: Seq<char>, to: Seq<char>, rate: Rate)
    ensures
        conversion_at(from, to, Some((rate, true))) == Some(Conversion::Multiply(rate))
            <==> conversion_at(to, from, Some((rate, true))) == Some(Conversion::Divide(rate)),
        conversion_at(from, to, Some((rate, true))) == Some(Conversion::Same) <==> conversion_at(
            to,
            from,
            Some((rate, true)),
        ) == Some(Conversion::Same),
{
    reveal_strlit("USD");
    reveal_strlit("CAD");
    assert(text::lowercase("USD"@)[0] == 'u');
    assert(text::lowercase("CAD"@)[0] == 'c');
}

/// An amount in the currency that is asked for stays as it is, whether there is a rate or
/// not; and without a rate nothing else is converted.
pub proof fn own_currency_needs_no_rate(
    from: Seq<char>,
    to: Seq<char>,
    rate: Option<(Rate, bool)>,
)
    ensures
        text::alike(from, to) ==> conversion_at(from, to, rate) == Some(Conversion::Same),
        !text::alike(from, to) ==> conversion_at(from, to, None) is None,
        from == to ==> exact_conversion_at(from, to, rate) == Some(Conversion::Same),
        from != to ==> exact_conversion_at(from, to, None) is None,
{
}

/// The price and the conversion from which a holding is valued.
#[derive(Clone, Copy, PartialEq, Eq, Structural)]
pub enum PriceSource {
    Close(usize),
    Trade(usize),
}

/// How a holding is valued at a time: by its last closing price, or else by its last
/// trade, converted to the base currency. Without a history it is not valued.
pub open spec fn valuation(
    history: Option<Seq<PricePoint>>,
    trades: Seq<Transaction>,
    order: Seq<usize>,
    symbol: Seq<char>,
    timestamp: int,
    conversion: Option<Conversion>,
) -> Option<(PriceSource, Conversion)> {
    let price = match history {
        None => None,
        Some(points) => match last_by(points, timestamp) {
            Some(i) => Some(PriceSource::Close(i)),
            None => match last_priced(trades, order, symbol, timestamp) {
                Some(i) => Some(PriceSource::Trade(i)),
                None => None,
            },
        },
    };
    match (price, conversion) {
        (Some(price), Some(conversion)) => Some((price, conversion)),
        _ => None,
    }
}

pub fn value_holding_at(
    history: Option<&[PricePoint]>,
    transactions: &[Transaction],
    order: &Vec<usize>,
    symbol: &str,
    timestamp: i64,
    currency: &str,
    base: &str,
    fx_points: Option<&[PricePoint]>,
) -> (r: Option<(PriceSource, Conversion)>)
    requires
        forall|k: int| 0 <= k < order@.len() ==> #[trigger] order@[k] < transactions@.len(),
    ensures
        r == valuation(
            points_view(history),
            transactions@,
            order@,
            symbol@,
            timestamp as int,
            exact_conversion_at(
                currency@,
                base@,
                rate_at(points_view(fx_points), timestamp as int, None),
            ),
        ),
{
    if history.is_none() {
        return None;
    }
    let price = match historical_close_at(history, timestamp) {
        Some(i) => Some(PriceSource::Close(i)),
        None => match transaction_price_at(transactions, order, symbol, timestamp) {
            Some(i) => Some(PriceSource::Trade(i)),
            None => None,
        },
    };
    let conversion = history_convert_at(currency, base, fx_points, timestamp);
    match (price, conversion) {
        (Some(price), Some(conversion)) => Some((price, conversion)),
        _ => None,
    }
}

/// The closing prices of a security, under its symbol in capitals.
pub struct SecurityHistory {
    pub symbol: String,
    pub points: Vec<PricePoint>,
}

/// The first of the histories that is of a symbol.
pub open spec fn history_place(
    histories: Seq<SecurityHistory>,
    symbol: Seq<char>,
) -> Option<usize>
    decreases histories.len(),
{
    if histories.len() == 0 {
        None
    } else {
        match history_place(histories.drop_last(), symbol) {
            Some(i) => Some(i),
            None => if histories.last().symbol@ == symbol {
                Some((histories.len() - 1) as usize)
            } else {
                None
            },
        }
    }
}

pub fn find_history(histories: &Vec<SecurityHistory>, symbol: &str) -> (r: Option<usize>)
    ensures
        r == history_place(histories@, symbol@),
        r matches Some(i) ==> i < histories@.len() && histories@[i as int].symbol@ == symbol@,
{
    let mut found: Option<usize> = None;
    let mut n: usize = 0;
    while n < histories.len()
        invariant
            n <= histories@.len(),
            found == history_place(histories@.take(n as int), symbol@),
            found matches Some(i) ==> i < n && histories@[i as int].symbol@ == symbol@,
        decreases histories@.len() - n,
    {
        assert(histories@.take(n + 1).drop_last() =~= histories@.take(n as int));
        assert(histories@.take(n + 1).last() == histories@[n as int]);
        if found.is_none() && text::same_text(histories[n].symbol.as_str(), symbol) {
            found = Some(n);
        }
        n += 1;
    }
    assert(histories@.take(n as int) =~= histories@);
    found
}

/// The conversions, where there is one for each part.
pub open spec fn are_whole(
    r: Option<Seq<Conversion>>,
    parts: Seq<Option<Conversion>>,
) -> bool {
    match r {
        Some(list) => list.len() == parts.len() && forall|i: int|
            0 <= i < parts.len() ==> #[trigger] parts[i] == Some(list[i]),
        None => exists|i: int| 0 <= i < parts.len() && (#[trigger] parts[i]) is None,
    }
}

pub open spec fn list_view(r: Option<Vec<Conversion>>) -> Option<Seq<Conversion>> {
    match r {
        Some(list) => Some(list@),
        None => None,
    }
}

/// A sum has a value only where each of its parts has one: a part that cannot be converted
/// makes the whole unknown.
pub fn every_conversion(parts: &Vec<Option<Conversion>>) -> (r: Option<Vec<Conversion>>)
    ensures
        are_whole(list_view(r), parts@),
{
    let mut list: Vec<Conversion> = Vec::new();
    let mut i: usize = 0;
    while i < parts.len()
        invariant
            i <= parts@.len(),
            list@.len() == i,
            forall|k: int| 0 <= k < i ==> #[trigger] parts@[k] == Some(list@[k]),
        decreases parts@.len() - i,
    {
        match parts[i] {
            Some(conversion) => list.push(conversion),
            None => {
                assert(parts@[i as int] is None);
                return None;
            },
        }
        i += 1;
    }
    Some(list)
}

/// The conversion of an amount by the current rate. `current` says whether the rate, if
/// there is one, is above zero.
pub open spec fn current_conversion(
    from: Seq<char>,
    to: Seq<char>,
    current: Option<bool>,
) -> Option<Conversion> {
    conversion_at(from, to, rate_at(None, 0, current))
}

/// The parts of a sum of amounts in several currencies. `known` says which amounts there
/// are: one that is not known has no part in a sum.
pub open spec fn current_parts(
    known: Seq<bool>,
    currencies: Seq<String>,
    base: Seq<char>,
    current: Option<bool>,
) -> Seq<Option<Conversion>> {
    Seq::new(
        currencies.len(),
        |i: int|
            if known[i] {
                current_conversion(currencies[i]@, base, current)
            } else {
                None
            },
    )
}

/// How amounts, of which some may not be known, are converted and summed up. There is no
/// sum where one of them is not known or cannot be converted.
pub fn sum_optional_converted(
    known: &Vec<bool>,
    currencies: &Vec<String>,
    base: &str,
    current: Option<bool>,
) -> (r: Option<Vec<Conversion>>)
    requires
        known@.len() == currencies@.len(),
    ensures
        are_whole(list_view(r), current_parts(known@, currencies@, base@, current)),
{
    let mut parts: Vec<Option<Conversion>> = Vec::new();
    let mut i: usize = 0;
    while i < currencies.len()
        invariant
            i <= currencies@.len(),
            known@.len() == currencies@.len(),
            parts@ == current_parts(known@, currencies@, base@, current).take(i as int),
        decreases currencies@.len() - i,
    {
        if known[i] {
            parts.push(report_convert_at(currencies[i].as_str(), base, None, 0, current));
        } else {
            parts.push(None);
        }
        i += 1;
    }
    assert(parts@ =~= current_parts(known@, currencies@, base@, current));
    every_conversion(&parts)
}

/// How amounts are converted and summed up. There is no sum where one of them cannot be
/// converted.
pub fn sum_converted(currencies: &Vec<String>, base: &str, current: Option<bool>) -> (r: Option<
    Vec<Conversion>,
>)
    ensures
        are_whole(
            list_view(r),
            Seq::new(
                currencies@.len(),
                |i: int| current_conversion(currencies@[i]@, base@, current),
            ),
        ),
{
    let ghost wanted = Seq::new(
        currencies@.len(),
        |i: int| current_conversion(currencies@[i]@, base@, current),
    );
    let mut parts: Vec<Option<Conversion>> = Vec::new();
    let mut i: usize = 0;
    while i < currencies.len()
        invariant
            i <= currencies@.len(),
            parts@ == wanted.take(i as int),
            wanted == Seq::new(
                currencies@.len(),
                |i: int| current_conversion(currencies@[i]@, base@, current),
            ),
        decreases currencies@.len() - i,
    {
        parts.push(report_convert_at(currencies[i].as_str(), base, None, 0, current));
        i += 1;
    }
    assert(parts@ =~= wanted);
    every_conversion(&parts)
}

/// How amounts of their own times are converted, each by the rate known then, or else by
/// the current one.
pub open spec fn dated_parts(
    times: Seq<i64>,
    currencies: Seq<String>,
    base: Seq<char>,
    fx: Option<Seq<PricePoint>>,
    current: Option<bool>,
) -> Seq<Option<Conversion>> {
    Seq::new(
        times.len(),
        |i: int| conversion_at(currencies[i]@, base, rate_at(fx, times[i] as int, current)),
    )
}

pub fn convert_dated(
    times: &Vec<i64>,
    currencies: &Vec<String>,
    base: &str,
    fx_points: Option<&[PricePoint]>,
    current: Option<bool>,
) -> (r: Vec<Option<Conversion>>)
    requires
        times@.len() == currencies@.len(),
    ensures
        r@ == dated_parts(times@, currencies@, base@, points_view(fx_points), current),
{
    let ghost whole = dated_parts(times@, currencies@, base@, points_view(fx_points), current);
    let mut r: Vec<Option<Conversion>> = Vec::new();
    let mut i: usize = 0;
    while i < times.len()
        invariant
            i <= times@.len(),
            times@.len() == currencies@.len(),
            whole == dated_parts(times@, currencies@, base@, points_view(fx_points), current),
            r@ == whole.take(i as int),
        decreases times@.len() - i,
    {
        r.push(report_convert_at(currencies[i].as_str(), base, fx_points, times[i], current));
        i += 1;
    }
    assert(r@ =~= whole);
    r
}

/// One amount of a sum that is not known or cannot be converted leaves the sum unknown,
/// and all amounts that are known and convert leave it known.
pub proof fn no_partial_sums(r: Option<Seq<Conversion>>, parts: Seq<Option<Conversion>>)
    requires
        are_whole(r, parts),
    ensures
        r is Some <==> forall|i: int| 0 <= i < parts.len() ==> (#[trigger] parts[i]) is Some,
{
}

/// The trade that prices a security is the last one in the order that is of the security, at
/// or before the time, and has a price.
pub proof fn last_priced_trade_counts(
    trades: Seq<Transaction>,
    order: Seq<usize>,
    symbol: Seq<char>,
    timestamp: int,
)
    ensures
        match last_priced(trades, order, symbol, timestamp) {
            Some(i) => exists|k: int|
                0 <= k < order.len() && #[trigger] order[k] == i && text::alike(
                    trades[i as int].provider_symbol@,
                    symbol,
                ) && trades[i as int].timestamp <= timestamp && trades[i as int].priced && forall|
                    m: int,
                |
                    k < m < order.len() ==> !(text::alike(
                        trades[#[trigger] order[m] as int].provider_symbol@,
                        symbol,
                    ) && trades[order[m] as int].timestamp <= timestamp
                        && trades[order[m] as int].priced),
            None => forall|m: int|
                0 <= m < order.len() ==> !(text::alike(
                    trades[#[trigger] order[m] as int].provider_symbol@,
                    symbol,
                ) && trades[order[m] as int].timestamp <= timestamp
                    && trades[order[m] as int].priced),
        },
    decreases order.len(),
{
    if order.len() > 0 {
        let rest = order.drop_last();
        let last = order.len() - 1;
        if prices(trades[order.last() as int], symbol, timestamp) {
            assert(order[last] == order.last());
        } else {
            last_priced_trade_counts(trades, rest, symbol, timestamp);
            assert forall|m: int| 0 <= m < last implies #[trigger] order[m] == rest[m] by {
            }
            match last_priced(trades, rest, symbol, timestamp) {
                Some(i) => {
                    let k = choose|k: int|
                        0 <= k < rest.len() && #[trigger] rest[k] == i && forall|m: int|
                            k < m < rest.len() ==> !(text::alike(
                                trades[#[trigger] rest[m] as int].provider_symbol@,
                                symbol,
                            ) && trades[rest[m] as int].timestamp <= timestamp
                                && trades[rest[m] as int].priced);
                    assert(order[k] == i);
                    assert forall|m: int| k < m < order.len() implies !(text::alike(
                        trades[#[trigger] order[m] as int].provider_symbol@,
                        symbol,
                    ) && trades[order[m] as int].timestamp <= timestamp
                        && trades[order[m] as int].priced) by {
                        if m < last {
                            assert(rest[m] == order[m]);
                        }
                    }
                },
                None => {
                    assert forall|m: int| 0 <= m < order.len() implies !(text::alike(
                        trades[#[trigger] order[m] as int].provider_symbol@,
                        symbol,
                    ) && trades[order[m] as int].timestamp <= timestamp
                        && trades[order[m] as int].priced) by {
                        if m < last {
                            assert(rest[m] == order[m]);
                        }
                    }
                },
            }
        }
    }
}

/// A rate of the past counts where one was known at the time, and it is the last one by then;
/// the current rate counts only where none was known.
pub proof fn known_rates_come_first(
    points: Seq<PricePoint>,
    timestamp: int,
    current: Option<bool>,
    i: int,
)
    requires
        points.len() <= usize::MAX,
        0 <= i < points.len(),
        points[i].timestamp <= timestamp,
    ensures
        rate_at(Some(points), timestamp, current) matches Some((Rate::Historical(k), positive)) && i
            <= k && k < points.len() && points[k as int].timestamp <= timestamp && positive
            == points[k as int].positive,
{
    last_point_splits_history(points, timestamp);
}

pub proof fn current_rate_is_the_last_resort(
    points: Option<Seq<PricePoint>>,
    timestamp: int,
    current: Option<bool>,
)
    requires
        points matches Some(list) ==> list.len() <= usize::MAX && forall|i: int|
            0 <= i < list.len() ==> (#[trigger] list[i]).timestamp > timestamp,
    ensures
        rate_at(points, timestamp, current) == match current {
            Some(positive) => Some((Rate::Current, positive)),
            None => None,
        },
{
    if let Some(list) = points {
        last_point_splits_history(list, timestamp);
    }
}

/// US dollars become Canadian ones by multiplying with the rate, and Canadian dollars US ones
/// by dividing by it, unless it is not above zero. No other two currencies are exchanged.
pub proof fn only_dollars_are_exchanged(
    from: Seq<char>,
    to: Seq<char>,
    rate: Rate,
    positive: bool,
)
    ensures
        text::alike(from, "USD"@) && text::alike(to, "CAD"@) ==> conversion_at(
            from,
            to,
            Some((rate, positive)),
        ) == Some(Conversion::Multiply(rate)),
        text::alike(from, "CAD"@) && text::alike(to, "USD"@) ==> conversion_at(
            from,
            to,
            Some((rate, positive)),
        ) == if positive {
            Some(Conversion::Divide(rate))
        } else {
            None
        },
        !text::alike(from, to) && !(text::alike(from, "USD"@) && text::alike(to, "CAD"@)) && !(
        text::alike(from, "CAD"@) && text::alike(to, "USD"@)) ==> conversion_at(
            from,
            to,
            Some((rate, positive)),
        ) is None,
        exact_conversion_at("USD"@, "CAD"@, Some((rate, positive))) == Some(
            Conversion::Multiply(rate),
        ),
        exact_conversion_at("CAD"@, "USD"@, Some((rate, positive))) == if positive {
            Some(Conversion::Divide(rate))
        } else {
            None
        },
        from != to && !(from == "USD"@ && to == "CAD"@) && !(from == "CAD"@ && to == "USD"@)
            ==> exact_conversion_at(from, to, Some((rate, positive))) is None,
{
    reveal_strlit("USD");
    reveal_strlit("CAD");
    assert(text::lowercase("USD"@)[0] == 'u');
    assert(text::lowercase("CAD"@)[0] == 'c');
}

/// A security is valued by its last closing price by the time, else by its last trade with a
/// price, and never without a history or without a conversion.
pub proof fn closing_prices_come_first(
    points: Seq<PricePoint>,
    trades: Seq<Transaction>,
    order: Seq<usize>,
    symbol: Seq<char>,
    timestamp: int,
    conversion: Conversion,
)
    requires
        points.len() <= usize::MAX,
    ensures
        valuation(None, trades, order, symbol, timestamp, Some(conversion)) is None,
        valuation(Some(points), trades, order, symbol, timestamp, None) is None,
        (exists|i: int| 0 <= i < points.len() && (#[trigger] points[i]).timestamp <= timestamp) ==> (
        valuation(Some(points), trades, order, symbol, timestamp, Some(conversion)) matches Some(
            (PriceSource::Close(k), c),
        ) && c == conversion && k < points.len() && points[k as int].timestamp <= timestamp
            && forall|i: int| k < i < points.len() ==> (#[trigger] points[i]).timestamp > timestamp),
        (forall|i: int| 0 <= i < points.len() ==> (#[trigger] points[i]).timestamp > timestamp)
            ==> valuation(Some(points), trades, order, symbol, timestamp, Some(conversion))
            == match last_priced(trades, order, symbol, timestamp) {
            Some(i) => Some((PriceSource::Trade(i), conversion)),
            None => None,
        },
{
    last_point_splits_history(points, timestamp);
}

/// The history of a symbol is found where there is one, and it is the first of them.
pub proof fn history_is_found_by_symbol(histories: Seq<SecurityHistory>, symbol: Seq<char>)
    requires
        histories.len() <= usize::MAX,
    ensures
        match history_place(histories, symbol) {
            Some(i) => i < histories.len() && histories[i as int].symbol@ == symbol && forall|
                k: int,
            |
                0 <= k < i ==> (#[trigger] histories[k]).symbol@ != symbol,
            None => forall|k: int|
                0 <= k < histories.len() ==> (#[trigger] histories[k]).symbol@ != symbol,
        },
    decreases histories.len(),
{
    if histories.len() > 0 {
        let rest = histories.drop_last();
        history_is_found_by_symbol(rest, symbol);
        assert forall|k: int| 0 <= k < rest.len() implies #[trigger] histories[k] == rest[k] by {
        }
        assert forall|k: int| 0 <= k < rest.len() implies #[trigger] rest[k] == histories[k] by {
        }
    }
}

/// US dollars become Canadian ones by the last rate that was known at the time, whatever was
/// known later and whatever the current rate is.
pub proof fn last_known_rate_exchanges_dollars(
    from: Seq<char>,
    to: Seq<char>,
    points: Seq<PricePoint>,
    timestamp: int,
    current: Option<bool>,
    i: int,
)
    requires
        text::alike(from, "USD"@),
        text::alike(to, "CAD"@),
        points.len() <= usize::MAX,
        0 <= i < points.len(),
        points[i].timestamp <= timestamp,
        forall|k: int| i < k < points.len() ==> (#[trigger] points[k]).timestamp > timestamp,
    ensures
        conversion_at(from, to, rate_at(Some(points), timestamp, current)) == Some(
            Conversion::Multiply(Rate::Historical(i as usize)),
        ),
{
    known_rates_come_first(points, timestamp, current, i);
    only_dollars_are_exchanged(from, to, Rate::Historical(i as usize), points[i].positive);
}

/// Parts are known as a whole exactly where each of them is, and then each as it is.
pub proof fn whole_is_known_with_every_part(
    r: Option<Seq<Conversion>>,
    parts: Seq<Option<Conversion>>,
    i: int,
)
    requires
        are_whole(r, parts),
    ensures
        r is Some <==> forall|k: int| 0 <= k < parts.len() ==> (#[trigger] parts[k]) is Some,
        r is Some ==> r->0.len() == parts.len(),
        r is Some && 0 <= i < parts.len() ==> parts[i] == Some(r->0[i]),
{
}

} // verus!
