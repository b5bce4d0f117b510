//! How amounts, counts and names are written. A number comes in as the digits that it
//! was rounded to; these functions decide on signs, groups, units and words.

use vstd::prelude::*;
use crate::calendar;
use crate::numbers;
use crate::text;

verus! {

/// What stands before the first point.
pub open spec fn before_point(s: Seq<char>) -> Seq<char>
    decreases s.len(),
{
    if s.len() == 0 || s[0] == '.' {
        Seq::empty()
    } else {
        seq![s[0]] + before_point(s.skip(1))
    }
}

/// What stands behind the first point, or two zeros where there is no point.
pub open spec fn after_point(s: Seq<char>) -> Seq<char> {
    let n = before_point(s).len() as int;
    if n < s.len() {
        s.skip(n + 1)
    } else {
        "00"@
    }
}

/// Digits in groups of three, counted from the right, with commas between the groups.
pub open spec fn grouped(s: Seq<char>) -> Seq<char>
    decreases s.len(),
{
    if s.len() <= 3 {
        s
    } else {
        grouped(s.take(s.len() - 3)) + ","@ + s.skip(s.len() - 3)
    }
}

/// A text without one of its characters.
pub open spec fn without(s: Seq<char>, c: char) -> Seq<char>
    decreases s.len(),
{
    if s.len() == 0 {
        Seq::empty()
    } else if s.last() == c {
        without(s.drop_last(), c)
    } else {
        without(s.drop_last(), c).push(s.last())
    }
}

proof fn without_both(a: Seq<char>, b: Seq<char>, c: char)
    ensures
        without(a + b, c) == without(a, c) + without(b, c),
    decreases b.len(),
{
    let s = a + b;
    if b.len() == 0 {
        assert(s =~= a);
        assert(without(a, c) + without(b, c) =~= without(a, c));
    } else {
        without_both(a, b.drop_last(), c);
        assert(s.drop_last() =~= a + b.drop_last());
        assert(s.last() == b.last());
        assert(without(a, c) + without(b.drop_last(), c).push(b.last()) =~= (without(a, c)
            + without(b.drop_last(), c)).push(b.last()));
    }
}

proof fn without_none(s: Seq<char>, c: char)
    requires
        !s.contains(c),
    ensures
        without(s, c) == s,
    decreases s.len(),
{
    if s.len() > 0 {
        assert(s.contains(s.last()));
        assert forall|x: char| s.drop_last().contains(x) implies s.contains(x) by {
            let k = choose|k: int| 0 <= k < s.drop_last().len() && s.drop_last()[k] == x;
            assert(s[k] == x);
        }
        without_none(s.drop_last(), c);
        assert(s.drop_last().push(s.last()) =~= s);
    }
}

/// Grouping adds commas and nothing else.
pub proof fn grouping_adds_commas(s: Seq<char>)
    requires
        !s.contains(','),
    ensures
        without(grouped(s), ',') == s,
    decreases s.len(),
{
    if s.len() <= 3 {
        without_none(s, ',');
    } else {
        let head = s.take(s.len() - 3);
        let tail = s.skip(s.len() - 3);
        assert(!head.contains(',')) by {
            assert forall|x: char| head.contains(x) implies s.contains(x) by {
                let k = choose|k: int| 0 <= k < head.len() && head[k] == x;
                assert(s[k] == x);
            }
        }
        assert(!tail.contains(',')) by {
            assert forall|x: char| tail.contains(x) implies s.contains(x) by {
                let k = choose|k: int| 0 <= k < tail.len() && tail[k] == x;
                assert(s[s.len() - 3 + k] == x);
            }
        }
        grouping_adds_commas(head);
        without_none(tail, ',');
        reveal_strlit(",");
        let comma = ","@;
        assert(comma.drop_last() =~= Seq::empty());
        assert(without(comma.drop_last(), ',') =~= Seq::empty());
        assert(without(comma, ',') =~= Seq::empty());
        without_both(grouped(head) + comma, tail, ',');
        without_both(grouped(head), comma, ',');
        assert(without(grouped(head), ',') + without(comma, ',') =~= head);
        assert(head + tail =~= s);
    }
}

fn find_point(chars: &Vec<char>) -> (n: usize)
    ensures
        n <= chars@.len(),
        before_point(chars@) == chars@.take(n as int),
        n < chars@.len() ==> chars@[n as int] == '.',
{
    let mut n: usize = 0;
    while n < chars.len() && chars[n] != '.'
        invariant
            n <= chars@.len(),
            forall|k: int| 0 <= k < n ==> chars@[k] != '.',
        decreases chars@.len() - n,
    {
        n += 1;
    }
    proof {
        before_point_is(chars@, n as int);
    }
    n
}

proof fn before_point_is(s: Seq<char>, n: int)
    requires
        0 <= n <= s.len(),
        forall|k: int| 0 <= k < n ==> s[k] != '.',
        n < s.len() ==> s[n] == '.',
    ensures
        before_point(s) == s.take(n),
    decreases n,
{
    if n > 0 {
        before_point_is(s.skip(1), n - 1);
        assert(seq![s[0]] + s.skip(1).take(n - 1) =~= s.take(n));
    } else {
        assert(s.take(0) =~= Seq::empty());
    }
}

fn group(chars: &Vec<char>, len: usize) -> (r: String)
    requires
        len <= chars@.len(),
    ensures
        r@ == grouped(chars@.take(len as int)),
    decreases len,
{
    let ghost s = chars@.take(len as int);
    if len <= 3 {
        let r = text::text_of(chars, 0, len);
        assert(r@ =~= s);
        r
    } else {
        let mut r = group(chars, len - 3);
        assert(s.take(s.len() - 3) =~= chars@.take(len - 3));
        r.append(",");
        r.append(text::text_of(chars, len - 3, len).as_str());
        assert(s.skip(s.len() - 3) =~= chars@.subrange(len - 3, len as int));
        r
    }
}

/// An amount with two decimals, `raw` being its digits without a sign: from five digits
/// before the point on they are grouped.
pub open spec fn money_text(raw: Seq<char>, negative: bool) -> Seq<char> {
    let sign = if negative {
        "-"@
    } else {
        ""@
    };
    if before_point(raw).len() < 5 {
        sign + raw
    } else {
        sign + grouped(before_point(raw)) + "."@ + after_point(raw)
    }
}

pub fn format_money_number(raw: &str, negative: bool) -> (r: String)
    ensures
        r@ == money_text(raw@, negative),
{
    let chars = text::chars_of(raw);
    let n: usize = find_point(&chars);
    let mut r = if negative {
        "-".to_owned()
    } else {
        "".to_owned()
    };
    if n < 5 {
        r.append(raw);
        return r;
    }
    r.append(group(&chars, n).as_str());
    r.append(".");
    if n < chars.len() {
        r.append(text::text_of(&chars, n + 1, chars.len()).as_str());
        assert(raw@.skip(n + 1) =~= chars@.subrange(n + 1, chars@.len() as int));
    } else {
        r.append("00");
    }
    r
}

/// The sign that stands before amounts of a currency.
pub open spec fn currency_sign(currency: Seq<char>) -> Option<Seq<char>> {
    if currency == "CAD"@ {
        Some("C$"@)
    } else if currency == "USD"@ {
        Some("US$"@)
    } else if currency == "EUR"@ {
        Some("€"@)
    } else if currency == "GBP"@ {
        Some("£"@)
    } else {
        None
    }
}

fn sign_of_currency(currency: &str) -> (r: Option<&'static str>)
    ensures
        crate::charts::label_view(r) == currency_sign(currency@),
{
    if text::same_text(currency, "CAD") {
        Some("C$")
    } else if text::same_text(currency, "USD") {
        Some("US$")
    } else if text::same_text(currency, "EUR") {
        Some("€")
    } else if text::same_text(currency, "GBP") {
        Some("£")
    } else {
        None
    }
}

/// A number with its currency: behind the sign of the currency, or else before its code.
pub open spec fn with_currency(number: Seq<char>, currency: Seq<char>) -> Seq<char> {
    match currency_sign(currency) {
        Some(sign) => sign + number,
        None => number + " "@ + currency,
    }
}

fn add_currency(number: &str, currency: &str) -> (r: String)
    ensures
        r@ == with_currency(number@, currency@),
{
    match sign_of_currency(currency) {
        Some(sign) => {
            let mut r = sign.to_owned();
            r.append(number);
            r
        },
        None => {
            let mut r = number.to_owned();
            r.append(" ");
            r.append(currency);
            r
        },
    }
}

pub open spec fn currency_text(raw: Seq<char>, negative: bool, currency: Seq<char>) -> Seq<char> {
    with_currency(money_text(raw, negative), currency)
}

pub fn format_currency(raw: &str, negative: bool, currency: &str) -> (r: String)
    ensures
        r@ == currency_text(raw@, negative, currency@),
{
    add_currency(format_money_number(raw, negative).as_str(), currency)
}

/// An amount with its sign in front, also where it is a gain.
pub open spec fn signed_currency_text(raw: Seq<char>, below_zero: bool, currency: Seq<char>) -> Seq<char> {
    (if below_zero {
        "−"@
    } else {
        "+"@
    }) + currency_text(raw, false, currency)
}

pub fn format_signed_currency(raw: &str, below_zero: bool, currency: &str) -> (r: String)
    ensures
        r@ == signed_currency_text(raw@, below_zero, currency@),
{
    let mut r = if below_zero {
        "−".to_owned()
    } else {
        "+".to_owned()
    };
    r.append(format_currency(raw, false, currency).as_str());
    r
}

/// An amount in the legend of the allocation: always grouped, always with decimals.
pub open spec fn allocation_currency_text(raw: Seq<char>, negative: bool, currency: Seq<char>) -> Seq<char> {
    with_currency(
        (if negative {
            "−"@
        } else {
            ""@
        }) + grouped(before_point(raw)) + "."@ + after_point(raw),
        currency,
    )
}

pub fn format_allocation_currency(raw: &str, negative: bool, currency: &str) -> (r: String)
    ensures
        r@ == allocation_currency_text(raw@, negative, currency@),
{
    let chars = text::chars_of(raw);
    let n: usize = find_point(&chars);
    let mut number = if negative {
        "−".to_owned()
    } else {
        "".to_owned()
    };
    number.append(group(&chars, n).as_str());
    number.append(".");
    if n < chars.len() {
        number.append(text::text_of(&chars, n + 1, chars.len()).as_str());
        assert(raw@.skip(n + 1) =~= chars@.subrange(n + 1, chars@.len() as int));
    } else {
        number.append("00");
    }
    add_currency(number.as_str(), currency)
}

/// An amount in a report; one that is not known is a dash. An amount is its digits and
/// whether it is negative.
pub open spec fn amount_view(amount: Option<(&str, bool)>) -> Option<(Seq<char>, bool)> {
    match amount {
        Some((raw, negative)) => Some((raw@, negative)),
        None => None,
    }
}

pub fn report_currency(amount: Option<(&str, bool)>, currency: &str) -> (r: String)
    ensures
        r@ == match amount_view(amount) {
            Some((raw, negative)) => currency_text(raw, negative, currency@),
            None => "—"@,
        },
{
    match amount {
        Some((raw, negative)) => format_currency(raw, negative, currency),
        None => "—".to_owned(),
    }
}

pub fn report_signed_currency(amount: Option<(&str, bool)>, currency: &str) -> (r: String)
    ensures
        r@ == match amount_view(amount) {
            Some((raw, below_zero)) => signed_currency_text(raw, below_zero, currency@),
            None => "—"@,
        },
{
    match amount {
        Some((raw, below_zero)) => format_signed_currency(raw, below_zero, currency),
        None => "—".to_owned(),
    }
}

/// A decimal number without zeros at its end.
pub open spec fn without_end_zeros(s: Seq<char>) -> Seq<char>
    decreases s.len(),
{
    if s.contains('.') && s.last() == '0' {
        without_end_zeros(s.drop_last())
    } else {
        s
    }
}

/// A decimal number without zeros at its end, and without a point that then ends it.
pub open spec fn short_number(s: Seq<char>) -> Seq<char> {
    let t = without_end_zeros(s);
    if t.len() > 0 && t.last() == '.' {
        t.drop_last()
    } else {
        t
    }
}

proof fn end_zeros_are_cut(s: Seq<char>)
    ensures
        without_end_zeros(s).len() <= s.len(),
        without_end_zeros(s) == s.take(without_end_zeros(s).len() as int),
        forall|k: int| without_end_zeros(s).len() <= k < s.len() ==> s[k] == '0',
        s.contains('.') ==> without_end_zeros(s).contains('.'),
        !s.contains('.') ==> without_end_zeros(s) == s,
        s.contains('.') ==> without_end_zeros(s).last() != '0',
    decreases s.len(),
{
    if s.contains('.') && s.last() == '0' {
        let d = s.drop_last();
        let p = choose|p: int| 0 <= p < s.len() && s[p] == '.';
        assert(d[p] == '.');
        assert(d.contains('.'));
        end_zeros_are_cut(d);
        let n = without_end_zeros(s).len() as int;
        assert(d.take(n) =~= s.take(n));
        assert forall|k: int| n <= k < s.len() implies s[k] == '0' by {
            if k < d.len() {
                assert(d[k] == '0');
            }
        }
    } else {
        assert(s.take(s.len() as int) =~= s);
    }
}

/// Shortening a number takes away nothing but zeros behind the point, and the point.
pub proof fn short_number_keeps_value(s: Seq<char>)
    ensures
        short_number(s).len() <= s.len(),
        short_number(s) == s.take(short_number(s).len() as int),
        forall|k: int|
            short_number(s).len() <= k < s.len() ==> s[k] == '0' || k == short_number(s).len() && s[k]
                == '.',
        !s.contains('.') ==> short_number(s) == s,
{
    end_zeros_are_cut(s);
    let t = without_end_zeros(s);
    if t.len() > 0 && t.last() == '.' {
        assert(s[t.len() - 1] == '.');
        assert(s.contains('.'));
        assert(t.drop_last() =~= s.take(t.len() - 1));
    }
}

/// Drops the zeros that end a decimal number; `digits` is the number with three decimals.
pub fn trim_number(digits: &str) -> (r: String)
    ensures
        r@ == short_number(digits@),
{
    let chars = text::chars_of(digits);
    let mut pointed = false;
    let mut i: usize = 0;
    while i < chars.len()
        invariant
            i <= chars@.len(),
            pointed == exists|k: int| 0 <= k < i && chars@[k] == '.',
        decreases chars@.len() - i,
    {
        if chars[i] == '.' {
            pointed = true;
        }
        i += 1;
    }
    assert(pointed == chars@.contains('.'));
    let mut n: usize = chars.len();
    assert(chars@.take(n as int) =~= chars@);
    if pointed {
        while n > 0 && chars[n - 1] == '0'
            invariant
                n <= chars@.len(),
                chars@.take(n as int).contains('.'),
                without_end_zeros(chars@.take(n as int)) == without_end_zeros(chars@),
            decreases n,
        {
            proof {
                let s = chars@.take(n as int);
                assert(s.drop_last() =~= chars@.take(n - 1));
                let p = choose|p: int| 0 <= p < s.len() && s[p] == '.';
                assert(chars@.take(n - 1)[p] == '.');
            }
            n -= 1;
        }
        assert(n > 0) by {
            assert(chars@.take(n as int).contains('.'));
        }
    }
    assert(without_end_zeros(chars@) == chars@.take(n as int));
    if n > 0 && chars[n - 1] == '.' {
        assert(chars@.take(n as int).drop_last() =~= chars@.subrange(0, n - 1));
        text::text_of(&chars, 0, n - 1)
    } else {
        assert(chars@.take(n as int) =~= chars@.subrange(0, n as int));
        text::text_of(&chars, 0, n)
    }
}

/// The text that an entered number is read from: without white space around it and
/// without the commas that group its digits.
pub fn entered_number(entry: &str) -> (r: String)
    ensures
        r@ == without(text::trimmed(entry@), ','),
{
    let kept = text::trim(entry);
    let chars = text::chars_of(kept.as_str());
    let mut r = String::new();
    let mut i: usize = 0;
    assert(chars@.take(0) =~= Seq::empty());
    while i < chars.len()
        invariant
            i <= chars@.len(),
            r@ == without(chars@.take(i as int), ','),
        decreases chars@.len() - i,
    {
        assert(chars@.take(i + 1).drop_last() =~= chars@.take(i as int));
        assert(chars@.take(i + 1).last() == chars@[i as int]);
        if chars[i] != ',' {
            r.push(chars[i]);
        }
        i += 1;
    }
    assert(chars@.take(i as int) =~= chars@);
    r
}

/// A number of shares; `single` says that it is one.
pub fn shares_text(number: &str, single: bool) -> (r: String)
    ensures
        r@ == number@ + " "@ + (if single {
            "share"@
        } else {
            "shares"@
        }),
{
    let mut r = number.to_owned();
    r.append(" ");
    r.append(
        if single {
            "share"
        } else {
            "shares"
        },
    );
    r
}

pub open spec fn holding_count(count: nat) -> Seq<char> {
    if count == 1 {
        "1 holding"@
    } else {
        numbers::natural_text(count) + " holdings"@
    }
}

pub fn holding_count_text(count: usize) -> (r: String)
    ensures
        r@ == holding_count(count as nat),
{
    if count == 1 {
        "1 holding".to_owned()
    } else {
        let mut r = numbers::print_natural(count as u64);
        r.append(" holdings");
        r
    }
}

/// The ratio of a split: `number` is the ratio, or its inverse where the ratio is below
/// one.
pub fn split_ratio_text(number: &str, forward: bool) -> (r: String)
    ensures
        r@ == if forward {
            number@ + "-for-1"@
        } else {
            "1-for-"@ + number@
        },
{
    if forward {
        let mut r = number.to_owned();
        r.append("-for-1");
        r
    } else {
        let mut r = "1-for-".to_owned();
        r.append(number);
        r
    }
}

pub fn account_choice_label(name: &str, currency: &str) -> (r: String)
    ensures
        r@ == name@ + " · "@ + currency@,
{
    let mut r = name.to_owned();
    r.append(" · ");
    r.append(currency);
    r
}

/// A kind of security in plain words.
pub open spec fn asset_type_text(asset_type: Seq<char>) -> Seq<char> {
    if text::alike(asset_type, "common stock"@) || text::alike(asset_type, "stock"@) {
        "Stock"@
    } else if text::alike(asset_type, "etf"@) {
        "ETF"@
    } else if text::alike(asset_type, "fund"@) || text::alike(asset_type, "mutual fund"@) {
        "Fund"@
    } else if text::alike(asset_type, "index"@) {
        "Index"@
    } else {
        asset_type
    }
}

pub fn friendly_asset_type(asset_type: &str) -> (r: &str)
    ensures
        r@ == asset_type_text(asset_type@),
{
    if text::same_letters(asset_type, "common stock") || text::same_letters(asset_type, "stock") {
        "Stock"
    } else if text::same_letters(asset_type, "etf") {
        "ETF"
    } else if text::same_letters(asset_type, "fund") || text::same_letters(
        asset_type,
        "mutual fund",
    ) {
        "Fund"
    } else if text::same_letters(asset_type, "index") {
        "Index"
    } else {
        asset_type
    }
}

/// An exchange by the name that people use.
pub open spec fn exchange_text(exchange: Seq<char>) -> Seq<char> {
    if exchange == "TOR"@ || exchange == "TO"@ {
        "Toronto"@
    } else if exchange == "VAN"@ || exchange == "V"@ {
        "TSX Venture"@
    } else if exchange == "NMS"@ || exchange == "NGM"@ || exchange == "NCM"@ || exchange
        == "NASDAQ"@ {
        "Nasdaq"@
    } else if exchange == "NYQ"@ || exchange == "NYSE"@ {
        "NYSE"@
    } else if exchange == "ASE"@ {
        "NYSE American"@
    } else if exchange == "PCX"@ {
        "NYSE Arca"@
    } else if exchange == "BTS"@ {
        "Cboe"@
    } else if exchange == "LSE"@ {
        "London"@
    } else {
        exchange
    }
}

pub fn friendly_exchange(exchange: &str) -> (r: &str)
    ensures
        r@ == exchange_text(exchange@),
{
    if text::same_text(exchange, "TOR") || text::same_text(exchange, "TO") {
        "Toronto"
    } else if text::same_text(exchange, "VAN") || text::same_text(exchange, "V") {
        "TSX Venture"
    } else if text::same_text(exchange, "NMS") || text::same_text(exchange, "NGM")
        || text::same_text(exchange, "NCM") || text::same_text(exchange, "NASDAQ") {
        "Nasdaq"
    } else if text::same_text(exchange, "NYQ") || text::same_text(exchange, "NYSE") {
        "NYSE"
    } else if text::same_text(exchange, "ASE") {
        "NYSE American"
    } else if text::same_text(exchange, "PCX") {
        "NYSE Arca"
    } else if text::same_text(exchange, "BTS") {
        "Cboe"
    } else if text::same_text(exchange, "LSE") {
        "London"
    } else {
        exchange
    }
}

/// The state of a quote. `state` is the word for a quote of that age.
pub open spec fn quote_health(
    has_price: bool,
    updated_at: Option<i64>,
    state: Seq<char>,
    now: int,
) -> Seq<char> {
    if !has_price {
        "Quote unavailable"@
    } else {
        match updated_at {
            None => "Cached quote · time unknown"@,
            Some(time) => state + " · "@ + calendar::relative_text(numbers::saturated(now - time)),
        }
    }
}

pub fn quote_health_text(
    has_price: bool,
    quote_updated_at: Option<i64>,
    state: &str,
    now: i64,
) -> (r: String)
    ensures
        r@ == quote_health(has_price, quote_updated_at, state@, now as int),
{
    if !has_price {
        return "Quote unavailable".to_owned();
    }
    match quote_updated_at {
        None => "Cached quote · time unknown".to_owned(),
        Some(time) => quote_status_text(state, now, time),
    }
}

/// The state of a quote and its age.
pub fn quote_status_text(state: &str, now: i64, time: i64) -> (r: String)
    ensures
        r@ == state@ + " · "@ + calendar::relative_text(numbers::saturated(now - time)),
{
    let mut r = state.to_owned();
    r.append(" · ");
    r.append(calendar::relative_time(now, time).as_str());
    r
}

/// The style class for the state of a quote.
pub open spec fn quote_class(health: Seq<char>) -> Seq<char> {
    if text::begins_with(health, "Live"@) || text::begins_with(health, "Current"@) {
        "success"@
    } else if text::begins_with(health, "Stale"@) || text::begins_with(health, "Network"@)
        || text::begins_with(health, "Quote unavailable"@) {
        "warning"@
    } else {
        "dim-label"@
    }
}

pub fn quote_health_css_class(health: &str) -> (r: &'static str)
    ensures
        r@ == quote_class(health@),
{
    if text::starts_with(health, "Live") || text::starts_with(health, "Current") {
        "success"
    } else if text::starts_with(health, "Stale") || text::starts_with(health, "Network")
        || text::starts_with(health, "Quote unavailable") {
        "warning"
    } else {
        "dim-label"
    }
}

/// A quote without a price is always shown as a warning.
pub proof fn missing_quote_warns(updated_at: Option<i64>, state: Seq<char>, now: int)
    ensures
        quote_class(quote_health(false, updated_at, state, now)) == "warning"@,
{
    let s = "Quote unavailable"@;
    reveal_strlit("Quote unavailable");
    reveal_strlit("Live");
    reveal_strlit("Current");
    assert(s[0] == 'Q');
    if text::begins_with(s, "Live"@) {
        assert(s.subrange(0, 4)[0] == 'L');
    }
    if text::begins_with(s, "Current"@) {
        assert(s.subrange(0, 7)[0] == 'C');
    }
    assert(s.subrange(0, s.len() as int) =~= s);
}

/// A number is split at its first point; without one there are no cents.
pub proof fn number_is_split_at_its_point(a: Seq<char>, b: Seq<char>)
    requires
        !a.contains('.'),
    ensures
        before_point(a + seq!['.'] + b) == a,
        after_point(a + seq!['.'] + b) == b,
        before_point(a) == a,
        after_point(a) == "00"@,
{
    let s = a + seq!['.'] + b;
    assert forall|i: int| 0 <= i < a.len() implies a[i] != '.' by {
        assert(a.contains(a[i]));
    }
    point_comes_after(s, a.len() as int);
    point_comes_after(a, a.len() as int);
    assert(s.take(a.len() as int) =~= a);
    assert(a.take(a.len() as int) =~= a);
    assert(s.skip(a.len() as int + 1) =~= b);
}

proof fn point_comes_after(s: Seq<char>, n: int)
    requires
        0 <= n <= s.len(),
        forall|k: int| 0 <= k < n ==> s[k] != '.',
        n < s.len() ==> s[n] == '.',
    ensures
        before_point(s) == s.take(n),
    decreases n,
{
    if n > 0 {
        assert forall|k: int| 0 <= k < n - 1 implies s.skip(1)[k] != '.' by {
            assert(s.skip(1)[k] == s[k + 1]);
        }
        point_comes_after(s.skip(1), n - 1);
        assert(seq![s[0]] + s.skip(1).take(n - 1) =~= s.take(n));
    } else {
        assert(s.take(0) =~= Seq::<char>::empty());
    }
}

/// A comma stands after every third digit from the end, and nowhere else.
pub proof fn commas_stand_every_three_digits(s: Seq<char>, k: int)
    requires
        !s.contains(','),
    ensures
        s.len() > 0 ==> grouped(s).len() == s.len() + (s.len() - 1) / 3,
        s.len() == 0 ==> grouped(s).len() == 0,
        0 <= k < grouped(s).len() ==> (grouped(s)[k] == ',' <==> (grouped(s).len() - k) % 4 == 0),
    decreases s.len(),
{
    if s.len() <= 3 {
        if 0 <= k < s.len() {
            assert(s.contains(s[k]));
        }
    } else {
        let n = s.len() as int;
        let head = s.take(n - 3);
        let tail = s.skip(n - 3);
        reveal_strlit(",");
        assert(!head.contains(',')) by {
            if head.contains(',') {
                let i = choose|i: int| 0 <= i < head.len() && head[i] == ',';
                assert(s[i] == ',');
            }
        }
        commas_stand_every_three_digits(head, k);
        let g = grouped(head);
        assert(grouped(s) == g + ","@ + tail);
        if 0 <= k < grouped(s).len() {
            if k < g.len() {
                assert(grouped(s)[k] == g[k]);
            } else if k > g.len() {
                assert(grouped(s)[k] == tail[k - g.len() - 1]);
                assert(tail[k - g.len() - 1] == s[n - 3 + k - g.len() - 1]);
                assert(s.contains(s[n - 3 + k - g.len() - 1]));
            }
        }
    }
}

/// An amount is written with commas from five digits on, and with a minus where it is
/// negative.
pub proof fn large_amounts_have_commas(a: Seq<char>, b: Seq<char>)
    requires
        !a.contains('.'),
    ensures
        ({
            let raw = a + seq!['.'] + b;
            &&& a.len() < 5 ==> money_text(raw, false) == raw
            &&& a.len() >= 5 ==> money_text(raw, false) == grouped(a) + "."@ + b
            &&& money_text(raw, true) == "-"@ + money_text(raw, false)
        }),
{
    number_is_split_at_its_point(a, b);
    reveal_strlit("");
    let raw = a + seq!['.'] + b;
    assert(""@ + raw =~= raw);
    assert(""@ + grouped(a) + "."@ + b =~= grouped(a) + "."@ + b);
    assert("-"@ + grouped(a) + "."@ + b =~= "-"@ + (grouped(a) + "."@ + b));
}

/// Four currencies have a sign, which stands before the number; the name of any other stands
/// after it.
pub proof fn currency_is_shown_by_its_sign(number: Seq<char>, currency: Seq<char>)
    ensures
        with_currency(number, "CAD"@) == "C$"@ + number,
        with_currency(number, "USD"@) == "US$"@ + number,
        with_currency(number, "EUR"@) == "€"@ + number,
        with_currency(number, "GBP"@) == "£"@ + number,
        currency != "CAD"@ && currency != "USD"@ && currency != "EUR"@ && currency != "GBP"@
            ==> with_currency(number, currency) == number + " "@ + currency,
{
    reveal_strlit("CAD");
    reveal_strlit("USD");
    reveal_strlit("EUR");
    reveal_strlit("GBP");
    assert("CAD"@[0] == 'C' && "USD"@[0] == 'U' && "EUR"@[0] == 'E' && "GBP"@[0] == 'G');
}

/// A change is written with its sign in front of the currency, and an amount with its minus
/// behind it; an allocation has its commas at any size.
pub proof fn signs_stand_where_they_belong(a: Seq<char>, b: Seq<char>, currency: Seq<char>)
    requires
        !a.contains('.'),
    ensures
        ({
            let raw = a + seq!['.'] + b;
            &&& signed_currency_text(raw, true, currency) == "−"@ + with_currency(
                money_text(raw, false),
                currency,
            )
            &&& signed_currency_text(raw, false, currency) == "+"@ + with_currency(
                money_text(raw, false),
                currency,
            )
            &&& currency_text(raw, true, "CAD"@) == "C$"@ + money_text(raw, true)
            &&& currency_text(raw, false, "CAD"@) == "C$"@ + money_text(raw, false)
            &&& allocation_currency_text(raw, false, currency) == with_currency(
                grouped(a) + "."@ + b,
                currency,
            )
            &&& allocation_currency_text(raw, true, currency) == with_currency(
                "−"@ + grouped(a) + "."@ + b,
                currency,
            )
        }),
{
    number_is_split_at_its_point(a, b);
    reveal_strlit("");
    assert(""@ + grouped(a) + "."@ + b =~= grouped(a) + "."@ + b);
}

/// A number in short form ends with neither a point nor a zero behind one.
pub proof fn short_number_has_no_idle_end(s: Seq<char>)
    requires
        forall|i: int, j: int| 0 <= i < j < s.len() && s[i] == '.' ==> s[j] != '.',
    ensures
        short_number(s).contains('.') ==> short_number(s).last() != '0',
        short_number(s).len() > 0 ==> short_number(s).last() != '.',
    decreases s.len(),
{
    if s.contains('.') && s.last() == '0' {
        let t = s.drop_last();
        let at = choose|i: int| 0 <= i < s.len() && s[i] == '.';
        assert(at < s.len() - 1);
        assert(t[at] == '.');
        assert(t.contains('.'));
        short_number_has_no_idle_end(t);
    } else {
        if s.len() > 0 && s.last() == '.' {
            let t = s.drop_last();
            if t.contains('.') {
                let at = choose|i: int| 0 <= i < t.len() && t[i] == '.';
                assert(s[at] == '.' && s[s.len() - 1] == '.');
            }
        }
    }
}

/// Holdings are counted, one in the singular.
pub proof fn holdings_are_counted(count: nat)
    ensures
        holding_count(1) == "1 holding"@,
        count != 1 ==> holding_count(count) == numbers::natural_text(count) + " holdings"@,
{
}

/// Types of securities by their usual names, whatever the case of their letters.
pub proof fn asset_types_have_names(asset_type: Seq<char>)
    ensures
        text::alike(asset_type, "stock"@) || text::alike(asset_type, "common stock"@)
            ==> asset_type_text(asset_type) == "Stock"@,
        text::alike(asset_type, "etf"@) ==> asset_type_text(asset_type) == "ETF"@,
        text::alike(asset_type, "fund"@) || text::alike(asset_type, "mutual fund"@)
            ==> asset_type_text(asset_type) == "Fund"@,
        text::alike(asset_type, "index"@) ==> asset_type_text(asset_type) == "Index"@,
        !text::alike(asset_type, "stock"@) && !text::alike(asset_type, "common stock"@)
            && !text::alike(asset_type, "etf"@) && !text::alike(asset_type, "fund"@)
            && !text::alike(asset_type, "mutual fund"@) && !text::alike(asset_type, "index"@)
            ==> asset_type_text(asset_type) == asset_type,
{
    reveal_strlit("stock");
    reveal_strlit("common stock");
    reveal_strlit("etf");
    reveal_strlit("fund");
    reveal_strlit("mutual fund");
    reveal_strlit("index");
    text::only_case_may_differ(asset_type, "stock"@);
    text::only_case_may_differ(asset_type, "common stock"@);
    text::only_case_may_differ(asset_type, "etf"@);
    text::only_case_may_differ(asset_type, "fund"@);
    text::only_case_may_differ(asset_type, "mutual fund"@);
    text::only_case_may_differ(asset_type, "index"@);
    assert("stock"@[0] == 's' && "index"@[0] == 'i');
    assert(text::alike(asset_type, "stock"@) ==> asset_type[0] == 's' || asset_type[0] == 'S');
}

/// Exchanges by their usual names; one that is not known keeps its own.
pub proof fn exchanges_have_names(exchange: Seq<char>)
    ensures
        exchange == "TOR"@ || exchange == "TO"@ ==> exchange_text(exchange) == "Toronto"@,
        exchange == "VAN"@ || exchange == "V"@ ==> exchange_text(exchange) == "TSX Venture"@,
        exchange == "NMS"@ || exchange == "NGM"@ || exchange == "NCM"@ || exchange == "NASDAQ"@
            ==> exchange_text(exchange) == "Nasdaq"@,
        exchange == "NYQ"@ || exchange == "NYSE"@ ==> exchange_text(exchange) == "NYSE"@,
        exchange == "ASE"@ ==> exchange_text(exchange) == "NYSE American"@,
        exchange == "PCX"@ ==> exchange_text(exchange) == "NYSE Arca"@,
        exchange == "BTS"@ ==> exchange_text(exchange) == "Cboe"@,
        exchange == "LSE"@ ==> exchange_text(exchange) == "London"@,
        exchange.len() > 6 || exchange.len() == 5 || exchange.len() == 0 ==> exchange_text(exchange)
            == exchange,
{
    reveal_strlit("TOR");
    reveal_strlit("TO");
    reveal_strlit("VAN");
    reveal_strlit("V");
    reveal_strlit("NMS");
    reveal_strlit("NGM");
    reveal_strlit("NCM");
    reveal_strlit("NASDAQ");
    reveal_strlit("NYQ");
    reveal_strlit("NYSE");
    reveal_strlit("ASE");
    reveal_strlit("PCX");
    reveal_strlit("BTS");
    reveal_strlit("LSE");
    assert("TOR"@[0] == 'T' && "VAN"@[0] == 'V' && "NMS"@[0] == 'N' && "NGM"@[0] == 'N'
        && "NCM"@[0] == 'N' && "NYQ"@[0] == 'N' && "ASE"@[0] == 'A' && "PCX"@[0] == 'P'
        && "BTS"@[0] == 'B' && "LSE"@[0] == 'L');
    assert("TOR"@.len() == 3 && "VAN"@.len() == 3 && "NMS"@.len() == 3 && "NGM"@.len() == 3
        && "NCM"@.len() == 3 && "NYQ"@.len() == 3 && "ASE"@.len() == 3 && "PCX"@.len() == 3
        && "BTS"@.len() == 3 && "LSE"@.len() == 3);
    assert("TO"@.len() == 2 && "V"@.len() == 1 && "NASDAQ"@.len() == 6 && "NYSE"@.len() == 4);
    assert("NMS"@[1] == 'M' && "NGM"@[1] == 'G' && "NCM"@[1] == 'C' && "NYQ"@[1] == 'Y');
}

/// What is said of a quote: that there is none, that its time is not known, or the state of
/// the market and its age.
pub proof fn quote_tells_its_age(state: Seq<char>, updated_at: i64, now: int)
    requires
        updated_at >= 0,
        0 <= now <= i64::MAX,
    ensures
        quote_health(false, Some(updated_at), state, now) == "Quote unavailable"@,
        quote_health(false, None, state, now) == "Quote unavailable"@,
        quote_health(true, None, state, now) == "Cached quote · time unknown"@,
        quote_health(true, Some(updated_at), state, now) == state + " · "@
            + calendar::relative_text(now - updated_at),
{
}

/// A quote is marked by the word that its state begins with.
pub proof fn quotes_are_marked_by_state(rest: Seq<char>)
    ensures
        quote_class("Live"@ + rest) == "success"@,
        quote_class("Current"@ + rest) == "success"@,
        quote_class("Stale"@ + rest) == "warning"@,
        quote_class("Network"@ + rest) == "warning"@,
        quote_class("Quote unavailable"@ + rest) == "warning"@,
        quote_class("Cached"@ + rest) == "dim-label"@,
{
    reveal_strlit("Live");
    reveal_strlit("Current");
    reveal_strlit("Stale");
    reveal_strlit("Network");
    reveal_strlit("Quote unavailable");
    reveal_strlit("Cached");
    let a = "Live"@ + rest;
    let b = "Current"@ + rest;
    let c = "Stale"@ + rest;
    let d = "Network"@ + rest;
    let e = "Quote unavailable"@ + rest;
    let f = "Cached"@ + rest;
    assert(a.subrange(0, 4) =~= "Live"@);
    assert(b.subrange(0, 7) =~= "Current"@);
    assert(c.subrange(0, 5) =~= "Stale"@);
    assert(d.subrange(0, 7) =~= "Network"@);
    assert(e.subrange(0, 17) =~= "Quote unavailable"@);
    begins_otherwise(c, "Live"@, 0);
    begins_otherwise(c, "Current"@, 0);
    begins_otherwise(d, "Live"@, 0);
    begins_otherwise(d, "Current"@, 0);
    begins_otherwise(e, "Live"@, 0);
    begins_otherwise(e, "Current"@, 0);
    begins_otherwise(f, "Live"@, 0);
    begins_otherwise(f, "Current"@, 1);
    begins_otherwise(f, "Stale"@, 0);
    begins_otherwise(f, "Network"@, 0);
    begins_otherwise(f, "Quote unavailable"@, 0);
}

proof fn begins_otherwise(s: Seq<char>, part: Seq<char>, i: int)
    requires
        0 <= i < part.len(),
        i < s.len(),
        s[i] != part[i],
    ensures
        !text::begins_with(s, part),
{
    if text::begins_with(s, part) {
        assert(s.subrange(0, part.len() as int)[i] == s[i]);
    }
}

} // verus!
