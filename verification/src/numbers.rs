//! Whole numbers in decimal notation.

use vstd::prelude::*;
use crate::text;

verus! {

pub open spec fn digit(n: int) -> char {
    ((48 + n) as u8) as char
}

pub open spec fn is_digit(c: char) -> bool {
    '0' <= c && c <= '9'
}

pub open spec fn digit_value(c: char) -> int {
    c as u32 - 48
}

pub open spec fn all_digits(s: Seq<char>) -> bool {
    forall|i: int| 0 <= i < s.len() ==> is_digit(#[trigger] s[i])
}

/// The number that a row of decimal digits stands for.
pub open spec fn digits_value(s: Seq<char>) -> int
    decreases s.len(),
{
    if s.len() == 0 {
        0
    } else {
        10 * digits_value(s.drop_last()) + digit_value(s.last())
    }
}

/// A natural number in decimal digits, without leading zeros.
pub open spec fn natural_text(n: nat) -> Seq<char>
    decreases n,
{
    if n < 10 {
        seq![digit(n as int)]
    } else {
        natural_text(n / 10).push(digit((n % 10) as int))
    }
}

/// An integer in decimal digits, with a minus sign where it is negative.
pub open spec fn integer_text(n: int) -> Seq<char> {
    if n < 0 {
        seq!['-'] + natural_text((-n) as nat)
    } else {
        natural_text(n as nat)
    }
}

pub open spec fn zeros(n: int) -> Seq<char> {
    if n <= 0 {
        Seq::empty()
    } else {
        Seq::new(n as nat, |i: int| '0')
    }
}

/// An integer that takes up at least `width` characters: zeros stand between the
/// sign and the first digit.
pub open spec fn padded_text(n: int, width: int) -> Seq<char> {
    if n < 0 {
        let digits = natural_text((-n) as nat);
        seq!['-'] + zeros(width - 1 - digits.len()) + digits
    } else {
        let digits = natural_text(n as nat);
        zeros(width - digits.len()) + digits
    }
}

/// The integer that a text denotes: an optional sign, then one digit or more, and
/// nothing else. A minus sign counts only where `minus` allows it.
pub open spec fn denoted(s: Seq<char>, minus: bool) -> Option<int> {
    let signed = s.len() > 0 && (s[0] == '+' || (minus && s[0] == '-'));
    let digits = if signed {
        s.skip(1)
    } else {
        s
    };
    if digits.len() == 0 || !all_digits(digits) {
        None
    } else if signed && s[0] == '-' {
        Some(-digits_value(digits))
    } else {
        Some(digits_value(digits))
    }
}

/// The integer that a text denotes, if it lies between the two bounds.
pub open spec fn denoted_within(s: Seq<char>, minus: bool, low: int, high: int) -> Option<int> {
    match denoted(s, minus) {
        Some(n) if low <= n <= high => Some(n),
        _ => None,
    }
}

proof fn natural_text_reads_back(n: nat)
    ensures
        natural_text(n).len() > 0,
        all_digits(natural_text(n)),
        digits_value(natural_text(n)) == n,
    decreases n,
{
    let s = natural_text(n);
    if n < 10 {
        assert(s.drop_last() =~= Seq::<char>::empty());
        assert(digits_value(s.drop_last()) == 0);
        assert(s.last() == digit(n as int));
    } else {
        natural_text_reads_back(n / 10);
        assert(s.drop_last() =~= natural_text(n / 10));
    }
}

/// Reading what was printed gives the number back.
pub proof fn printed_integer_reads_back(n: int)
    ensures
        denoted(integer_text(n), true) == Some(n),
        n >= 0 ==> denoted(integer_text(n), false) == Some(n),
{
    if n < 0 {
        natural_text_reads_back((-n) as nat);
        let s = integer_text(n);
        assert(s.skip(1) =~= natural_text((-n) as nat));
    } else {
        natural_text_reads_back(n as nat);
        assert(is_digit(natural_text(n as nat)[0]));
    }
}

/// A printed integer holds digits, and at most a minus sign in front of them.
pub proof fn printed_integer_is_plain(n: int)
    ensures
        integer_text(n).len() > 0,
        forall|i: int|
            0 <= i < integer_text(n).len() ==> is_digit(#[trigger] integer_text(n)[i])
                || integer_text(n)[i] == '-',
        n >= 0 ==> all_digits(integer_text(n)),
{
    if n < 0 {
        let digits = natural_text((-n) as nat);
        natural_text_reads_back((-n) as nat);
        assert forall|i: int| 0 <= i < integer_text(n).len() implies is_digit(
            #[trigger] integer_text(n)[i],
        ) || integer_text(n)[i] == '-' by {
            if i > 0 {
                assert(integer_text(n)[i] == digits[i - 1]);
            }
        }
    } else {
        natural_text_reads_back(n as nat);
    }
}

proof fn zeros_count_nothing(k: int, s: Seq<char>)
    requires
        all_digits(s),
    ensures
        all_digits(zeros(k) + s),
        digits_value(zeros(k) + s) == digits_value(s),
    decreases s.len(), k,
{
    let t = zeros(k) + s;
    if s.len() > 0 {
        zeros_count_nothing(k, s.drop_last());
        assert(t.drop_last() =~= zeros(k) + s.drop_last());
        assert(t.last() == s.last());
    } else if k > 0 {
        zeros_count_nothing(k - 1, s);
        assert(t =~= zeros(k));
        assert(t.drop_last() =~= zeros(k - 1) + s);
    } else {
        assert(t =~= s);
    }
}

/// Zeros in front of the digits do not change what is read.
pub proof fn padded_integer_reads_back(n: int, width: int)
    ensures
        denoted(padded_text(n, width), true) == Some(n),
        n >= 0 ==> denoted(padded_text(n, width), false) == Some(n),
        n >= 0 ==> all_digits(padded_text(n, width)),
{
    if n < 0 {
        let digits = natural_text((-n) as nat);
        natural_text_reads_back((-n) as nat);
        zeros_count_nothing(width - 1 - digits.len(), digits);
        let s = padded_text(n, width);
        assert(s.skip(1) =~= zeros(width - 1 - digits.len()) + digits);
    } else {
        let digits = natural_text(n as nat);
        natural_text_reads_back(n as nat);
        zeros_count_nothing(width - digits.len(), digits);
        assert(is_digit(padded_text(n, width)[0]));
    }
}

fn push_natural(text: &mut String, n: u64)
    ensures
        final(text)@ == old(text)@ + natural_text(n as nat),
    decreases n,
{
    if n < 10 {
        text.push((48 + n as u8) as char);
    } else {
        push_natural(text, n / 10);
        text.push((48 + (n % 10) as u8) as char);
    }
    assert(text@ =~= old(text)@ + natural_text(n as nat));
}

fn magnitude(n: i64) -> (r: u64)
    ensures
        n < 0 ==> r == -n,
        n >= 0 ==> r == n,
{
    if n >= 0 {
        n as u64
    } else {
        (-(n + 1)) as u64 + 1
    }
}

pub fn print_integer(n: i64) -> (r: String)
    ensures
        r@ == integer_text(n as int),
{
    let mut r = String::new();
    if n < 0 {
        r.push('-');
        push_natural(&mut r, magnitude(n));
        assert(r@ =~= integer_text(n as int));
    } else {
        push_natural(&mut r, n as u64);
        assert(r@ =~= integer_text(n as int));
    }
    r
}

pub fn print_natural(n: u64) -> (r: String)
    ensures
        r@ == natural_text(n as nat),
{
    let mut r = String::new();
    push_natural(&mut r, n);
    assert(r@ =~= natural_text(n as nat));
    r
}

/// Prints `n` over at least `width` characters, filled with zeros.
pub fn print_padded(n: i64, width: usize) -> (r: String)
    ensures
        r@ == padded_text(n as int, width as int),
{
    let digits = print_natural(magnitude(n));
    let plain = text::chars_of(digits.as_str());
    let mut r = String::new();
    let mut taken: usize = plain.len();
    if n < 0 {
        r.push('-');
        if taken < width {
            taken += 1;
        }
    }
    let ghost sign = r@;
    let ghost start = taken as int;
    while taken < width
        invariant
            start <= taken,
            taken <= width || taken == start,
            r@ == sign + zeros(taken - start),
        decreases width - taken,
    {
        r.push('0');
        taken += 1;
        assert(r@ =~= sign + zeros(taken - start));
    }
    r.append(digits.as_str());
    assert(r@ =~= padded_text(n as int, width as int));
    r
}

proof fn longer_row_is_no_smaller(s: Seq<char>, n: int)
    requires
        all_digits(s),
        0 <= n <= s.len(),
    ensures
        digits_value(s.take(n)) <= digits_value(s),
        0 <= digits_value(s.take(n)),
    decreases s.len(),
{
    if n < s.len() {
        assert(is_digit(s.last()));
        assert(all_digits(s.drop_last()));
        longer_row_is_no_smaller(s.drop_last(), n);
        assert(s.drop_last().take(n) =~= s.take(n));
    } else {
        assert(s.take(n) =~= s);
        if n > 0 {
            assert(is_digit(s.last()));
            longer_row_is_no_smaller(s.drop_last(), n - 1);
            assert(s.drop_last().take(n - 1) =~= s.drop_last());
        }
    }
}

/// Reads an integer that fits into 64 bits.
pub fn parse_integer(value: &str, minus: bool) -> (r: Option<i64>)
    ensures
        match r {
            Some(n) => denoted_within(value@, minus, i64::MIN as int, i64::MAX as int) == Some(
                n as int,
            ),
            None => denoted_within(value@, minus, i64::MIN as int, i64::MAX as int) is None,
        },
{
    let chars = text::chars_of(value);
    let signed = chars.len() > 0 && (chars[0] == '+' || (minus && chars[0] == '-'));
    let negative = signed && chars[0] == '-';
    let start: usize = if signed {
        1
    } else {
        0
    };
    let ghost digits = value@.skip(start as int);
    assert(!signed ==> digits =~= value@);
    if chars.len() == start {
        return None;
    }
    let mut i: usize = start;
    let mut total: i128 = 0;
    while i < chars.len()
        invariant
            start <= i <= chars@.len(),
            chars@ == value@,
            digits == value@.skip(start as int),
            all_digits(digits.take(i - start)),
            total == digits_value(digits.take(i - start)),
            0 <= total <= 0x8000_0000_0000_0000,
            signed == (value@.len() > 0 && (value@[0] == '+' || (minus && value@[0] == '-'))),
            negative == (signed && value@[0] == '-'),
            start == if signed {
                1int
            } else {
                0int
            },
        decreases chars@.len() - i,
    {
        let c: char = chars[i];
        let ghost before = digits.take(i - start);
        let ghost after = digits.take(i + 1 - start);
        assert(after.drop_last() =~= before);
        assert(after.last() == c && c == digits[i - start]);
        if !('0' <= c && c <= '9') {
            return None;
        }
        total = total * 10 + (c as u32 as i128 - 48);
        assert(all_digits(after)) by {
            assert forall|k: int| 0 <= k < after.len() implies is_digit(#[trigger] after[k]) by {
                if k < before.len() {
                    assert(after[k] == before[k]);
                }
            }
        }
        assert(total == digits_value(after));
        if total > 0x8000_0000_0000_0000 {
            proof {
                assert(signed ==> digits == value@.skip(1));
                assert(!signed ==> digits =~= value@);
                if all_digits(digits) {
                    longer_row_is_no_smaller(digits, i + 1 - start);
                }
            }
            return None;
        }
        i += 1;
    }
    assert(digits.take(i - start) =~= digits);
    if negative {
        Some((-total) as i64)
    } else if total > 0x7fff_ffff_ffff_ffff {
        None
    } else {
        Some(total as i64)
    }
}

/// An integer, held at the bounds of 64 bits.
pub open spec fn saturated(n: int) -> int {
    if n > i64::MAX {
        i64::MAX as int
    } else if n < i64::MIN {
        i64::MIN as int
    } else {
        n
    }
}

pub fn saturating_difference(a: i64, b: i64) -> (r: i64)
    ensures
        r == saturated(a - b),
{
    saturate(a as i128 - b as i128)
}

pub fn saturating_sum(a: i64, b: i64) -> (r: i64)
    ensures
        r == saturated(a + b),
{
    saturate(a as i128 + b as i128)
}

fn saturate(n: i128) -> (r: i64)
    ensures
        r == saturated(n as int),
{
    if n > i64::MAX as i128 {
        i64::MAX
    } else if n < i64::MIN as i128 {
        i64::MIN
    } else {
        n as i64
    }
}

/// Digits spell a number in the decimal system: one more digit stands for ten times as much
/// and its own value. A minus is read only where it is allowed, a plus always.
pub proof fn digits_spell_numbers(s: Seq<char>, c: char, minus: bool)
    requires
        all_digits(s),
        s.len() > 0,
        '0' <= c && c <= '9',
    ensures
        denoted(seq![c], minus) == Some(c as int - '0' as int),
        denoted(s, minus) is Some,
        denoted(s, minus)->0 >= 0,
        denoted(s.push(c), minus) == Some(10 * denoted(s, minus)->0 + (c as int - '0' as int)),
        denoted(seq!['+'] + s, minus) == denoted(s, minus),
        denoted(seq!['-'] + s, true) == Some(-(denoted(s, true)->0)),
        denoted(seq!['-'] + s, false) is None,
{
    let one = seq![c];
    assert(one.drop_last() =~= Seq::empty());
    assert(digits_value(Seq::<char>::empty()) == 0);
    assert(digits_value(one) == digit_value(c));
    assert(is_digit(s[0]));
    longer_row_is_no_smaller(s, s.len() as int);
    assert(s.take(s.len() as int) =~= s);
    let more = s.push(c);
    assert(more.drop_last() =~= s);
    assert(all_digits(more));
    assert(more[0] == s[0]);
    assert((seq!['+'] + s).skip(1) =~= s);
    assert((seq!['-'] + s).skip(1) =~= s);
    let bad = seq!['-'] + s;
    assert(!is_digit(bad[0]));
}

/// Nothing but digits after a sign is read as a number.
pub proof fn only_digits_are_numbers(s: Seq<char>, minus: bool, i: int)
    requires
        denoted(s, minus) is Some,
        0 <= i < s.len(),
    ensures
        '0' <= s[i] && s[i] <= '9' || i == 0 && s.len() > 1 && (s[0] == '+' || minus && s[0] == '-'),
{
    let signed = s[0] == '+' || (minus && s[0] == '-');
    if signed {
        if i > 0 {
            assert(s.skip(1)[i - 1] == s[i]);
            assert(is_digit(s.skip(1)[i - 1]));
        }
    } else {
        assert(is_digit(s[i]));
    }
}

/// Padding adds zeros in front until the width is reached, and nothing beyond it.
pub proof fn padding_fills_the_width(n: int, width: int)
    requires
        n >= 0,
    ensures
        integer_text(n).len() >= width ==> padded_text(n, width) == integer_text(n),
        integer_text(n).len() <= width ==> padded_text(n, width).len() == width,
        forall|k: int|
            0 <= k < padded_text(n, width).len() - integer_text(n).len() ==> #[trigger] padded_text(
                n,
                width,
            )[k] == '0',
{
    if integer_text(n).len() >= width {
        assert(padded_text(n, width) =~= integer_text(n));
    }
}

/// A number that does not fit is brought to the nearest one that does.
pub proof fn saturation_is_nearest(n: int, x: i64)
    ensures
        i64::MIN <= saturated(n) <= i64::MAX,
        n <= x ==> n <= saturated(n) <= x || saturated(n) == n,
        x <= n ==> x <= saturated(n) <= n || saturated(n) == n,
        i64::MIN <= n <= i64::MAX ==> saturated(n) == n,
{
}

} // verus!
