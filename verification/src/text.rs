//! Text as sequences of characters: trimming, ASCII letter case, searching, splitting, and
//! the order of texts.

use vstd::prelude::*;

verus! {

/// `String::push` puts the character behind the last character of the string.
pub assume_specification[ String::push ](string: &mut String, c: char)
    ensures
        final(string)@ == old(string)@.push(c),
;

/// The characters with the Unicode property White_Space.
pub open spec fn blank(c: char) -> bool {
    let n = c as u32;
    ||| 0x9 <= n <= 0xD
    ||| n == 0x20
    ||| n == 0x85
    ||| n == 0xA0
    ||| n == 0x1680
    ||| 0x2000 <= n <= 0x200A
    ||| n == 0x2028
    ||| n == 0x2029
    ||| n == 0x202F
    ||| n == 0x205F
    ||| n == 0x3000
}

/// An ASCII letter in upper case; any other character as it is.
pub open spec fn upper(c: char) -> char {
    if 'a' <= c && c <= 'z' {
        ((c as u32 - 32) as u8) as char
    } else {
        c
    }
}

/// An ASCII letter in lower case; any other character as it is.
pub open spec fn lower(c: char) -> char {
    if 'A' <= c && c <= 'Z' {
        ((c as u32 + 32) as u8) as char
    } else {
        c
    }
}

pub open spec fn uppercase(s: Seq<char>) -> Seq<char> {
    Seq::new(s.len(), |i: int| upper(s[i]))
}

pub open spec fn lowercase(s: Seq<char>) -> Seq<char> {
    Seq::new(s.len(), |i: int| lower(s[i]))
}

/// Equal but for the case of ASCII letters.
pub open spec fn alike(a: Seq<char>, b: Seq<char>) -> bool {
    lowercase(a) == lowercase(b)
}

pub open spec fn trim_front(s: Seq<char>) -> Seq<char>
    decreases s.len(),
{
    if s.len() > 0 && blank(s[0]) {
        trim_front(s.skip(1))
    } else {
        s
    }
}

pub open spec fn trim_back(s: Seq<char>) -> Seq<char>
    decreases s.len(),
{
    if s.len() > 0 && blank(s.last()) {
        trim_back(s.drop_last())
    } else {
        s
    }
}

/// The text without white space at its two ends.
pub open spec fn trimmed(s: Seq<char>) -> Seq<char> {
    trim_back(trim_front(s))
}

/// `part` stands in `s`, its first character at position `at`.
pub open spec fn stands_at(s: Seq<char>, part: Seq<char>, at: int) -> bool {
    &&& 0 <= at
    &&& at + part.len() <= s.len()
    &&& s.subrange(at, at + part.len()) == part
}

pub open spec fn holds_part(s: Seq<char>, part: Seq<char>) -> bool {
    exists|at: int| stands_at(s, part, at)
}

/// Equality is the same under either letter case.
pub proof fn alike_by_upper_case(a: Seq<char>, b: Seq<char>)
    ensures
        alike(a, b) <==> uppercase(a) == uppercase(b),
{
    if alike(a, b) {
        assert(a.len() == lowercase(a).len() && b.len() == lowercase(b).len());
        assert forall|i: int| 0 <= i < a.len() implies upper(a[i]) == upper(b[i]) by {
            assert(lowercase(a)[i] == lower(a[i]));
            assert(lowercase(b)[i] == lower(b[i]));
        }
        assert(uppercase(a) =~= uppercase(b));
    }
    if uppercase(a) == uppercase(b) {
        assert(a.len() == uppercase(a).len() && b.len() == uppercase(b).len());
        assert forall|i: int| 0 <= i < a.len() implies lower(a[i]) == lower(b[i]) by {
            assert(uppercase(a)[i] == upper(a[i]));
            assert(uppercase(b)[i] == upper(b[i]));
        }
        assert(lowercase(a) =~= lowercase(b));
    }
}

/// Trimming leaves no white space at either end, and a text with none there is
/// left as it is; so trimming twice is trimming once.
pub proof fn trimming_is_final(s: Seq<char>)
    ensures
        trimmed(s).len() > 0 ==> !blank(trimmed(s)[0]) && !blank(trimmed(s).last()),
        trimmed(trimmed(s)) == trimmed(s),
{
    let front = trim_front(s);
    trim_front_stops(s);
    trim_back_stops(front);
    let both = trim_back(front);
    if both.len() > 0 {
        assert(both[0] == front[0]);
    }
}

proof fn trim_front_stops(s: Seq<char>)
    ensures
        trim_front(s).len() > 0 ==> !blank(trim_front(s)[0]),
    decreases s.len(),
{
    if s.len() > 0 && blank(s[0]) {
        trim_front_stops(s.skip(1));
    }
}

proof fn trim_back_stops(s: Seq<char>)
    ensures
        trim_back(s).len() > 0 ==> !blank(trim_back(s).last()),
        trim_back(s).len() <= s.len(),
        trim_back(s) == s.take(trim_back(s).len() as int),
        trim_back(trim_back(s)) == trim_back(s),
    decreases s.len(),
{
    if s.len() > 0 && blank(s.last()) {
        trim_back_stops(s.drop_last());
        let n = trim_back(s).len() as int;
        assert(s.drop_last().take(n) =~= s.take(n));
    } else {
        assert(s.take(s.len() as int) =~= s);
    }
}

pub fn is_blank(c: char) -> (r: bool)
    ensures
        r == blank(c),
{
    let n: u32 = c as u32;
    (0x9 <= n && n <= 0xD) || n == 0x20 || n == 0x85 || n == 0xA0 || n == 0x1680 || (0x2000 <= n
        && n <= 0x200A) || n == 0x2028 || n == 0x2029 || n == 0x202F || n == 0x205F || n == 0x3000
}

pub fn upper_char(c: char) -> (r: char)
    ensures
        r == upper(c),
{
    if 'a' <= c && c <= 'z' {
        (c as u8 - 32) as char
    } else {
        c
    }
}

pub fn lower_char(c: char) -> (r: char)
    ensures
        r == lower(c),
{
    if 'A' <= c && c <= 'Z' {
        (c as u8 + 32) as char
    } else {
        c
    }
}

pub fn chars_of(text: &str) -> (r: Vec<char>)
    ensures
        r@ == text@,
{
    let mut r: Vec<char> = Vec::new();
    for c in it: text.chars()
        invariant
            r@ == it.seq().take(it.index() as int),
    {
        r.push(c);
    }
    r
}

/// The characters from `from` up to, not including, `to`.
pub fn text_of(chars: &[char], from: usize, to: usize) -> (r: String)
    requires
        from <= to <= chars@.len(),
    ensures
        r@ == chars@.subrange(from as int, to as int),
{
    let mut r = String::new();
    let mut i: usize = from;
    while i < to
        invariant
            from <= i <= to <= chars@.len(),
            r@ == chars@.subrange(from as int, i as int),
        decreases to - i,
    {
        r.push(chars[i]);
        i += 1;
    }
    r
}

pub fn same_text(a: &str, b: &str) -> (r: bool)
    ensures
        r == (a@ == b@),
{
    let x = chars_of(a);
    let y = chars_of(b);
    if x.len() != y.len() {
        return false;
    }
    let mut i: usize = 0;
    while i < x.len()
        invariant
            i <= x@.len(),
            x@ == a@,
            y@ == b@,
            x@.len() == y@.len(),
            forall|k: int| 0 <= k < i ==> a@[k] == b@[k],
        decreases x@.len() - i,
    {
        if x[i] != y[i] {
            return false;
        }
        i += 1;
    }
    assert(a@ =~= b@);
    true
}

/// Equality but for the case of ASCII letters.
pub fn same_letters(a: &str, b: &str) -> (r: bool)
    ensures
        r == alike(a@, b@),
{
    let x = chars_of(a);
    let y = chars_of(b);
    if x.len() != y.len() {
        assert(lowercase(a@).len() != lowercase(b@).len());
        return false;
    }
    let mut i: usize = 0;
    while i < x.len()
        invariant
            i <= x@.len(),
            x@ == a@,
            y@ == b@,
            x@.len() == y@.len(),
            forall|k: int| 0 <= k < i ==> lower(a@[k]) == lower(b@[k]),
        decreases x@.len() - i,
    {
        if lower_char(x[i]) != lower_char(y[i]) {
            assert(lowercase(a@)[i as int] != lowercase(b@)[i as int]);
            return false;
        }
        i += 1;
    }
    assert(lowercase(a@) =~= lowercase(b@));
    true
}

pub fn to_upper(text: &str) -> (r: String)
    ensures
        r@ == uppercase(text@),
{
    let chars = chars_of(text);
    let mut r = String::new();
    let mut i: usize = 0;
    while i < chars.len()
        invariant
            i <= chars@.len(),
            chars@ == text@,
            r@ == uppercase(text@).take(i as int),
        decreases chars@.len() - i,
    {
        r.push(upper_char(chars[i]));
        i += 1;
    }
    assert(r@ =~= uppercase(text@));
    r
}

pub fn to_lower(text: &str) -> (r: String)
    ensures
        r@ == lowercase(text@),
{
    let chars = chars_of(text);
    let mut r = String::new();
    let mut i: usize = 0;
    while i < chars.len()
        invariant
            i <= chars@.len(),
            chars@ == text@,
            r@ == lowercase(text@).take(i as int),
        decreases chars@.len() - i,
    {
        r.push(lower_char(chars[i]));
        i += 1;
    }
    assert(r@ =~= lowercase(text@));
    r
}

pub proof fn trim_front_skips(s: Seq<char>, n: int)
    requires
        0 <= n <= s.len(),
        forall|k: int| 0 <= k < n ==> blank(s[k]),
        n < s.len() ==> !blank(s[n]),
    ensures
        trim_front(s) == s.skip(n),
    decreases n,
{
    if n > 0 {
        trim_front_skips(s.skip(1), n - 1);
        assert(s.skip(1).skip(n - 1) =~= s.skip(n));
    } else {
        assert(s.skip(0) =~= s);
    }
}

proof fn trim_back_keeps(s: Seq<char>, n: int)
    requires
        0 <= n <= s.len(),
        forall|k: int| n <= k < s.len() ==> blank(s[k]),
        n > 0 ==> !blank(s[n - 1]),
    ensures
        trim_back(s) == s.take(n),
    decreases s.len() - n,
{
    if n < s.len() {
        trim_back_keeps(s.drop_last(), n);
        assert(s.drop_last().take(n) =~= s.take(n));
    } else {
        assert(s.take(n) =~= s);
    }
}

pub fn trim(text: &str) -> (r: String)
    ensures
        r@ == trimmed(text@),
{
    let chars = chars_of(text);
    let mut from: usize = 0;
    while from < chars.len() && is_blank(chars[from])
        invariant
            from <= chars@.len(),
            forall|k: int| 0 <= k < from ==> blank(chars@[k]),
        decreases chars@.len() - from,
    {
        from += 1;
    }
    let mut to: usize = chars.len();
    while to > from && is_blank(chars[to - 1])
        invariant
            from <= to <= chars@.len(),
            forall|k: int| to <= k < chars@.len() ==> blank(chars@[k]),
        decreases to,
    {
        to -= 1;
    }
    proof {
        let front = chars@.skip(from as int);
        trim_front_skips(chars@, from as int);
        trim_back_keeps(front, to - from);
        assert(front.take(to - from) =~= chars@.subrange(from as int, to as int));
    }
    text_of(&chars, from, to)
}

/// No character but white space.
pub open spec fn nothing_but_blanks(s: Seq<char>) -> bool {
    trimmed(s).len() == 0
}

pub fn is_only_blank(text: &str) -> (r: bool)
    ensures
        r == nothing_but_blanks(text@),
{
    let t = chars_of(trim(text).as_str());
    t.len() == 0
}

fn part_at(chars: &[char], part: &[char], at: usize) -> (r: bool)
    requires
        at <= chars@.len(),
    ensures
        r == stands_at(chars@, part@, at as int),
{
    let len: usize = chars.len();
    if part.len() > len - at {
        return false;
    }
    let mut i: usize = 0;
    while i < part.len()
        invariant
            i <= part@.len(),
            len == chars@.len(),
            at + part@.len() <= chars@.len(),
            forall|k: int| 0 <= k < i ==> chars@[at + k] == part@[k],
        decreases part@.len() - i,
    {
        if chars[at + i] != part[i] {
            assert(chars@.subrange(at as int, at + part@.len())[i as int] != part@[i as int]);
            return false;
        }
        i += 1;
    }
    assert(chars@.subrange(at as int, at + part@.len()) =~= part@);
    true
}

pub fn contains_part(text: &str, part: &str) -> (r: bool)
    ensures
        r == holds_part(text@, part@),
{
    let chars = chars_of(text);
    let wanted = chars_of(part);
    let mut at: usize = 0;
    while at < chars.len()
        invariant
            at <= chars@.len(),
            chars@ == text@,
            wanted@ == part@,
            forall|k: int| 0 <= k < at ==> !stands_at(text@, part@, k),
        decreases chars@.len() - at,
    {
        if part_at(&chars, &wanted, at) {
            return true;
        }
        at += 1;
    }
    let r = part_at(&chars, &wanted, at);
    proof {
        if !r && holds_part(text@, part@) {
            let k = choose|k: int| stands_at(text@, part@, k);
            assert(k <= at);
        }
    }
    r
}

pub open spec fn begins_with(s: Seq<char>, part: Seq<char>) -> bool {
    stands_at(s, part, 0)
}

pub open spec fn closes_with(s: Seq<char>, part: Seq<char>) -> bool {
    stands_at(s, part, s.len() - part.len())
}

pub fn starts_with(text: &str, part: &str) -> (r: bool)
    ensures
        r == begins_with(text@, part@),
{
    let chars = chars_of(text);
    let wanted = chars_of(part);
    part_at(&chars, &wanted, 0)
}

pub fn ends_with(text: &str, part: &str) -> (r: bool)
    ensures
        r == closes_with(text@, part@),
{
    let chars = chars_of(text);
    let wanted = chars_of(part);
    if wanted.len() > chars.len() {
        return false;
    }
    part_at(&chars, &wanted, chars.len() - wanted.len())
}

/// What follows `part` at the start of `text`, if `text` starts with it.
pub fn strip_front(text: &str, part: &str) -> (r: Option<String>)
    ensures
        match r {
            Some(rest) => begins_with(text@, part@) && rest@ == text@.skip(part@.len() as int),
            None => !begins_with(text@, part@),
        },
{
    let chars = chars_of(text);
    let wanted = chars_of(part);
    if part_at(&chars, &wanted, 0) {
        assert(text@.skip(part@.len() as int) =~= text@.subrange(
            part@.len() as int,
            text@.len() as int,
        ));
        Some(text_of(&chars, wanted.len(), chars.len()))
    } else {
        None
    }
}

/// The parts of a text that stand between occurrences of `separator`.
pub open spec fn pieces(s: Seq<char>, separator: char) -> Seq<Seq<char>>
    decreases s.len(),
{
    if s.len() == 0 {
        seq![Seq::empty()]
    } else if s.last() == separator {
        pieces(s.drop_last(), separator).push(Seq::empty())
    } else {
        let before = pieces(s.drop_last(), separator);
        before.drop_last().push(before.last().push(s.last()))
    }
}

pub proof fn some_piece(s: Seq<char>, separator: char)
    ensures
        pieces(s, separator).len() > 0,
    decreases s.len(),
{
    if s.len() > 0 {
        some_piece(s.drop_last(), separator);
    }
}

/// A text without the separator, put behind one that ends with it, is one more piece.
pub proof fn one_more_piece(s: Seq<char>, separator: char, t: Seq<char>)
    requires
        forall|i: int| 0 <= i < t.len() ==> t[i] != separator,
    ensures
        pieces(s.push(separator) + t, separator) == pieces(s, separator).push(t),
    decreases t.len(),
{
    let whole = s.push(separator) + t;
    if t.len() == 0 {
        assert(whole =~= s.push(separator));
        assert(whole.drop_last() =~= s);
        assert(t =~= Seq::empty());
    } else {
        one_more_piece(s, separator, t.drop_last());
        assert(whole.drop_last() =~= s.push(separator) + t.drop_last());
        assert(whole.last() == t.last());
        let before = pieces(whole.drop_last(), separator);
        assert(before.drop_last() =~= pieces(s, separator));
        assert(t.drop_last().push(t.last()) =~= t);
    }
}

/// A text without the separator is its only piece.
pub proof fn only_piece(t: Seq<char>, separator: char)
    requires
        forall|i: int| 0 <= i < t.len() ==> t[i] != separator,
    ensures
        pieces(t, separator) == seq![t],
    decreases t.len(),
{
    if t.len() > 0 {
        only_piece(t.drop_last(), separator);
        let before = pieces(t.drop_last(), separator);
        assert(before.drop_last().push(before.last().push(t.last())) =~= seq![t]) by {
            assert(t.drop_last().push(t.last()) =~= t);
        }
    } else {
        assert(t =~= Seq::empty());
    }
}

pub fn split(text: &str, separator: char) -> (r: Vec<String>)
    ensures
        r@.len() == pieces(text@, separator).len(),
        forall|i: int| 0 <= i < r@.len() ==> (#[trigger] r@[i])@ == pieces(text@, separator)[i],
{
    let chars = chars_of(text);
    let mut r: Vec<String> = Vec::new();
    let mut current = String::new();
    let mut i: usize = 0;
    proof {
        assert(text@.take(0) =~= Seq::empty());
    }
    while i < chars.len()
        invariant
            i <= chars@.len(),
            chars@ == text@,
            r@.len() + 1 == pieces(text@.take(i as int), separator).len(),
            current@ == pieces(text@.take(i as int), separator).last(),
            forall|k: int|
                0 <= k < r@.len() ==> (#[trigger] r@[k])@ == pieces(text@.take(i as int), separator)[k],
        decreases chars@.len() - i,
    {
        let c: char = chars[i];
        proof {
            assert(text@.take(i + 1).drop_last() =~= text@.take(i as int));
            assert(text@.take(i + 1).last() == c);
        }
        if c == separator {
            r.push(current);
            current = String::new();
        } else {
            current.push(c);
        }
        i += 1;
    }
    r.push(current);
    assert(text@.take(i as int) =~= text@);
    r
}

/// `n` is the length of the longest common start of two texts.
pub open spec fn parts_after(a: Seq<char>, b: Seq<char>, n: int) -> bool {
    &&& 0 <= n <= a.len()
    &&& n <= b.len()
    &&& forall|i: int| 0 <= i < n ==> a[i] == b[i]
    &&& n < a.len() && n < b.len() ==> a[n] != b[n]
}

/// `a` stands before `b` in the order of texts: by the first character that differs,
/// and a text before every longer one that starts with it.
pub open spec fn sorts_before(a: Seq<char>, b: Seq<char>) -> bool {
    exists|n: int| #[trigger]
        parts_after(a, b, n) && n < b.len() && (n == a.len() || a[n] < b[n])
}

/// The length of the longest common start.
fn common_start(x: &Vec<char>, y: &Vec<char>) -> (n: usize)
    ensures
        parts_after(x@, y@, n as int),
{
    let mut n: usize = 0;
    while n < x.len() && n < y.len() && x[n] == y[n]
        invariant
            n <= x@.len(),
            n <= y@.len(),
            forall|i: int| 0 <= i < n ==> x@[i] == y@[i],
        decreases x@.len() - n,
    {
        n += 1;
    }
    n
}

pub fn is_sorted_before(a: &str, b: &str) -> (r: bool)
    ensures
        r == sorts_before(a@, b@),
{
    let x = chars_of(a);
    let y = chars_of(b);
    let n: usize = common_start(&x, &y);
    let r = n < y.len() && (n == x.len() || x[n] < y[n]);
    proof {
        assert(parts_after(a@, b@, n as int));
        if sorts_before(a@, b@) {
            let m = choose|m: int| #[trigger]
                parts_after(a@, b@, m) && m < b@.len() && (m == a@.len() || a@[m] < b@[m]);
            assert(m == n);
        }
    }
    r
}

/// Of two texts either one stands before the other or they are equal.
pub proof fn texts_are_comparable(a: Seq<char>, b: Seq<char>)
    ensures
        sorts_before(a, b) || sorts_before(b, a) || a == b,
        !(sorts_before(a, b) && sorts_before(b, a)),
        !sorts_before(a, a),
{
    let n = meeting(a, b, 0);
    meeting_found(a, b, 0);
    assert(parts_after(a, b, n));
    assert(parts_after(b, a, n));
    if n == a.len() && n == b.len() {
        assert(a =~= b);
    }
    if sorts_before(a, b) && sorts_before(b, a) {
        let p = choose|p: int| #[trigger]
            parts_after(a, b, p) && p < b.len() && (p == a.len() || a[p] < b[p]);
        let q = choose|q: int| #[trigger]
            parts_after(b, a, q) && q < a.len() && (q == b.len() || b[q] < a[q]);
        assert(p == q);
    }
}

spec fn meeting(a: Seq<char>, b: Seq<char>, from: int) -> int
    decreases a.len() - from,
{
    if 0 <= from < a.len() && from < b.len() && a[from] == b[from] {
        meeting(a, b, from + 1)
    } else {
        from
    }
}

proof fn meeting_found(a: Seq<char>, b: Seq<char>, from: int)
    requires
        0 <= from <= a.len(),
        from <= b.len(),
        forall|i: int| 0 <= i < from ==> a[i] == b[i],
    ensures
        parts_after(a, b, meeting(a, b, from)),
    decreases a.len() - from,
{
    if from < a.len() && from < b.len() && a[from] == b[from] {
        meeting_found(a, b, from + 1);
    }
}

/// The order of texts carries over.
pub proof fn text_order_is_transitive(a: Seq<char>, b: Seq<char>, c: Seq<char>)
    requires
        sorts_before(a, b),
        sorts_before(b, c),
    ensures
        sorts_before(a, c),
{
    let p = choose|p: int| #[trigger]
        parts_after(a, b, p) && p < b.len() && (p == a.len() || a[p] < b[p]);
    let q = choose|q: int| #[trigger]
        parts_after(b, c, q) && q < c.len() && (q == b.len() || b[q] < c[q]);
    let n = if p <= q {
        p
    } else {
        q
    };
    assert(parts_after(a, c, n));
}

/// What comes before the first white space, once white space in front is gone.
pub open spec fn first_word(s: Seq<char>) -> Seq<char> {
    up_to_blank(trim_front(s))
}

pub open spec fn up_to_blank(s: Seq<char>) -> Seq<char>
    decreases s.len(),
{
    if s.len() == 0 || blank(s[0]) {
        Seq::empty()
    } else {
        seq![s[0]] + up_to_blank(s.skip(1))
    }
}

pub proof fn up_to_blank_is(s: Seq<char>, n: int)
    requires
        0 <= n <= s.len(),
        forall|k: int| 0 <= k < n ==> !blank(s[k]),
        n < s.len() ==> blank(s[n]),
    ensures
        up_to_blank(s) == s.take(n),
    decreases n,
{
    if n > 0 {
        up_to_blank_is(s.skip(1), n - 1);
        assert(seq![s[0]] + s.skip(1).take(n - 1) =~= s.take(n));
    } else {
        assert(s.take(0) =~= Seq::empty());
    }
}

/// The words of a text: what stands between white space.
pub open spec fn words(s: Seq<char>) -> Seq<Seq<char>>
    decreases s.len(),
{
    proof {
        trim_front_shortens(s);
        up_to_blank_shortens(trim_front(s));
    }
    let rest = trim_front(s);
    if rest.len() == 0 {
        Seq::empty()
    } else {
        let word = up_to_blank(rest);
        if word.len() == 0 {
            Seq::empty()
        } else {
            seq![word] + words(rest.skip(word.len() as int))
        }
    }
}

pub proof fn trim_front_shortens(s: Seq<char>)
    ensures
        trim_front(s).len() <= s.len(),
    decreases s.len(),
{
    if s.len() > 0 && blank(s[0]) {
        trim_front_shortens(s.skip(1));
    }
}

pub proof fn up_to_blank_shortens(s: Seq<char>)
    ensures
        up_to_blank(s).len() <= s.len(),
    decreases s.len(),
{
    if s.len() > 0 && !blank(s[0]) {
        up_to_blank_shortens(s.skip(1));
    }
}

pub open spec fn views(list: Seq<String>) -> Seq<Seq<char>> {
    Seq::new(list.len(), |i: int| list[i]@)
}

#[verifier::loop_isolation(false)]
pub fn split_words(text: &str) -> (r: Vec<String>)
    ensures
        views(r@) == words(text@),
{
    let chars = chars_of(text);
    let mut r: Vec<String> = Vec::new();
    let mut at: usize = 0;
    let mut more = true;
    assert(text@.skip(0) =~= text@);
    assert(views(r@) + words(text@) =~= words(text@));
    while more
        invariant
            at <= chars@.len(),
            more ==> views(r@) + words(text@.skip(at as int)) == words(text@),
            !more ==> views(r@) == words(text@),
        decreases chars@.len() - at, more as int,
    {
        let ghost rest = text@.skip(at as int);
        let mut from: usize = at;
        while from < chars.len() && is_blank(chars[from])
            invariant
                at <= from <= chars@.len(),
                forall|k: int| at <= k < from ==> blank(chars@[k]),
            decreases chars@.len() - from,
        {
            from += 1;
        }
        proof {
            trim_front_skips(rest, from - at);
            assert(rest.skip(from - at) =~= text@.skip(from as int));
        }
        if from == chars.len() {
            assert(words(rest) =~= Seq::empty());
            assert(views(r@) + words(rest) =~= views(r@));
            more = false;
        } else {
            let mut to: usize = from;
            while to < chars.len() && !is_blank(chars[to])
                invariant
                    from <= to <= chars@.len(),
                    forall|k: int| from <= k < to ==> !blank(chars@[k]),
                decreases chars@.len() - to,
            {
                to += 1;
            }
            let ghost tail = text@.skip(from as int);
            let ghost before = views(r@);
            proof {
                up_to_blank_is(tail, to - from);
                assert(tail.take(to - from) =~= text@.subrange(from as int, to as int));
                assert(tail.skip(to - from) =~= text@.skip(to as int));
            }
            r.push(text_of(&chars, from, to));
            proof {
                assert(views(r@) =~= before.push(text@.subrange(from as int, to as int)));
                assert(views(r@) + words(text@.skip(to as int)) =~= before + words(rest));
            }
            at = to;
        }
    }
    r
}

/// A text of white space alone has no words.
pub proof fn no_words_in_blanks(s: Seq<char>)
    requires
        nothing_but_blanks(s),
    ensures
        words(s) == Seq::<Seq<char>>::empty(),
{
    let front = trim_front(s);
    trim_front_stops(s);
    if front.len() > 0 {
        some_character_stays(front);
    }
}

proof fn some_character_stays(s: Seq<char>)
    requires
        s.len() > 0,
        !blank(s[0]),
    ensures
        trim_back(s).len() > 0,
    decreases s.len(),
{
    if blank(s.last()) {
        assert(s.len() > 1);
        some_character_stays(s.drop_last());
    }
}

/// Two texts are alike where they differ in nothing but the case of the letters from a to z.
pub proof fn only_case_may_differ(a: Seq<char>, b: Seq<char>)
    ensures
        alike(a, b) <==> a.len() == b.len() && forall|i: int|
            0 <= i < a.len() ==> {
                let x = #[trigger] a[i];
                let y = b[i];
                ||| x == y
                ||| 'a' <= x && x <= 'z' && y as int + 32 == x as int
                ||| 'a' <= y && y <= 'z' && x as int + 32 == y as int
            },
{
    assert forall|x: char, y: char|
        #![trigger lower(x), lower(y)]
        (lower(x) == lower(y)) == {
            ||| x == y
            ||| 'a' <= x && x <= 'z' && y as int + 32 == x as int
            ||| 'a' <= y && y <= 'z' && x as int + 32 == y as int
        } by {
        case_folds(x);
        case_folds(y);
    }
    let p = lowercase(a);
    let q = lowercase(b);
    if p == q {
        assert(p.len() == a.len() && q.len() == b.len());
        assert forall|i: int| 0 <= i < a.len() implies {
            let x = #[trigger] a[i];
            let y = b[i];
            ||| x == y
            ||| 'a' <= x && x <= 'z' && y as int + 32 == x as int
            ||| 'a' <= y && y <= 'z' && x as int + 32 == y as int
        } by {
            assert(p[i] == lower(a[i]) && q[i] == lower(b[i]));
        }
    }
    if a.len() == b.len() && forall|i: int|
        0 <= i < a.len() ==> {
            let x = #[trigger] a[i];
            let y = b[i];
            ||| x == y
            ||| 'a' <= x && x <= 'z' && y as int + 32 == x as int
            ||| 'a' <= y && y <= 'z' && x as int + 32 == y as int
        } {
        assert forall|i: int| 0 <= i < p.len() implies p[i] == q[i] by {
            let x = a[i];
            assert(p[i] == lower(a[i]) && q[i] == lower(b[i]));
        }
        assert(p =~= q);
    }
}

proof fn case_folds(c: char)
    ensures
        'A' <= c && c <= 'Z' ==> lower(c) as int == c as int + 32,
        'a' <= c && c <= 'z' ==> upper(c) as int == c as int - 32,
{
    if 'A' <= c && c <= 'Z' {
        let n = (c as u32 + 32) as u8;
        assert(n as char as int == c as int + 32);
    }
    if 'a' <= c && c <= 'z' {
        let n = (c as u32 - 32) as u8;
        assert(n as char as int == c as int - 32);
    }
}

/// Capitals are the same text without small letters, and small letters the same text
/// without capitals.
pub proof fn only_letters_are_folded(s: Seq<char>)
    ensures
        alike(uppercase(s), s),
        alike(lowercase(s), s),
        forall|i: int|
            0 <= i < s.len() ==> !('a' <= #[trigger] uppercase(s)[i] && uppercase(s)[i] <= 'z'),
        forall|i: int|
            0 <= i < s.len() ==> !('A' <= #[trigger] lowercase(s)[i] && lowercase(s)[i] <= 'Z'),
{
    assert forall|c: char| lower(#[trigger] upper(c)) == lower(c) && lower(lower(c)) == lower(c)
        && !('a' <= upper(c) && upper(c) <= 'z') && !('A' <= lower(c) && lower(c) <= 'Z') by {
        case_folds(c);
        case_folds(upper(c));
        case_folds(lower(c));
    }
    assert forall|i: int| 0 <= i < s.len() implies lowercase(uppercase(s))[i] == lowercase(
        s,
    )[i] by {
        assert(uppercase(s)[i] == upper(s[i]));
    }
    assert forall|i: int| 0 <= i < s.len() implies lowercase(lowercase(s))[i] == lowercase(
        s,
    )[i] && !('A' <= #[trigger] lowercase(s)[i] && lowercase(s)[i] <= 'Z') by {
        let u = upper(s[i]);
        assert(lower(u) == lower(s[i]));
        assert(lowercase(s)[i] == lower(s[i]));
    }
    assert(lowercase(uppercase(s)) =~= lowercase(s));
    assert(lowercase(lowercase(s)) =~= lowercase(s));
}

/// Texts are ordered by the first character in which they differ, and a text stands before
/// every longer one that it begins.
pub proof fn first_difference_decides(
    head: Seq<char>,
    c: char,
    d: char,
    x: Seq<char>,
    y: Seq<char>,
)
    ensures
        c != d ==> (sorts_before(head.push(c) + x, head.push(d) + y) <==> (c as int) < (d as int)),
        sorts_before(head, head.push(c) + x),
        !sorts_before(head.push(c) + x, head),
{
    let a = head.push(c) + x;
    let b = head.push(d) + y;
    let n = head.len() as int;
    assert(a[n] == c && b[n] == d);
    assert forall|i: int| 0 <= i < n implies a[i] == b[i] && a[i] == head[i] by {
    }
    assert(parts_after(head, a, n));
    texts_are_comparable(head, a);
    if c != d {
        assert(parts_after(a, b, n));
        assert(parts_after(b, a, n));
        texts_are_comparable(a, b);
        if (c as int) < (d as int) {
            assert(sorts_before(a, b));
        } else {
            assert(sorts_before(b, a));
        }
    }
}

/// Trimming takes blanks off both ends and nothing else, until no blank is left there.
pub proof fn trimming_takes_blanks_off(s: Seq<char>)
    ensures
        trimmed(s).len() > 0 ==> !blank(trimmed(s)[0]) && !blank(trimmed(s).last()),
        exists|from: int, to: int|
            0 <= from <= to <= s.len() && trimmed(s) == #[trigger] s.subrange(from, to) && (forall|
                i: int,
            |
                0 <= i < from ==> blank(#[trigger] s[i])) && forall|i: int|
                to <= i < s.len() ==> blank(#[trigger] s[i]),
{
    let from = front_blanks(s);
    let rest = s.skip(from);
    trim_front_skips(s, from);
    let to = back_blanks(rest);
    assert(trimmed(s) =~= s.subrange(from, from + to));
    assert forall|i: int| from + to <= i < s.len() implies blank(#[trigger] s[i]) by {
        assert(rest[i - from] == s[i]);
    }
}

proof fn front_blanks(s: Seq<char>) -> (n: int)
    ensures
        0 <= n <= s.len(),
        forall|k: int| 0 <= k < n ==> blank(#[trigger] s[k]),
        n < s.len() ==> !blank(s[n]),
    decreases s.len(),
{
    if s.len() > 0 && blank(s[0]) {
        let n = front_blanks(s.skip(1));
        assert forall|k: int| 0 <= k < n + 1 implies blank(#[trigger] s[k]) by {
            if k > 0 {
                assert(s.skip(1)[k - 1] == s[k]);
            }
        }
        n + 1
    } else {
        0
    }
}

proof fn back_blanks(s: Seq<char>) -> (n: int)
    ensures
        0 <= n <= s.len(),
        trim_back(s) == s.take(n),
        n > 0 ==> !blank(s[n - 1]),
        forall|k: int| n <= k < s.len() ==> blank(#[trigger] s[k]),
    decreases s.len(),
{
    if s.len() > 0 && blank(s.last()) {
        let n = back_blanks(s.drop_last());
        assert(s.drop_last().take(n) =~= s.take(n));
        assert forall|k: int| n <= k < s.len() implies blank(#[trigger] s[k]) by {
            if k < s.len() - 1 {
                assert(s.drop_last()[k] == s[k]);
            }
        }
        n
    } else {
        assert(s.take(s.len() as int) =~= s);
        s.len() as int
    }
}

/// Spaces, tabs and line ends are blank; letters, digits and marks are not.
pub proof fn blanks_are_blank(c: char)
    ensures
        c == ' ' || c == '\t' || c == '\n' || c == '\r' ==> blank(c),
        '!' <= c && c <= '~' ==> !blank(c),
{
}

/// The pieces of a text, put together again with the separator between them, are the text,
/// and none of them holds the separator.
pub proof fn pieces_make_up_the_text(s: Seq<char>, separator: char)
    ensures
        joined(pieces(s, separator), separator) == s,
        forall|k: int|
            0 <= k < pieces(s, separator).len() ==> !(#[trigger] pieces(s, separator)[k]).contains(
                separator,
            ),
    decreases s.len(),
{
    let list = pieces(s, separator);
    some_piece(s, separator);
    if s.len() > 0 {
        let before = pieces(s.drop_last(), separator);
        some_piece(s.drop_last(), separator);
        pieces_make_up_the_text(s.drop_last(), separator);
        assert(s =~= s.drop_last().push(s.last()));
        if s.last() == separator {
            assert(list.drop_last() =~= before);
            assert(joined(list, separator) =~= joined(before, separator).push(separator));
        } else {
            assert(list.drop_last() =~= before.drop_last());
            assert(list.last() == before.last().push(s.last()));
            assert forall|k: int| 0 <= k < list.len() implies !(#[trigger] list[k]).contains(
                separator,
            ) by {
                if k < list.len() - 1 {
                    assert(list[k] == before[k]);
                } else {
                    assert(!before[before.len() - 1].contains(separator));
                    let t = before.last();
                    assert forall|i: int| 0 <= i < list[k].len() implies list[k][i] != separator by {
                        if i < t.len() {
                            assert(t.contains(t[i]));
                        }
                    }
                }
            }
            assert(joined(list, separator) =~= joined(before, separator).push(s.last()));
        }
    }
}

pub open spec fn joined(list: Seq<Seq<char>>, separator: char) -> Seq<char>
    decreases list.len(),
{
    if list.len() == 0 {
        Seq::empty()
    } else if list.len() == 1 {
        list[0]
    } else {
        joined(list.drop_last(), separator).push(separator) + list.last()
    }
}

/// A text in upper case differs from the text in the case of its letters only.
pub proof fn upper_case_is_alike(s: Seq<char>)
    ensures
        alike(s, uppercase(s)),
        uppercase(uppercase(s)) == uppercase(s),
{
    assert(uppercase(uppercase(s)) =~= uppercase(s));
    alike_by_upper_case(s, uppercase(s));
}

/// Words are what stands between blanks: what comes before a blank is a word, and what comes
/// after it has words of its own.
pub proof fn words_stand_between_blanks(word: Seq<char>, gap: char, rest: Seq<char>)
    requires
        word.len() > 0,
        forall|k: int| 0 <= k < word.len() ==> !blank(#[trigger] word[k]),
        blank(gap),
    ensures
        words(word) == seq![word],
        words(word.push(gap) + rest) == seq![word] + words(rest),
        words(seq![gap] + rest) == words(rest),
        first_word(word.push(gap) + rest) == word,
{
    let n = word.len() as int;
    let s = word.push(gap) + rest;
    let blank_rest = seq![gap] + rest;
    assert(blank_rest.skip(1) =~= rest);
    assert(trim_front(blank_rest) == trim_front(rest));
    assert(words(blank_rest) == words(rest));
    assert(s[0] == word[0]);
    assert(trim_front(s) == s);
    up_to_blank_is(s, n);
    assert(s.take(n) =~= word);
    assert(s.skip(n) =~= blank_rest);
    assert(trim_front(word) == word);
    up_to_blank_is(word, n);
    assert(word.take(n) =~= word);
    assert(word.skip(n) =~= Seq::<char>::empty());
    assert(words(Seq::<char>::empty()) =~= Seq::<Seq<char>>::empty());
    assert(seq![word] + Seq::<Seq<char>>::empty() =~= seq![word]);
}

/// A text holds every part that it is put together from, wherever that stands, and it begins
/// and ends with what it was made to begin and end with.
pub proof fn text_holds_its_parts(before: Seq<char>, part: Seq<char>, after: Seq<char>)
    ensures
        holds_part(before + part + after, part),
        begins_with(part + after, part),
        closes_with(before + part, part),
{
    let whole = before + part + after;
    assert(whole.subrange(before.len() as int, (before.len() + part.len()) as int) =~= part);
    assert(stands_at(whole, part, before.len() as int));
    assert((part + after).subrange(0, part.len() as int) =~= part);
    let end = before + part;
    assert(end.subrange(end.len() - part.len(), end.len() - part.len() + part.len()) =~= part);
}

/// What a text holds as a part is cut out of it.
pub proof fn parts_are_cut_out(s: Seq<char>, part: Seq<char>)
    requires
        holds_part(s, part),
    ensures
        exists|before: Seq<char>, after: Seq<char>| s == #[trigger] (before + part + after),
{
    let at = choose|at: int| stands_at(s, part, at);
    let before = s.take(at);
    let after = s.skip(at + part.len());
    assert forall|i: int| at <= i < at + part.len() implies s[i] == part[i - at] by {
        assert(s.subrange(at, at + part.len())[i - at] == part[i - at]);
    }
    assert(s =~= before + part + after);
}

} // verus!
