//! Characters and strings: classes, trimming, letter case and decimal numbers.
use crate::text::{copy_range, same_slice};
use vstd::prelude::*;

verus! {

/// `String::push` appends one character to a string.
pub assume_specification[ String::push ](s: &mut String, c: char)
    ensures
        final(s)@ == old(s)@.push(c),
;

/// A set of characters that is trimmed off a text.
#[derive(Clone, Copy)]
pub enum CharClass {
    /// The characters with the Unicode property `White_Space`.
    Whitespace,
    /// The double quote.
    Quote,
    /// The angle brackets.
    Angle,
    /// Carriage return and line feed.
    LineBreak,
    /// The slash.
    Slash,
}

/// The characters with the Unicode property `White_Space`.
pub open spec fn is_space(c: char) -> bool {
    let n = c as u32;
    ||| 0x9 <= n <= 0xd
    ||| n == 0x20
    ||| n == 0x85
    ||| n == 0xa0
    ||| n == 0x1680
    ||| 0x2000 <= n <= 0x200a
    ||| n == 0x2028
    ||| n == 0x2029
    ||| n == 0x202f
    ||| n == 0x205f
    ||| n == 0x3000
}

impl CharClass {
    /// The characters of the class.
    pub open spec fn has(self, c: char) -> bool {
        match self {
            CharClass::Whitespace => is_space(c),
            CharClass::Quote => c == '"',
            CharClass::Angle => c == '<' || c == '>',
            CharClass::LineBreak => c == '\r' || c == '\n',
            CharClass::Slash => c == '/',
        }
    }

    /// Whether the class holds `c`.
    pub fn contains(self, c: char) -> (r: bool)
        ensures
            r == self.has(c),
    {
        match self {
            CharClass::Whitespace => {
                let n: u32 = c as u32;
                (0x9 <= n && n <= 0xd) || n == 0x20 || n == 0x85 || n == 0xa0 || n == 0x1680 || (
                0x2000 <= n && n <= 0x200a) || n == 0x2028 || n == 0x2029 || n == 0x202f || n
                    == 0x205f || n == 0x3000
            },
            CharClass::Quote => c == '"',
            CharClass::Angle => c == '<' || c == '>',
            CharClass::LineBreak => c == '\r' || c == '\n',
            CharClass::Slash => c == '/',
        }
    }
}

/// `s` without the characters of the class that it begins with.
pub open spec fn trimmed_start(s: Seq<char>, class: CharClass) -> Seq<char>
    decreases s.len(),
{
    if s.len() > 0 && class.has(s[0]) {
        trimmed_start(s.skip(1), class)
    } else {
        s
    }
}

/// `s` without the characters of the class that it ends with.
pub open spec fn trimmed_end(s: Seq<char>, class: CharClass) -> Seq<char>
    decreases s.len(),
{
    if s.len() > 0 && class.has(s.last()) {
        trimmed_end(s.drop_last(), class)
    } else {
        s
    }
}

/// `s` without the characters of the class that it begins or ends with.
pub open spec fn trimmed(s: Seq<char>, class: CharClass) -> Seq<char> {
    trimmed_end(trimmed_start(s, class), class)
}

/// A text that holds no character of the class stays as it is.
pub proof fn lemma_nothing_to_trim(s: Seq<char>, class: CharClass)
    requires
        forall|i: int| 0 <= i < s.len() ==> !class.has(#[trigger] s[i]),
    ensures
        trimmed(s, class) == s,
        trimmed_start(s, class) == s,
        trimmed_end(s, class) == s,
{
    if s.len() > 0 {
        assert(!class.has(s[0]));
        assert(!class.has(s[s.len() - 1]));
    }
}

/// The text of a string, if there is one.
pub open spec fn optional_text(s: Option<String>) -> Option<Seq<char>> {
    match s {
        Some(t) => Some(t@),
        None => None,
    }
}

/// The characters of a string.
pub fn chars_of(s: &str) -> (r: Vec<char>)
    ensures
        r@ == s@,
{
    let mut r: Vec<char> = Vec::new();
    for c in it: s.chars()
        invariant
            r@ == it.seq().take(it.index() as int),
            it.seq() == s@,
    {
        r.push(c);
        assert(r@ =~= it.seq().take(it.index() + 1));
    }
    assert(s@.take(s@.len() as int) =~= s@);
    r
}

/// The string that holds the characters.
pub fn text_of(s: &[char]) -> (r: String)
    ensures
        r@ == s@,
{
    let mut r: String = String::new();
    let mut i: usize = 0;
    while i < s.len()
        invariant
            i <= s.len(),
            r@ == s@.take(i as int),
        decreases s.len() - i,
    {
        r.push(s[i]);
        assert(r@ =~= s@.take(i + 1));
        i += 1;
    }
    assert(s@.take(i as int) =~= s@);
    r
}

/// Whether two strings are equal.
pub fn same_text(a: &str, b: &str) -> (r: bool)
    ensures
        r == (a@ == b@),
{
    same_slice(chars_of(a).as_slice(), chars_of(b).as_slice())
}

/// `s` without the characters of the class that it begins with.
pub fn trim_start(s: &[char], class: CharClass) -> (r: Vec<char>)
    ensures
        r@ == trimmed_start(s@, class),
{
    let mut i: usize = 0;
    assert(s@.skip(0) =~= s@);
    while i < s.len() && class.contains(s[i])
        invariant
            i <= s.len(),
            trimmed_start(s@, class) == trimmed_start(s@.skip(i as int), class),
        decreases s.len() - i,
    {
        assert(s@.skip(i as int).skip(1) =~= s@.skip(i + 1));
        i += 1;
    }
    assert(s@.skip(i as int) =~= s@.subrange(i as int, s@.len() as int));
    copy_range(s, i, s.len())
}

/// `s` without the characters of the class that it ends with.
pub fn trim_end(s: &[char], class: CharClass) -> (r: Vec<char>)
    ensures
        r@ == trimmed_end(s@, class),
{
    let mut n: usize = s.len();
    assert(s@.take(n as int) =~= s@);
    while n > 0 && class.contains(s[n - 1])
        invariant
            n <= s.len(),
            trimmed_end(s@, class) == trimmed_end(s@.take(n as int), class),
        decreases n,
    {
        assert(s@.take(n as int).drop_last() =~= s@.take(n - 1));
        n -= 1;
    }
    assert(s@.take(n as int) =~= s@.subrange(0, n as int));
    copy_range(s, 0, n)
}

/// `s` without the characters of the class that it begins or ends with.
pub fn trim(s: &[char], class: CharClass) -> (r: Vec<char>)
    ensures
        r@ == trimmed(s@, class),
{
    let t = trim_start(s, class);
    trim_end(t.as_slice(), class)
}

/// The character is an ASCII digit.
pub open spec fn is_digit(c: char) -> bool {
    '0' <= c <= '9'
}

/// The value of the decimal digits.
pub open spec fn digits_value(s: Seq<char>) -> nat
    decreases s.len(),
{
    if s.len() == 0 {
        0
    } else {
        (digits_value(s.drop_last()) * 10 + (s.last() as u32 - '0' as u32)) as nat
    }
}

/// The text without the plus sign that it begins with, if it does.
pub open spec fn unsigned_part(s: Seq<char>) -> Seq<char> {
    if s.len() > 0 && s[0] == '+' {
        s.skip(1)
    } else {
        s
    }
}

/// The number that a text of decimal digits stands for, with or without a plus sign before them;
/// `None` where the text is no such number or the number is above `max`.
pub open spec fn decimal(s: Seq<char>, max: nat) -> Option<nat> {
    let digits = unsigned_part(s);
    if digits.len() > 0 && (forall|i: int| 0 <= i < digits.len() ==> is_digit(#[trigger] digits[i]))
        && digits_value(digits) <= max {
        Some(digits_value(digits))
    } else {
        None
    }
}

/// A text of digits stands for no less than what its beginning stands for.
proof fn lemma_digits_grow(s: Seq<char>, k: int)
    requires
        0 <= k <= s.len(),
        forall|i: int| 0 <= i < s.len() ==> is_digit(#[trigger] s[i]),
    ensures
        digits_value(s.take(k)) <= digits_value(s),
    decreases s.len() - k,
{
    if k < s.len() {
        assert(s.take(k + 1).drop_last() =~= s.take(k));
        assert(is_digit(s[k]));
        lemma_digits_grow(s, k + 1);
    } else {
        assert(s.take(k) =~= s);
    }
}

/// The number that a text of decimal digits stands for, if it is at most `max`.
pub fn parse_decimal(s: &str, max: u64) -> (r: Option<u64>)
    ensures
        match r {
            Some(n) => decimal(s@, max as nat) == Some(n as nat) && n <= max,
            None => decimal(s@, max as nat) is None,
        },
{
    let all = chars_of(s);
    let from: usize = if all.len() > 0 && all[0] == '+' {
        1
    } else {
        0
    };
    let digits = copy_range(all.as_slice(), from, all.len());
    assert(digits@ =~= unsigned_part(s@));
    if digits.len() == 0 {
        return None;
    }
    let mut i: usize = 0;
    while i < digits.len()
        invariant
            i <= digits.len(),
            digits@ == unsigned_part(s@),
            forall|j: int| 0 <= j < i ==> is_digit(#[trigger] digits@[j]),
        decreases digits.len() - i,
    {
        let c: char = digits[i];
        if c < '0' || c > '9' {
            assert(!is_digit(digits@[i as int]));
            return None;
        }
        i += 1;
    }
    let mut value: u64 = 0;
    let mut k: usize = 0;
    while k < digits.len()
        invariant
            k <= digits.len(),
            forall|j: int| 0 <= j < digits@.len() ==> is_digit(#[trigger] digits@[j]),
            value == digits_value(digits@.take(k as int)),
            value <= max,
            digits@ == unsigned_part(s@),
        decreases digits.len() - k,
    {
        let c: char = digits[k];
        assert(is_digit(digits@[k as int]));
        let d: u64 = (c as u32 - '0' as u32) as u64;
        assert(digits@.take(k + 1).drop_last() =~= digits@.take(k as int));
        let next: u128 = value as u128 * 10 + d as u128;
        if next > max as u128 {
            proof {
                lemma_digits_grow(digits@, k + 1);
            }
            return None;
        }
        value = next as u64;
        k += 1;
    }
    assert(digits@.take(k as int) =~= digits@);
    Some(value)
}

/// The ASCII digit of a number from zero to nine.
pub open spec fn digit_of(d: int) -> char {
    (('0' as u32 + d) as u32) as char
}

/// A natural number in decimal.
pub open spec fn nat_text(n: nat) -> Seq<char>
    decreases n,
{
    if n < 10 {
        seq![digit_of(n as int)]
    } else {
        nat_text(n / 10).push(digit_of(n as int % 10))
    }
}

/// A whole number in decimal, with a minus sign before it where it is negative.
pub open spec fn int_text(n: int) -> Seq<char> {
    if n < 0 {
        seq!['-'] + nat_text((-n) as nat)
    } else {
        nat_text(n as nat)
    }
}

/// A natural number in decimal.
fn write_nat(n: u64) -> (r: Vec<char>)
    ensures
        r@ == nat_text(n as nat),
    decreases n,
{
    let d: u8 = (n % 10) as u8;
    let code: u8 = 48 + d;
    let c: char = code as char;
    assert(c == digit_of(n as int % 10));
    if n < 10 {
        let mut r: Vec<char> = Vec::new();
        r.push(c);
        assert(r@ =~= nat_text(n as nat));
        r
    } else {
        let mut r: Vec<char> = write_nat(n / 10);
        r.push(c);
        r
    }
}

/// A whole number in decimal.
pub fn write_int(n: i64) -> (r: String)
    ensures
        r@ == int_text(n as int),
{
    if n < 0 {
        let magnitude: u64 = (-(n as i128)) as u64;
        let digits = write_nat(magnitude);
        let mut r: String = String::new();
        r.push('-');
        r.append(text_of(digits.as_slice()).as_str());
        assert(r@ =~= int_text(n as int));
        r
    } else {
        text_of(write_nat(n as u64).as_slice())
    }
}

} // verus!
