//! Laws of searching, splitting, joining, trimming, letter case and numbers, over the characters
//! themselves.
use crate::chars::{
    decimal, digit_of, digits_value, int_text, is_digit, is_space, nat_text, parse_decimal, trim,
    trim_end, trim_start, trimmed, trimmed_end, trimmed_start, unsigned_part, write_int, CharClass,
};
use crate::codec::{ascii_lower, ascii_upper, lowercase, uppercase};
use crate::text::{
    find, first_match, join, joined, last_index, lemma_first_match, lemma_joined_pieces,
    lemma_pieces_hold_no_separator, matches_at, pieces, rfind, split, texts, views,
};
use vstd::prelude::*;
use vstd::utf8::is_ascii_chars;

verus! {

/// A pattern stands at a position where each of its elements does.
pub proof fn law_matches_element_by_element<T>(s: Seq<T>, pat: Seq<T>, i: int)
    ensures
        matches_at(s, pat, i) <==> 0 <= i && i + pat.len() <= s.len() && forall|k: int|
            0 <= k < pat.len() ==> s[i + k] == #[trigger] pat[k],
{
    if 0 <= i && i + pat.len() <= s.len() {
        let part = s.subrange(i, i + pat.len());
        assert forall|k: int| 0 <= k < pat.len() implies part[k] == s[i + k] by {}
        if forall|k: int| 0 <= k < pat.len() ==> s[i + k] == #[trigger] pat[k] {
            assert(part =~= pat);
        }
    }
}

/// The first position of an element: it stands there and nowhere before; there is none where the
/// sequence does not hold it.
pub proof fn law_first_position<T>(s: Seq<T>, x: T)
    ensures
        match first_match(s, seq![x]) {
            Some(i) => 0 <= i < s.len() && s[i] == x && forall|j: int| 0 <= j < i ==> s[j] != x,
            None => !s.contains(x),
        },
{
    let pat = seq![x];
    lemma_first_match(s, pat);
    assert forall|j: int| 0 <= j < s.len() implies matches_at(s, pat, j) == (s[j] == x) by {
        law_matches_element_by_element(s, pat, j);
        assert(pat[0] == x);
        if s[j] == x {
            assert forall|k: int| 0 <= k < pat.len() implies s[j + k] == #[trigger] pat[k] by {}
        }
    }
}

/// Each element of the pattern stands in the text, from position `i` on.
pub open spec fn stands_at(s: Seq<char>, pat: Seq<char>, i: int) -> bool {
    &&& i + pat.len() <= s.len()
    &&& forall|k: int| 0 <= k < pat.len() ==> s[i + k] == #[trigger] pat[k]
}

/// What `find` gives back for any pattern: the first position at which all of it stands.
pub proof fn law_find(s: &[char], pat: &[char], r: Option<usize>)
    requires
        call_ensures(find::<char>, (s, pat), r),
    ensures
        match r {
            Some(i) => stands_at(s@, pat@, i as int) && forall|j: int|
                0 <= j < i ==> !#[trigger] stands_at(s@, pat@, j),
            None => forall|j: int| 0 <= j ==> !#[trigger] stands_at(s@, pat@, j),
        },
{
    lemma_first_match(s@, pat@);
    assert forall|j: int| 0 <= j implies #[trigger] stands_at(s@, pat@, j) == matches_at(
        s@,
        pat@,
        j,
    ) by {
        law_matches_element_by_element(s@, pat@, j);
    }
    if r is Some {
        assert(stands_at(s@, pat@, r->0 as int));
    }
}

/// The last position of an element: it stands there and nowhere after; there is none where the
/// sequence does not hold it.
pub proof fn law_last_position<T>(s: Seq<T>, x: T)
    ensures
        match last_index(s, x) {
            Some(i) => 0 <= i < s.len() && s[i] == x && forall|j: int|
                i < j < s.len() ==> s[j] != x,
            None => !s.contains(x),
        },
    decreases s.len(),
{
    if s.len() > 0 && s.last() != x {
        let init = s.drop_last();
        law_last_position(init, x);
        assert forall|j: int| 0 <= j < init.len() implies init[j] == s[j] by {}
        if last_index(s, x) is Some {
            let i = last_index(s, x)->0;
            assert forall|j: int| i < j < s.len() implies s[j] != x by {
                if j < init.len() {
                    assert(init[j] == s[j]);
                }
            }
        } else if s.contains(x) {
            let j = choose|j: int| 0 <= j < s.len() && s[j] == x;
            assert(init[j] == x);
        }
    }
}

/// Joined parts are the first part and, for each other, the separator and the part.
pub proof fn law_joined<T>(parts: Seq<Seq<T>>, sep: Seq<T>)
    requires
        parts.len() > 0,
    ensures
        joined(parts, sep) == parts[0] + parts.skip(1).map_values(|p: Seq<T>| sep + p).flatten(),
    decreases parts.len(),
{
    let more = parts.skip(1);
    let tail = more.map_values(|p: Seq<T>| sep + p);
    if parts.len() == 1 {
        assert(tail.len() == 0);
        assert(tail.flatten() =~= Seq::empty());
        assert(joined(parts, sep) =~= parts[0] + tail.flatten());
    } else {
        law_joined(more, sep);
        let rest = more.skip(1).map_values(|p: Seq<T>| sep + p);
        assert(tail.drop_first() =~= rest);
        assert(tail.flatten() =~= sep + more[0] + rest.flatten());
        assert(joined(parts, sep) =~= parts[0] + tail.flatten());
    }
}

/// One part more is joined behind a separator.
pub proof fn law_joined_goes_on<T>(parts: Seq<Seq<T>>, last: Seq<T>, sep: Seq<T>)
    ensures
        joined(parts.push(last), sep) == if parts.len() == 0 {
            last
        } else {
            joined(parts, sep) + sep + last
        },
    decreases parts.len(),
{
    let all = parts.push(last);
    if parts.len() > 1 {
        law_joined_goes_on(parts.skip(1), last, sep);
        assert(all.skip(1) =~= parts.skip(1).push(last));
        assert(joined(all, sep) =~= joined(parts, sep) + sep + last);
    } else if parts.len() == 1 {
        assert(all.skip(1) =~= seq![last]);
        assert(joined(seq![last], sep) == last);
        assert(joined(all, sep) =~= joined(parts, sep) + sep + last);
    }
}

/// Splitting at an element loses nothing, and leaves the element in no piece.
pub proof fn law_split_at_an_element<T>(s: Seq<T>, x: T)
    ensures
        joined(pieces(s, seq![x]), seq![x]) == s,
        forall|i: int|
            0 <= i < pieces(s, seq![x]).len() ==> !(#[trigger] pieces(s, seq![x])[i]).contains(x),
{
    lemma_joined_pieces(s, seq![x]);
    lemma_pieces_hold_no_separator(s, x);
}

/// A list of strings holds the text of each of them, in order.
pub proof fn law_texts_are_in_order(v: Seq<String>)
    ensures
        texts(v).len() == v.len(),
        forall|i: int| 0 <= i < v.len() ==> #[trigger] texts(v)[i] == v[i]@,
{
}

/// A list of vectors holds the elements of each of them, in order.
pub proof fn law_views_are_in_order<T>(v: Seq<Vec<T>>)
    ensures
        views(v).len() == v.len(),
        forall|i: int| 0 <= i < v.len() ==> #[trigger] views(v)[i] == v[i]@,
{
}

/// What each class holds.
pub proof fn law_classes(c: char)
    ensures
        CharClass::Quote.has(c) <==> seq!['"'].contains(c),
        CharClass::Angle.has(c) <==> seq!['<', '>'].contains(c),
        CharClass::LineBreak.has(c) <==> seq!['\r', '\n'].contains(c),
        CharClass::Slash.has(c) <==> seq!['/'].contains(c),
{
    assert(seq!['"'][0] == '"');
    assert(seq!['<', '>'][0] == '<' && seq!['<', '>'][1] == '>');
    assert(seq!['\r', '\n'][0] == '\r' && seq!['\r', '\n'][1] == '\n');
    assert(seq!['/'][0] == '/');
}

/// The white space of Unicode.
pub open spec fn white_space() -> Seq<char> {
    seq![
        '\u{9}',
        '\u{a}',
        '\u{b}',
        '\u{c}',
        '\u{d}',
        '\u{20}',
        '\u{85}',
        '\u{a0}',
        '\u{1680}',
        '\u{2000}',
        '\u{2001}',
        '\u{2002}',
        '\u{2003}',
        '\u{2004}',
        '\u{2005}',
        '\u{2006}',
        '\u{2007}',
        '\u{2008}',
        '\u{2009}',
        '\u{200a}',
        '\u{2028}',
        '\u{2029}',
        '\u{202f}',
        '\u{205f}',
        '\u{3000}',
    ]
}

/// White space is what Unicode says, character by character.
pub proof fn law_white_space(c: char)
    ensures
        CharClass::Whitespace.has(c) <==> white_space().contains(c),
        is_space(c) <==> white_space().contains(c),
{
    let all = white_space();
    assert(all.len() == 25);
    if all.contains(c) {
        let i = choose|i: int| 0 <= i < all.len() && all[i] == c;
        assert(is_space(all[i]));
    }
    if is_space(c) {
        assert(all[0] == c || all[1] == c || all[2] == c || all[3] == c || all[4] == c || all[5]
            == c || all[6] == c || all[7] == c || all[8] == c || all[9] == c || all[10] == c
            || all[11] == c || all[12] == c || all[13] == c || all[14] == c || all[15] == c
            || all[16] == c || all[17] == c || all[18] == c || all[19] == c || all[20] == c
            || all[21] == c || all[22] == c || all[23] == c || all[24] == c);
    }
}

/// Trimming at the start takes away a beginning of characters of the class, and all of it.
pub proof fn law_trimmed_start(s: Seq<char>, class: CharClass) -> (n: int)
    ensures
        0 <= n <= s.len(),
        trimmed_start(s, class) == s.skip(n),
        forall|i: int| 0 <= i < n ==> class.has(#[trigger] s[i]),
        n < s.len() ==> !class.has(s[n]),
    decreases s.len(),
{
    if s.len() > 0 && class.has(s[0]) {
        let k = law_trimmed_start(s.skip(1), class);
        assert(s.skip(1).skip(k) =~= s.skip(k + 1));
        assert forall|i: int| 0 <= i < k + 1 implies class.has(#[trigger] s[i]) by {
            if i > 0 {
                assert(s.skip(1)[i - 1] == s[i]);
            }
        }
        k + 1
    } else {
        assert(s.skip(0) =~= s);
        0
    }
}

/// Trimming at the end takes away an end of characters of the class, and all of it.
pub proof fn law_trimmed_end(s: Seq<char>, class: CharClass) -> (n: int)
    ensures
        0 <= n <= s.len(),
        trimmed_end(s, class) == s.take(n),
        forall|i: int| n <= i < s.len() ==> class.has(#[trigger] s[i]),
        n > 0 ==> !class.has(s[n - 1]),
    decreases s.len(),
{
    if s.len() > 0 && class.has(s.last()) {
        let k = law_trimmed_end(s.drop_last(), class);
        assert(s.drop_last().take(k) =~= s.take(k));
        assert forall|i: int| k <= i < s.len() implies class.has(#[trigger] s[i]) by {
            if i < s.len() - 1 {
                assert(s.drop_last()[i] == s[i]);
            }
        }
        k
    } else {
        assert(s.take(s.len() as int) =~= s);
        s.len() as int
    }
}

/// Trimming takes away characters of the class around a text, and all of them: what is left
/// neither begins nor ends with one, and everything that is gone is one.
pub proof fn law_trimmed(s: Seq<char>, class: CharClass) -> (at: (int, int))
    ensures
        0 <= at.0 <= at.1 <= s.len(),
        trimmed(s, class) == s.subrange(at.0, at.1),
        forall|i: int| 0 <= i < at.0 ==> class.has(#[trigger] s[i]),
        forall|i: int| at.1 <= i < s.len() ==> class.has(#[trigger] s[i]),
        at.0 < at.1 ==> !class.has(s[at.0]) && !class.has(s[at.1 - 1]),
{
    let n = law_trimmed_start(s, class);
    let rest = s.skip(n);
    let k = law_trimmed_end(rest, class);
    assert(rest.take(k) =~= s.subrange(n, n + k));
    assert forall|i: int| n + k <= i < s.len() implies class.has(#[trigger] s[i]) by {
        assert(rest[i - n] == s[i]);
    }
    (n, n + k)
}

/// What the trimming functions give back: a part of the text, without any character of the class
/// at the ends that they trim, and with nothing else gone.
pub proof fn law_trim(s: &[char], class: CharClass, r: Vec<char>)
    ensures
        call_ensures(trim, (s, class), r) ==> exists|i: int, j: int|
            0 <= i <= j <= s@.len() && r@ == #[trigger] s@.subrange(i, j) && (i < j ==> !class.has(
                s@[i],
            ) && !class.has(s@[j - 1])) && forall|k: int|
                (0 <= k < i || j <= k < s@.len()) ==> class.has(#[trigger] s@[k]),
        call_ensures(trim_start, (s, class), r) ==> exists|i: int|
            0 <= i <= s@.len() && r@ == #[trigger] s@.skip(i) && (i < s@.len() ==> !class.has(
                s@[i],
            )) && forall|k: int| 0 <= k < i ==> class.has(#[trigger] s@[k]),
        call_ensures(trim_end, (s, class), r) ==> exists|j: int|
            0 <= j <= s@.len() && r@ == #[trigger] s@.take(j) && (j > 0 ==> !class.has(
                s@[j - 1],
            )) && forall|k: int| j <= k < s@.len() ==> class.has(#[trigger] s@[k]),
{
    let at = law_trimmed(s@, class);
    let n = law_trimmed_start(s@, class);
    let k = law_trimmed_end(s@, class);
    assert(s@.subrange(at.0, at.1) == trimmed(s@, class));
    assert(s@.skip(n) == trimmed_start(s@, class));
    assert(s@.take(k) == trimmed_end(s@, class));
}

/// The letters of ASCII change their case by the same distance, and nothing else changes.
pub proof fn law_letter_case(c: char)
    ensures
        97 <= c as u32 <= 122 ==> ascii_upper(c) as u32 + 32 == c as u32,
        !(97 <= c as u32 <= 122) ==> ascii_upper(c) == c,
        65 <= c as u32 <= 90 ==> ascii_lower(c) as u32 == c as u32 + 32,
        !(65 <= c as u32 <= 90) ==> ascii_lower(c) == c,
{
    if 97 <= c as u32 <= 122 {
        let n = (c as u32 - 32) as u32;
        assert(65 <= n <= 90);
    }
    if 65 <= c as u32 <= 90 {
        let n = (c as u32 + 32) as u32;
        assert(97 <= n <= 122);
    }
}

/// ASCII texts change their letter case character by character.
pub proof fn law_ascii_texts_change_case(s: Seq<char>)
    requires
        is_ascii_chars(s),
    ensures
        uppercase(s).len() == s.len() && lowercase(s).len() == s.len(),
        forall|i: int|
            0 <= i < s.len() ==> #[trigger] uppercase(s)[i] == ascii_upper(s[i]) && lowercase(s)[i]
                == ascii_lower(s[i]),
{
}

/// The weight of the digit at position `i` from the right.
pub open spec fn power(i: nat) -> nat
    decreases i,
{
    if i == 0 {
        1
    } else {
        10 * power((i - 1) as nat)
    }
}

/// One digit more counts ten times what stands before it, and itself.
proof fn lemma_digit_more(s: Seq<char>, c: char)
    requires
        is_digit(c),
    ensures
        digits_value(s.push(c)) == digits_value(s) * 10 + (c as u32 - 48),
{
    assert(s.push(c).drop_last() =~= s);
}

/// The value of digits: a digit before others counts by its place.
pub proof fn law_digits_count_by_place(c: char, s: Seq<char>)
    requires
        is_digit(c),
        forall|i: int| 0 <= i < s.len() ==> is_digit(#[trigger] s[i]),
    ensures
        digits_value(seq![c] + s) == (c as u32 - 48) * power(s.len()) + digits_value(s),
    decreases s.len(),
{
    if s.len() == 0 {
        assert(seq![c] + s =~= Seq::<char>::empty().push(c));
        lemma_digit_more(Seq::empty(), c);
        assert(digits_value(Seq::<char>::empty()) == 0);
        assert(digits_value(s) == 0);
        assert((c as u32 - 48) * 1 == c as u32 - 48);
    } else {
        let init = s.drop_last();
        let last = s.last();
        assert(is_digit(s[s.len() - 1]));
        assert forall|i: int| 0 <= i < init.len() implies is_digit(#[trigger] init[i]) by {
            assert(init[i] == s[i]);
        }
        law_digits_count_by_place(c, init);
        assert(seq![c] + s =~= (seq![c] + init).push(last));
        assert(s =~= init.push(last));
        lemma_digit_more(seq![c] + init, last);
        lemma_digit_more(init, last);
        let d = c as u32 - 48;
        let p = power(init.len());
        assert(power(s.len()) == 10 * p);
        assert((d * p + digits_value(init)) * 10 == d * (10 * p) + digits_value(init) * 10)
            by (nonlinear_arith);
    }
}

/// Every character is an ASCII digit, and there is one.
pub open spec fn are_digits(s: Seq<char>) -> bool {
    s.len() > 0 && forall|i: int| 0 <= i < s.len() ==> '0' <= #[trigger] s[i] <= '9'
}

/// Writing a number and reading the digits gives the number back.
pub proof fn lemma_number_reads_back(n: nat)
    ensures
        digits_value(nat_text(n)) == n,
        nat_text(n).len() > 0,
        forall|i: int| 0 <= i < nat_text(n).len() ==> is_digit(#[trigger] nat_text(n)[i]),
        n >= 10 ==> nat_text(n)[0] != '0',
        n < 10 ==> nat_text(n).len() == 1,
        n > 0 ==> nat_text(n)[0] != '0',
    decreases n,
{
    let d = n as int % 10;
    let c = digit_of(d);
    assert(0 <= d < 10);
    assert(48 <= 48 + d <= 57);
    assert(c as u32 == 48 + d);
    assert(is_digit(c));
    if n < 10 {
        assert(nat_text(n) =~= Seq::<char>::empty().push(c));
        lemma_digit_more(Seq::empty(), c);
        assert(digits_value(Seq::<char>::empty()) == 0);
        assert(d == n);
    } else {
        lemma_number_reads_back(n / 10);
        lemma_digit_more(nat_text(n / 10), c);
        assert(n == n / 10 * 10 + d);
        let all = nat_text(n);
        let init = nat_text(n / 10);
        assert forall|i: int| 0 <= i < all.len() implies is_digit(#[trigger] all[i]) by {
            if i < init.len() {
                assert(all[i] == init[i]);
            }
        }
        assert(all[0] == init[0]);
    }
}

/// A number that is written reads back as itself, whatever bound it keeps, and it is written
/// without leading zeros. A negative number is written as its opposite with a minus sign.
pub proof fn law_numbers_read_back(n: int, max: nat)
    ensures
        0 <= n <= max ==> decimal(int_text(n), max) == Some(n as nat),
        n > max ==> decimal(int_text(n), max) is None,
        n > 0 ==> int_text(n)[0] != '0',
        n < 0 ==> int_text(n) == seq!['-'] + int_text(-n),
{
    if n >= 0 {
        lemma_number_reads_back(n as nat);
        let s = int_text(n);
        assert(is_digit(s[0]));
        assert(unsigned_part(s) == s);
    }
}

/// Which texts are numbers: digits, at least one, with or without a plus sign before them, of a
/// value up to the bound. Leading zeros and the plus sign change nothing.
pub proof fn law_decimal(s: Seq<char>, max: nat)
    ensures
        decimal(s, max) is Some ==> decimal(s, max)->0 <= max,
        s.len() > 0 && (forall|i: int| 0 <= i < s.len() ==> '0' <= #[trigger] s[i] <= '9') ==> {
            &&& decimal(seq!['+'] + s, max) == decimal(s, max)
            &&& decimal(seq!['0'] + s, max) == decimal(s, max)
        },
        s.len() > 0 && !('0' <= s.last() <= '9') ==> decimal(s, max) is None,
        (exists|i: int|
            0 < i < s.len() && !('0' <= #[trigger] s[i] <= '9')) ==> decimal(s, max) is None,
        s.len() == 0 || s == seq!['+'] ==> decimal(s, max) is None,
{
    let digits = unsigned_part(s);
    if s.len() > 0 && (forall|i: int| 0 <= i < s.len() ==> '0' <= #[trigger] s[i] <= '9') {
        assert(is_digit(s[0])) by {
            assert('0' <= s[0] <= '9');
        }
        let plus = seq!['+'] + s;
        assert(plus.skip(1) =~= s);
        assert(unsigned_part(plus) =~= s);
        assert(unsigned_part(s) == s);
        let zero = seq!['0'] + s;
        assert(unsigned_part(zero) == zero);
        law_digits_count_by_place('0', s);
        assert(('0' as u32 - 48) * power(s.len()) == 0) by (nonlinear_arith);
        assert forall|i: int| 0 <= i < zero.len() implies is_digit(#[trigger] zero[i]) by {
            if i > 0 {
                assert(zero[i] == s[i - 1]);
            }
        }
        assert forall|i: int| 0 <= i < s.len() implies is_digit(#[trigger] s[i]) by {}
    }
    if s.len() > 0 && !('0' <= s.last() <= '9') && digits.len() > 0 {
        assert(digits[digits.len() - 1] == s.last());
        assert(!is_digit(digits[digits.len() - 1]));
    }
    if exists|i: int| 0 < i < s.len() && !('0' <= #[trigger] s[i] <= '9') {
        let i = choose|i: int| 0 < i < s.len() && !('0' <= #[trigger] s[i] <= '9');
        if s[0] == '+' {
            assert(digits[i - 1] == s[i]);
            assert(!is_digit(digits[i - 1]));
        } else {
            assert(!is_digit(digits[i]));
        }
    }
}

/// What the functions for numbers give back.
pub proof fn law_number_functions(s: &str, max: u64, n: i64, parsed: Option<u64>, out: String)
    ensures
        call_ensures(parse_decimal, (s, max), parsed) && n >= 0 && s@ == int_text(n as int) ==> (
        parsed == if n <= max {
            Some(n as u64)
        } else {
            None
        }),
        call_ensures(write_int, (n,), out) && n >= 0 ==> digits_value(out@) == n,
        call_ensures(write_int, (n,), out) && n < 0 ==> out@.len() > 1 && out@[0] == '-'
            && digits_value(out@.skip(1)) == -n,
{
    law_numbers_read_back(n as int, max as nat);
    if n < 0 {
        lemma_number_reads_back((-n) as nat);
        let t = int_text(n as int);
        assert(t.skip(1) =~= nat_text((-n) as nat));
    } else {
        lemma_number_reads_back(n as nat);
    }
}

/// What the functions for splitting, joining and searching backwards give back.
pub proof fn law_text_functions(
    s: &[char],
    x: char,
    sep: &[char],
    parts: &Vec<Vec<char>>,
    position: Option<usize>,
    split_parts: Vec<Vec<char>>,
    all: Vec<char>,
)
    ensures
        call_ensures(rfind::<char>, (s, x), position) ==> match position {
            Some(i) => i < s@.len() && s@[i as int] == x && forall|j: int|
                i < j < s@.len() ==> s@[j] != x,
            None => !s@.contains(x),
        },
        call_ensures(split::<char>, (s, sep), split_parts) ==> joined(
            split_parts@.map_values(|p: Vec<char>| p@),
            sep@,
        ) == s@,
        call_ensures(join::<char>, (parts, sep), all) && parts@.len() > 0 ==> all@ == parts@[0]@
            + parts@.skip(1).map_values(|p: Vec<char>| sep@ + p@).flatten(),
{
    law_last_position(s@, x);
    lemma_joined_pieces(s@, sep@);
    assert(views(split_parts@) =~= split_parts@.map_values(|p: Vec<char>| p@));
    if parts@.len() > 0 {
        law_joined(views(parts@), sep@);
        assert(views(parts@).skip(1).map_values(|p: Seq<char>| sep@ + p) =~= parts@.skip(
            1,
        ).map_values(|p: Vec<char>| sep@ + p@));
    }
}

} // verus!
