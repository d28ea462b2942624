//! Quoted strings and comments in address headers, and the entries that commas separate.
//!
//! A quoted string stands between double quotes, a comment between parentheses. A backslash takes
//! the meaning from the character after it. A quote or parenthesis that is not closed encloses
//! nothing.
use crate::text::{copy_range, views};
use vstd::prelude::*;

verus! {

/// How many characters a quoted text spends on its first one.
pub open spec fn pair_len(s: Seq<char>) -> int {
    if s[0] == '\\' && s.len() > 1 {
        2
    } else {
        1
    }
}

/// The position of the first `mark` that no backslash stands before.
pub open spec fn closing(s: Seq<char>, mark: char) -> Option<int>
    decreases s.len(),
{
    if s.len() == 0 {
        None
    } else if s[0] == mark {
        Some(0)
    } else {
        match closing(s.skip(pair_len(s)), mark) {
            Some(i) => Some(i + pair_len(s)),
            None => None,
        }
    }
}

/// The length of the quoted string or comment that the text begins with.
pub open spec fn enclosed_len(s: Seq<char>) -> Option<int> {
    if s.len() > 0 && (s[0] == '"' || s[0] == '(') {
        match closing(s.skip(1), if s[0] == '"' { '"' } else { ')' }) {
            Some(i) => Some(i + 2),
            None => None,
        }
    } else {
        None
    }
}

/// The length of what the text begins with: a quoted string, a comment or a single character.
pub open spec fn token_len(s: Seq<char>) -> int {
    match enclosed_len(s) {
        Some(n) => n,
        None => 1,
    }
}

/// The first position of `x` outside quoted strings and comments.
pub open spec fn outside(s: Seq<char>, x: char) -> Option<int>
    decreases s.len(),
{
    if s.len() == 0 {
        None
    } else if s[0] == x {
        Some(0)
    } else if 0 < token_len(s) <= s.len() {
        match outside(s.skip(token_len(s)), x) {
            Some(i) => Some(i + token_len(s)),
            None => None,
        }
    } else {
        None
    }
}

/// The entries of a list: what stands between the commas outside quoted strings and comments.
pub open spec fn entries(s: Seq<char>) -> Seq<Seq<char>>
    decreases s.len(),
{
    match outside(s, ',') {
        Some(i) => if 0 <= i < s.len() {
            seq![s.take(i)] + entries(s.skip(i + 1))
        } else {
            seq![s]
        },
        None => seq![s],
    }
}

/// The text is one quoted string.
pub open spec fn is_quoted_string(s: Seq<char>) -> bool {
    s.len() > 0 && s[0] == '"' && enclosed_len(s) == Some(s.len() as int)
}

/// The text without the backslashes that take the meaning from a character.
pub open spec fn unescaped(s: Seq<char>) -> Seq<char>
    decreases s.len(),
{
    if s.len() == 0 {
        Seq::empty()
    } else {
        seq![s[pair_len(s) - 1]] + unescaped(s.skip(pair_len(s)))
    }
}

/// The text with a backslash before each backslash and each double quote.
pub open spec fn escaped(s: Seq<char>) -> Seq<char>
    decreases s.len(),
{
    if s.len() == 0 {
        Seq::empty()
    } else if s[0] == '\\' || s[0] == '"' {
        seq!['\\', s[0]] + escaped(s.skip(1))
    } else {
        seq![s[0]] + escaped(s.skip(1))
    }
}

/// The closing mark stands in the text.
pub proof fn lemma_closing(s: Seq<char>, mark: char)
    ensures
        closing(s, mark) matches Some(i) ==> 0 <= i < s.len() && s[i] == mark,
    decreases s.len(),
{
    if s.len() > 0 && s[0] != mark {
        lemma_closing(s.skip(pair_len(s)), mark);
    }
}

/// A quoted string or comment is part of the text, and it is at least two characters long.
pub proof fn lemma_token_len(s: Seq<char>)
    requires
        s.len() > 0,
    ensures
        enclosed_len(s) matches Some(n) ==> 2 <= n <= s.len(),
        0 < token_len(s) <= s.len(),
{
    if s[0] == '"' || s[0] == '(' {
        lemma_closing(s.skip(1), if s[0] == '"' { '"' } else { ')' });
    }
}

/// What is found outside stands in the text.
pub proof fn lemma_outside(s: Seq<char>, x: char)
    ensures
        outside(s, x) matches Some(i) ==> 0 <= i < s.len() && s[i] == x,
    decreases s.len(),
{
    if s.len() > 0 && s[0] != x {
        lemma_token_len(s);
        lemma_outside(s.skip(token_len(s)), x);
    }
}

/// The position of the first `mark`, from `from` on, that no backslash stands before.
fn find_closing(s: &[char], from: usize, mark: char) -> (r: Option<usize>)
    requires
        from <= s.len(),
    ensures
        match r {
            Some(i) => from <= i < s.len() && closing(s@.skip(from as int), mark) == Some(i - from),
            None => closing(s@.skip(from as int), mark) is None,
        },
{
    let mut i: usize = from;
    while i < s.len()
        invariant
            from <= i <= s.len(),
            closing(s@.skip(from as int), mark) == match closing(s@.skip(i as int), mark) {
                Some(k) => Some(k + (i - from)),
                None => None,
            },
        decreases s.len() - i,
    {
        let ghost rest = s@.skip(i as int);
        assert(rest[0] == s@[i as int]);
        if s[i] == mark {
            return Some(i);
        }
        if s[i] == '\\' && i + 1 < s.len() {
            assert(rest.skip(2) =~= s@.skip(i + 2));
            i += 2;
        } else {
            assert(rest.skip(1) =~= s@.skip(i + 1));
            i += 1;
        }
    }
    None
}

/// The end of the quoted string or comment that begins at `i`.
pub fn enclosed_end(s: &[char], i: usize) -> (r: Option<usize>)
    requires
        i < s.len(),
    ensures
        match r {
            Some(e) => i < e <= s.len() && enclosed_len(s@.skip(i as int)) == Some(e - i),
            None => enclosed_len(s@.skip(i as int)) is None,
        },
{
    let ghost rest = s@.skip(i as int);
    assert(rest[0] == s@[i as int]);
    assert(rest.skip(1) =~= s@.skip(i + 1));
    let mark: char = if s[i] == '"' {
        '"'
    } else if s[i] == '(' {
        ')'
    } else {
        return None;
    };
    match find_closing(s, i + 1, mark) {
        Some(k) => Some(k + 1),
        None => None,
    }
}

/// The first position of `x`, from `from` on, outside quoted strings and comments.
pub fn find_outside(s: &[char], from: usize, x: char) -> (r: Option<usize>)
    requires
        from <= s.len(),
    ensures
        match r {
            Some(i) => from <= i < s.len() && outside(s@.skip(from as int), x) == Some(i - from),
            None => outside(s@.skip(from as int), x) is None,
        },
{
    let mut i: usize = from;
    while i < s.len()
        invariant
            from <= i <= s.len(),
            outside(s@.skip(from as int), x) == match outside(s@.skip(i as int), x) {
                Some(k) => Some(k + (i - from)),
                None => None,
            },
        decreases s.len() - i,
    {
        let ghost rest = s@.skip(i as int);
        assert(rest[0] == s@[i as int]);
        if s[i] == x {
            return Some(i);
        }
        let next: usize = match enclosed_end(s, i) {
            Some(e) => e,
            None => i + 1,
        };
        assert(token_len(rest) == next - i);
        assert(rest.skip(next - i) =~= s@.skip(next as int));
        i = next;
    }
    None
}

/// The entries of a list.
pub fn split_entries(s: &[char]) -> (r: Vec<Vec<char>>)
    ensures
        views(r@) == entries(s@),
{
    let mut out: Vec<Vec<char>> = Vec::new();
    let mut start: usize = 0;
    assert(s@.skip(0) =~= s@);
    assert(views(out@) + entries(s@) =~= entries(s@));
    loop
        invariant
            start <= s.len(),
            views(out@) + entries(s@.skip(start as int)) == entries(s@),
        decreases s.len() - start,
    {
        let ghost rest = s@.skip(start as int);
        let ghost before = out@;
        match find_outside(s, start, ',') {
            Some(i) => {
                let part = copy_range(s, start, i);
                assert(part@ =~= rest.take(i - start));
                let ghost v = part@;
                out.push(part);
                assert(rest.skip(i - start + 1) =~= s@.skip(i + 1));
                assert(views(out@) =~= views(before).push(v));
                assert(views(out@) + entries(s@.skip(i + 1)) =~= views(before) + (seq![v]
                    + entries(s@.skip(i + 1))));
                start = i + 1;
            },
            None => {
                let part = copy_range(s, start, s.len());
                assert(part@ =~= rest);
                let ghost v = part@;
                out.push(part);
                assert(views(out@) =~= views(before).push(v));
                assert(views(out@) =~= views(before) + seq![v]);
                return out;
            },
        }
    }
}

/// The text without the backslashes that take the meaning from a character.
pub fn unescape(s: &[char]) -> (r: Vec<char>)
    ensures
        r@ == unescaped(s@),
{
    let mut out: Vec<char> = Vec::new();
    let mut i: usize = 0;
    assert(s@.skip(0) =~= s@);
    assert(out@ + unescaped(s@) =~= unescaped(s@));
    while i < s.len()
        invariant
            i <= s.len(),
            out@ + unescaped(s@.skip(i as int)) == unescaped(s@),
        decreases s.len() - i,
    {
        let ghost rest = s@.skip(i as int);
        let ghost before = out@;
        let n: usize = if s[i] == '\\' && i + 1 < s.len() {
            2
        } else {
            1
        };
        assert(n == pair_len(rest));
        assert(rest[n - 1] == s@[i + n - 1]);
        assert(rest.skip(n as int) =~= s@.skip(i + n));
        out.push(s[i + n - 1]);
        i += n;
        assert(out@ + unescaped(s@.skip(i as int)) =~= before + unescaped(rest));
    }
    assert(out@ =~= unescaped(s@));
    out
}

/// The text with a backslash before each backslash and each double quote.
pub fn escape(name: &[char]) -> (r: String)
    ensures
        r@ == escaped(name@),
{
    let mut out: String = String::new();
    let mut i: usize = 0;
    assert(name@.skip(0) =~= name@);
    assert(out@ + escaped(name@) =~= escaped(name@));
    while i < name.len()
        invariant
            i <= name.len(),
            out@ + escaped(name@.skip(i as int)) == escaped(name@),
        decreases name.len() - i,
    {
        let ghost rest = name@.skip(i as int);
        let ghost before = out@;
        assert(rest.skip(1) =~= name@.skip(i + 1));
        if name[i] == '\\' || name[i] == '"' {
            out.push('\\');
        }
        out.push(name[i]);
        i += 1;
        assert(out@ + escaped(name@.skip(i as int)) =~= before + escaped(rest));
    }
    assert(out@ =~= escaped(name@));
    out
}

} // verus!
