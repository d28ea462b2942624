//! Laws of quoted strings, comments, escapes and the entries of a list.
use crate::quoting::{
    closing, enclosed_len, entries, escape, escaped, find_outside, is_quoted_string,
    lemma_closing, lemma_outside, lemma_token_len, outside, pair_len, split_entries, token_len,
    unescape, unescaped,
};
use crate::text::{joined, views};
use vstd::prelude::*;

verus! {

/// The entries of a list, put together again with single commas, are the list, and no entry has a
/// comma outside quoted strings and comments.
pub proof fn law_entries_make_up_the_list(s: Seq<char>)
    ensures
        joined(entries(s), seq![',']) == s,
        entries(s).len() > 0,
        forall|i: int|
            0 <= i < entries(s).len() ==> outside(#[trigger] entries(s)[i], ',') is None,
    decreases s.len(),
{
    lemma_outside(s, ',');
    let all = entries(s);
    if outside(s, ',') is Some {
        let k = outside(s, ',')->0;
        let rest = s.skip(k + 1);
        law_entries_make_up_the_list(rest);
        assert(all.skip(1) =~= entries(rest));
        assert(joined(all, seq![',']) =~= s.take(k) + seq![','] + rest);
        assert(s =~= s.take(k) + seq![','] + rest);
        lemma_none_before(s, ',');
        assert forall|i: int| 0 <= i < all.len() implies outside(
            #[trigger] all[i],
            ',',
        ) is None by {
            if i > 0 {
                assert(all[i] == entries(rest)[i - 1]);
            }
        }
    } else {
        assert(joined(all, seq![',']) =~= s);
    }
}

/// Before the first place outside there is none.
proof fn lemma_none_before(s: Seq<char>, x: char)
    requires
        x != '"' && x != '(' && x != ')',
    ensures
        outside(s, x) matches Some(k) ==> outside(s.take(k), x) is None,
    decreases s.len(),
{
    if s.len() > 0 && s[0] != x && outside(s, x) is Some {
        let k = outside(s, x)->0;
        let n = token_len(s);
        let start = s.take(k);
        lemma_outside(s, x);
        lemma_token_len(s);
        let rest = s.skip(n);
        lemma_outside(rest, x);
        lemma_none_before(rest, x);
        assert(n <= k);
        assert(start[0] == s[0]);
        assert(start.skip(n) =~= rest.take(k - n));
        if enclosed_len(s) is Some {
            let mark = if s[0] == '"' {
                '"'
            } else {
                ')'
            };
            lemma_closing_within(s.skip(1), mark, k - 1);
            assert(start.skip(1) =~= s.skip(1).take(k - 1));
            assert(token_len(start) == n);
        } else {
            if s[0] == '"' || s[0] == '(' {
                let mark = if s[0] == '"' {
                    '"'
                } else {
                    ')'
                };
                lemma_still_open(s.skip(1), mark, k - 1);
                assert(start.skip(1) =~= s.skip(1).take(k - 1));
            }
            assert(token_len(start) == 1);
        }
    }
}

/// A closing mark is found in every beginning that holds it.
proof fn lemma_closing_within(s: Seq<char>, mark: char, n: int)
    requires
        closing(s, mark) matches Some(i) && i < n <= s.len(),
    ensures
        closing(s.take(n), mark) == closing(s, mark),
    decreases s.len(),
{
    let t = s.take(n);
    lemma_closing(s, mark);
    assert(t[0] == s[0]);
    if s[0] != mark {
        let k = pair_len(s);
        lemma_closing(s.skip(k), mark);
        assert(k < n);
        assert(pair_len(t) == k);
        assert(t.skip(k) =~= s.skip(k).take(n - k));
        lemma_closing_within(s.skip(k), mark, n - k);
    }
}

/// What stays open stays open in every beginning.
proof fn lemma_still_open(s: Seq<char>, mark: char, n: int)
    requires
        closing(s, mark) is None,
        0 <= n <= s.len(),
    ensures
        closing(s.take(n), mark) is None,
    decreases s.len(),
{
    let t = s.take(n);
    if n > 0 {
        assert(t[0] == s[0]);
        let k = pair_len(s);
        if k <= n {
            assert(pair_len(t) == k);
            assert(t.skip(k) =~= s.skip(k).take(n - k));
            lemma_still_open(s.skip(k), mark, n - k);
        } else {
            assert(n == 1);
            assert(pair_len(t) == 1);
            assert(t.skip(1).len() == 0);
            assert(closing(t.skip(1), mark) is None);
        }
    }
}

/// A list is split at its first comma outside, and what follows is split likewise; without such a
/// comma it is one entry.
pub proof fn law_lists_are_split_at_commas_outside(s: Seq<char>)
    ensures
        match outside(s, ',') {
            Some(i) => entries(s).len() > 1 && entries(s)[0] == s.take(i) && entries(s).skip(1)
                == entries(s.skip(i + 1)),
            None => entries(s) == seq![s],
        },
{
    lemma_outside(s, ',');
    if outside(s, ',') is Some {
        let i = outside(s, ',')->0;
        law_entries_make_up_the_list(s.skip(i + 1));
        assert(entries(s).skip(1) =~= entries(s.skip(i + 1)));
    }
}

/// A text in which nothing opens: what stands outside is what stands there at all.
pub proof fn law_nothing_opens(s: Seq<char>, x: char)
    requires
        !s.contains('"'),
        !s.contains('('),
    ensures
        match outside(s, x) {
            Some(i) => 0 <= i < s.len() && s[i] == x && forall|j: int| 0 <= j < i ==> s[j] != x,
            None => !s.contains(x),
        },
    decreases s.len(),
{
    if s.len() > 0 && s[0] != x {
        let rest = s.skip(1);
        assert(s[0] != '"' && s[0] != '(');
        assert forall|i: int| 0 <= i < rest.len() implies rest[i] != '"' && rest[i] != '(' by {
            assert(rest[i] == s[i + 1]);
        }
        law_nothing_opens(rest, x);
        assert(token_len(s) == 1);
        match outside(s, x) {
            Some(i) => {
                assert(rest[i - 1] == s[i]);
                assert forall|j: int| 0 <= j < i implies s[j] != x by {
                    if j > 0 {
                        assert(rest[j - 1] == s[j]);
                    }
                }
            },
            None => {
                assert forall|j: int| 0 <= j < s.len() implies s[j] != x by {
                    if j > 0 {
                        assert(rest[j - 1] == s[j]);
                    }
                }
            },
        }
    }
}

/// A closing mark that no backslash can hide is the first one.
pub proof fn law_first_mark_closes(s: Seq<char>, mark: char)
    requires
        !s.contains('\\'),
    ensures
        match closing(s, mark) {
            Some(i) => 0 <= i < s.len() && s[i] == mark && forall|j: int|
                0 <= j < i ==> s[j] != mark,
            None => !s.contains(mark),
        },
    decreases s.len(),
{
    if s.len() > 0 && s[0] != mark {
        let rest = s.skip(1);
        assert(s[0] != '\\');
        assert forall|i: int| 0 <= i < rest.len() implies rest[i] != '\\' by {
            assert(rest[i] == s[i + 1]);
        }
        law_first_mark_closes(rest, mark);
        match closing(s, mark) {
            Some(i) => {
                assert(rest[i - 1] == s[i]);
                assert forall|j: int| 0 <= j < i implies s[j] != mark by {
                    if j > 0 {
                        assert(rest[j - 1] == s[j]);
                    }
                }
            },
            None => {
                assert forall|j: int| 0 <= j < s.len() implies s[j] != mark by {
                    if j > 0 {
                        assert(rest[j - 1] == s[j]);
                    }
                }
            },
        }
    }
}

/// A backslash hides the character after it, whatever it is: what closes stands behind both.
pub proof fn law_escaped_characters_close_nothing(
    before: Seq<char>,
    c: char,
    rest: Seq<char>,
    mark: char,
)
    requires
        !before.contains('\\'),
        !before.contains(mark),
        mark != '\\',
    ensures
        closing(before + seq!['\\', c] + rest, mark) == match closing(rest, mark) {
            Some(i) => Some(i + before.len() + 2),
            None => None,
        },
    decreases before.len(),
{
    let all = before + seq!['\\', c] + rest;
    if before.len() == 0 {
        assert(all[0] == '\\' && all.len() > 1);
        assert(all.skip(2) =~= rest);
    } else {
        assert(before[0] != '\\' && before[0] != mark);
        let less = before.skip(1);
        assert forall|i: int| 0 <= i < less.len() implies less[i] != '\\' && less[i] != mark by {
            assert(less[i] == before[i + 1]);
        }
        law_escaped_characters_close_nothing(less, c, rest, mark);
        assert(all[0] == before[0]);
        assert(all.skip(1) =~= less + seq!['\\', c] + rest);
    }
}

/// What a quoted string or a comment encloses is not outside: the search goes on behind it.
pub proof fn law_enclosed_texts_are_skipped(open: char, inner: Seq<char>, rest: Seq<char>, x: char)
    requires
        open == '"' || open == '(',
        x != open,
        !inner.contains('\\'),
        open == '"' ==> !inner.contains('"'),
        open == '(' ==> !inner.contains(')'),
    ensures
        ({
            let close = if open == '"' {
                '"'
            } else {
                ')'
            };
            outside(seq![open] + inner + seq![close] + rest, x) == match outside(rest, x) {
                Some(i) => Some(i + inner.len() + 2),
                None => None,
            }
        }),
        ({
            let close = if open == '"' {
                '"'
            } else {
                ')'
            };
            enclosed_len(seq![open] + inner + seq![close] + rest) == Some(inner.len() as int + 2)
        }),
{
    let close = if open == '"' {
        '"'
    } else {
        ')'
    };
    let all = seq![open] + inner + seq![close] + rest;
    let tail = all.skip(1);
    assert(tail =~= inner + seq![close] + rest);
    lemma_first_close(inner, rest, close);
    assert(all[0] == open);
    assert(all.skip(inner.len() as int + 2) =~= rest);
}

/// The first mark behind a text without marks and backslashes closes.
proof fn lemma_first_close(inner: Seq<char>, rest: Seq<char>, mark: char)
    requires
        !inner.contains('\\'),
        !inner.contains(mark),
    ensures
        closing(inner + seq![mark] + rest, mark) == Some(inner.len() as int),
    decreases inner.len(),
{
    let all = inner + seq![mark] + rest;
    if inner.len() > 0 {
        assert(inner[0] != '\\' && inner[0] != mark);
        let less = inner.skip(1);
        assert forall|i: int| 0 <= i < less.len() implies less[i] != '\\' && less[i] != mark by {
            assert(less[i] == inner[i + 1]);
        }
        lemma_first_close(less, rest, mark);
        assert(all[0] == inner[0]);
        assert(all.skip(1) =~= less + seq![mark] + rest);
    } else {
        assert(all[0] == mark);
    }
}

/// A mark that is never closed opens nothing: it is a character like any other.
pub proof fn law_unclosed_marks_open_nothing(s: Seq<char>, x: char)
    requires
        s.len() > 0,
        s[0] != x,
        s[0] == '"' ==> !s.skip(1).contains('"'),
        s[0] == '(' ==> !s.skip(1).contains(')'),
    ensures
        outside(s, x) == match outside(s.skip(1), x) {
            Some(i) => Some(i + 1),
            None => None,
        },
{
    lemma_closing(s.skip(1), if s[0] == '"' {
        '"'
    } else {
        ')'
    });
    assert(token_len(s) == 1);
}

/// A text without backslashes has no escapes to undo; elsewhere the first backslash goes and the
/// character after it stays, and so on. A backslash at the end stays.
pub proof fn law_escapes_are_undone(before: Seq<char>, c: char, rest: Seq<char>)
    requires
        !before.contains('\\'),
    ensures
        unescaped(before) == before,
        unescaped(before + seq!['\\', c] + rest) == before + seq![c] + unescaped(rest),
        unescaped(before + seq!['\\']) == before + seq!['\\'],
    decreases before.len(),
{
    let all = before + seq!['\\', c] + rest;
    let open = before + seq!['\\'];
    if before.len() == 0 {
        assert(unescaped(before) =~= before);
        assert(all[0] == '\\' && all[1] == c);
        assert(all.skip(2) =~= rest);
        assert(unescaped(all) =~= before + seq![c] + unescaped(rest));
        assert(open.skip(1).len() == 0);
        assert(unescaped(open.skip(1)) =~= Seq::empty());
        assert(unescaped(open) =~= open);
    } else {
        assert(before[0] != '\\');
        let less = before.skip(1);
        assert forall|i: int| 0 <= i < less.len() implies less[i] != '\\' by {
            assert(less[i] == before[i + 1]);
        }
        law_escapes_are_undone(less, c, rest);
        assert(seq![before[0]] + less =~= before);
        assert(all[0] == before[0]);
        assert(all.skip(1) =~= less + seq!['\\', c] + rest);
        assert(unescaped(all) =~= before + seq![c] + unescaped(rest));
        assert(open[0] == before[0]);
        assert(open.skip(1) =~= less + seq!['\\']);
        assert(unescaped(open) =~= open);
    }
}

/// Escaping puts a backslash before each backslash and each double quote, and changes nothing else.
pub proof fn law_escaping(a: Seq<char>, b: Seq<char>)
    ensures
        escaped(a + b) == escaped(a) + escaped(b),
        !a.contains('\\') && !a.contains('"') ==> escaped(a) == a,
        escaped(seq!['\\']) == seq!['\\', '\\'],
        escaped(seq!['"']) == seq!['\\', '"'],
    decreases a.len(),
{
    let all = a + b;
    assert(seq!['\\'].skip(1) =~= Seq::empty());
    assert(seq!['"'].skip(1) =~= Seq::empty());
    assert(escaped(Seq::<char>::empty()) =~= Seq::empty());
    assert(escaped(seq!['\\']) =~= seq!['\\', '\\']);
    assert(escaped(seq!['"']) =~= seq!['\\', '"']);
    if a.len() == 0 {
        assert(all =~= b);
        assert(escaped(a) + escaped(b) =~= escaped(b));
        assert(escaped(a) =~= a);
    } else {
        let less = a.skip(1);
        law_escaping(less, b);
        assert(all[0] == a[0]);
        assert(all.skip(1) =~= less + b);
        assert(escaped(all) =~= escaped(a) + escaped(b));
        if !a.contains('\\') && !a.contains('"') {
            assert(a[0] != '\\' && a[0] != '"');
            assert forall|i: int| 0 <= i < less.len() implies less[i] != '\\' && less[i] != '"' by {
                assert(less[i] == a[i + 1]);
            }
            assert(seq![a[0]] + less =~= a);
            assert(escaped(a) =~= a);
        }
    }
}

/// One quoted string: it begins with a quote, and the quote that closes it is its last character.
pub proof fn law_quoted_strings(s: Seq<char>)
    requires
        !s.contains('\\'),
    ensures
        is_quoted_string(s) <==> s.len() >= 2 && s[0] == '"' && s.last() == '"' && forall|i: int|
            0 < i < s.len() - 1 ==> s[i] != '"',
{
    if s.len() > 0 && s[0] == '"' {
        let rest = s.skip(1);
        assert forall|i: int| 0 <= i < rest.len() implies rest[i] != '\\' by {
            assert(rest[i] == s[i + 1]);
        }
        law_first_mark_closes(rest, '"');
        assert forall|i: int| 0 < i < s.len() implies s[i] == rest[i - 1] by {}
        if is_quoted_string(s) {
            let k = closing(rest, '"')->0;
            assert(k == rest.len() - 1);
            assert forall|i: int| 0 < i < s.len() - 1 implies s[i] != '"' by {
                assert(rest[i - 1] == s[i]);
            }
        }
        if s.len() >= 2 && s.last() == '"' && forall|i: int| 0 < i < s.len() - 1 ==> s[i] != '"' {
            assert(rest[rest.len() - 1] == '"');
            let k = closing(rest, '"')->0;
            assert(s[k + 1] == '"');
        }
    }
}

/// What the functions give back.
pub proof fn law_quoting_functions(
    s: &[char],
    from: usize,
    x: char,
    parts: Vec<Vec<char>>,
    plain: Vec<char>,
    marked: String,
    at: Option<usize>,
)
    ensures
        call_ensures(split_entries, (s,), parts) ==> {
            &&& joined(parts@.map_values(|p: Vec<char>| p@), seq![',']) == s@
            &&& !s@.contains('"') && !s@.contains('(') ==> forall|i: int|
                0 <= i < parts@.len() ==> !(#[trigger] parts@[i])@.contains(',')
        },
        call_ensures(unescape, (s,), plain) && !s@.contains('\\') ==> plain@ == s@,
        call_ensures(escape, (s,), marked) ==> unescaped(marked@) == s@,
        from <= s@.len() && call_ensures(find_outside, (s, from, x), at) && !s@.contains('"')
            && !s@.contains('(') ==> match at {
            Some(i) => from <= i < s@.len() && s@[i as int] == x && forall|j: int|
                from <= j < i ==> s@[j] != x,
            None => forall|j: int| from <= j < s@.len() ==> s@[j] != x,
        },
{
    law_entries_make_up_the_list(s@);
    assert(views(parts@) =~= parts@.map_values(|p: Vec<char>| p@));
    if call_ensures(split_entries, (s,), parts) && !s@.contains('"') && !s@.contains('(') {
        crate::laws::breaks::lemma_entries_lack(s@, '"');
        crate::laws::breaks::lemma_entries_lack(s@, '(');
        assert forall|i: int| 0 <= i < parts@.len() implies !(#[trigger] parts@[i])@.contains(
            ',',
        ) by {
            let entry = entries(s@)[i];
            assert(entry == parts@[i]@);
            assert(!entry.contains('"') && !entry.contains('('));
            law_nothing_opens(entry, ',');
        }
    }
    if !s@.contains('\\') {
        law_escapes_are_undone(s@, ' ', Seq::empty());
    }
    crate::laws::mail::lemma_unescaped_escaped(s@);
    if from <= s@.len() && !s@.contains('"') && !s@.contains('(') {
        let rest = s@.skip(from as int);
        assert forall|i: int| 0 <= i < rest.len() implies rest[i] != '"' && rest[i] != '(' by {
            assert(rest[i] == s@[from + i]);
        }
        law_nothing_opens(rest, x);
        assert forall|j: int| from <= j < s@.len() implies s@[j] == rest[j - from] by {}
    }
}

} // verus!
