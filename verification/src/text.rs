//! Searching, splitting, joining and trimming of character and byte sequences.
use vstd::prelude::*;
use vstd::slice::slice_subrange;

verus! {

/// An element of a text: a character or a byte.
pub trait Symbol: Copy + Sized {
    /// Whether two elements are equal.
    fn same(self, other: Self) -> (r: bool)
        ensures
            r == (self == other),
    ;
}

impl Symbol for char {
    fn same(self, other: Self) -> (r: bool) {
        self == other
    }
}

impl Symbol for u8 {
    fn same(self, other: Self) -> (r: bool) {
        self == other
    }
}

/// `pat` stands in `s` at position `i`.
pub open spec fn matches_at<T>(s: Seq<T>, pat: Seq<T>, i: int) -> bool {
    &&& 0 <= i
    &&& i + pat.len() <= s.len()
    &&& s.subrange(i, i + pat.len()) == pat
}

/// The first position of `pat` in `s`.
pub open spec fn first_match<T>(s: Seq<T>, pat: Seq<T>) -> Option<int>
    decreases s.len(),
{
    if matches_at(s, pat, 0) {
        Some(0)
    } else if s.len() == 0 {
        None
    } else {
        match first_match(s.skip(1), pat) {
            Some(i) => Some(i + 1),
            None => None,
        }
    }
}

/// The last position of `x` in `s`.
pub open spec fn last_index<T>(s: Seq<T>, x: T) -> Option<int>
    decreases s.len(),
{
    if s.len() == 0 {
        None
    } else if s.last() == x {
        Some(s.len() - 1)
    } else {
        last_index(s.drop_last(), x)
    }
}

/// The pieces of `s` between the occurrences of a separator that is not empty.
pub open spec fn pieces<T>(s: Seq<T>, sep: Seq<T>) -> Seq<Seq<T>>
    decreases s.len(),
{
    match first_match(s, sep) {
        Some(i) => if sep.len() > 0 && 0 <= i && i + sep.len() <= s.len() {
            seq![s.take(i)] + pieces(s.skip(i + sep.len()), sep)
        } else {
            seq![s]
        },
        None => seq![s],
    }
}

/// The parts one after the other, with `sep` between each two.
pub open spec fn joined<T>(parts: Seq<Seq<T>>, sep: Seq<T>) -> Seq<T>
    decreases parts.len(),
{
    if parts.len() == 0 {
        Seq::empty()
    } else if parts.len() == 1 {
        parts[0]
    } else {
        parts[0] + sep + joined(parts.skip(1), sep)
    }
}

/// The views of a vector of vectors.
pub open spec fn views<T>(v: Seq<Vec<T>>) -> Seq<Seq<T>> {
    v.map_values(|p: Vec<T>| p@)
}

/// The texts of a vector of strings.
pub open spec fn texts(v: Seq<String>) -> Seq<Seq<char>> {
    v.map_values(|p: String| p@)
}

/// Where the first match stands: at a match with none before it, or nowhere.
pub proof fn lemma_first_match<T>(s: Seq<T>, pat: Seq<T>)
    ensures
        match first_match(s, pat) {
            Some(i) => matches_at(s, pat, i) && forall|j: int| 0 <= j < i ==> !matches_at(s, pat, j),
            None => forall|j: int| !matches_at(s, pat, j),
        },
    decreases s.len(),
{
    if matches_at(s, pat, 0) {
    } else if s.len() == 0 {
        assert forall|j: int| !matches_at(s, pat, j) by {
            if matches_at(s, pat, j) {
                assert(j == 0);
            }
        }
    } else {
        let t = s.skip(1);
        lemma_first_match(t, pat);
        assert forall|j: int| 1 <= j implies matches_at(s, pat, j) == matches_at(t, pat, j - 1) by {
            if j + pat.len() <= s.len() {
                assert(s.subrange(j, j + pat.len()) =~= t.subrange(j - 1, j - 1 + pat.len()));
            }
        }
    }
}

/// A match with none before it is the first match.
pub proof fn lemma_first_match_is<T>(s: Seq<T>, pat: Seq<T>, i: int)
    requires
        matches_at(s, pat, i),
        forall|j: int| 0 <= j < i ==> !matches_at(s, pat, j),
    ensures
        first_match(s, pat) == Some(i),
{
    lemma_first_match(s, pat);
}

/// A text is its pieces joined again.
pub proof fn lemma_joined_pieces<T>(s: Seq<T>, sep: Seq<T>)
    ensures
        joined(pieces(s, sep), sep) == s,
        pieces(s, sep).len() > 0,
    decreases s.len(),
{
    lemma_first_match(s, sep);
    match first_match(s, sep) {
        Some(i) => {
            if sep.len() > 0 {
                let rest = s.skip(i + sep.len());
                lemma_joined_pieces(rest, sep);
                let all = pieces(s, sep);
                assert(all.skip(1) =~= pieces(rest, sep));
                assert(s =~= s.take(i) + sep + rest) by {
                    assert(s.subrange(i, i + sep.len()) == sep);
                }
            }
        },
        None => {},
    }
}

/// Parts that do not hold the first element of the separator are the pieces of their join.
pub proof fn lemma_pieces_joined<T>(parts: Seq<Seq<T>>, sep: Seq<T>)
    requires
        sep.len() > 0,
        parts.len() > 0,
        forall|i: int| 0 <= i < parts.len() ==> !(#[trigger] parts[i]).contains(sep[0]),
    ensures
        pieces(joined(parts, sep), sep) == parts,
    decreases parts.len(),
{
    let s = joined(parts, sep);
    let first = parts[0];
    assert(!first.contains(sep[0]));
    assert forall|j: int| 0 <= j < first.len() implies !matches_at(s, sep, j) by {
        if matches_at(s, sep, j) {
            assert(s.subrange(j, j + sep.len())[0] == s[j]);
            assert(s[j] == first[j]);
            assert(first.contains(sep[0]));
        }
    }
    if parts.len() == 1 {
        lemma_first_match(s, sep);
        assert(first_match(s, sep) is None) by {
            if first_match(s, sep) is Some {
                let i = first_match(s, sep)->0;
                assert(i < first.len());
            }
        }
        assert(pieces(s, sep) =~= parts);
    } else {
        let rest = joined(parts.skip(1), sep);
        assert(s.subrange(first.len() as int, (first.len() + sep.len()) as int) =~= sep);
        lemma_first_match_is(s, sep, first.len() as int);
        assert(s.take(first.len() as int) =~= first);
        assert(s.skip((first.len() + sep.len()) as int) =~= rest);
        assert forall|i: int| 0 <= i < parts.skip(1).len() implies !(
        #[trigger] parts.skip(1)[i]).contains(sep[0]) by {
            assert(parts.skip(1)[i] == parts[i + 1]);
        }
        lemma_pieces_joined(parts.skip(1), sep);
        assert(pieces(s, sep) =~= parts);
    }
}

/// The pieces between the occurrences of one element do not hold it.
pub proof fn lemma_pieces_hold_no_separator<T>(s: Seq<T>, x: T)
    ensures
        forall|i: int|
            0 <= i < pieces(s, seq![x]).len() ==> !(#[trigger] pieces(s, seq![x])[i]).contains(x),
    decreases s.len(),
{
    let sep = seq![x];
    lemma_first_match(s, sep);
    assert forall|k: int| 0 <= k < s.len() && s[k] == x implies matches_at(s, sep, k) by {
        assert(s.subrange(k, k + 1) =~= sep);
    }
    match first_match(s, sep) {
        Some(i) => {
            let rest = s.skip(i + 1);
            lemma_pieces_hold_no_separator(rest, x);
            let all = pieces(s, sep);
            assert(all =~= seq![s.take(i)] + pieces(rest, sep));
            assert forall|k: int| 0 <= k < all.len() implies !(#[trigger] all[k]).contains(x) by {
                if k == 0 {
                    if s.take(i).contains(x) {
                        let j = choose|j: int| 0 <= j < i && s.take(i)[j] == x;
                        assert(s[j] == x);
                        assert(matches_at(s, sep, j));
                    }
                } else {
                    assert(all[k] == pieces(rest, sep)[k - 1]);
                }
            }
        },
        None => {
            assert(!s.contains(x));
        },
    }
}

/// Whether two slices hold the same elements.
pub fn same_slice<T: Symbol>(a: &[T], b: &[T]) -> (r: bool)
    ensures
        r == (a@ == b@),
{
    if a.len() != b.len() {
        return false;
    }
    let mut i: usize = 0;
    while i < a.len()
        invariant
            0 <= i <= a.len(),
            a.len() == b.len(),
            forall|j: int| 0 <= j < i ==> a@[j] == b@[j],
        decreases a.len() - i,
    {
        if !a[i].same(b[i]) {
            return false;
        }
        i += 1;
    }
    assert(a@ =~= b@);
    true
}

/// Whether `pat` stands in `s` at position `i`.
pub fn has_at<T: Symbol>(s: &[T], pat: &[T], i: usize) -> (r: bool)
    requires
        i <= s.len(),
    ensures
        r == matches_at(s@, pat@, i as int),
{
    if pat.len() > s.len() - i {
        return false;
    }
    same_slice(slice_subrange(s, i, i + pat.len()), pat)
}

/// Whether `s` begins with `pat`.
pub fn begins_with<T: Symbol>(s: &[T], pat: &[T]) -> (r: bool)
    ensures
        r == pat@.is_prefix_of(s@),
{
    let r: bool = has_at(s, pat, 0);
    proof {
        if r {
            assert forall|j: int| 0 <= j < pat@.len() implies pat@[j] == s@[j] by {
                assert(s@.subrange(0, pat@.len() as int)[j] == s@[j]);
            }
        }
    }
    r
}

/// The first position of `pat` in `s`.
pub fn find<T: Symbol>(s: &[T], pat: &[T]) -> (r: Option<usize>)
    ensures
        match r {
            Some(i) => first_match(s@, pat@) == Some(i as int) && i + pat.len() <= s.len(),
            None => first_match(s@, pat@) is None,
        },
{
    let mut i: usize = 0;
    while i < s.len()
        invariant
            i <= s.len(),
            forall|j: int| 0 <= j < i ==> !matches_at(s@, pat@, j),
        decreases s.len() - i,
    {
        if has_at(s, pat, i) {
            proof {
                lemma_first_match_is(s@, pat@, i as int);
            }
            return Some(i);
        }
        i += 1;
    }
    if has_at(s, pat, i) {
        proof {
            lemma_first_match_is(s@, pat@, i as int);
        }
        return Some(i);
    }
    proof {
        lemma_first_match(s@, pat@);
    }
    None
}

/// The last position of `x` in `s`.
pub fn rfind<T: Symbol>(s: &[T], x: T) -> (r: Option<usize>)
    ensures
        match r {
            Some(i) => last_index(s@, x) == Some(i as int) && i < s.len(),
            None => last_index(s@, x) is None,
        },
{
    let mut n: usize = s.len();
    assert(s@.take(n as int) =~= s@);
    while n > 0
        invariant
            n <= s.len(),
            last_index(s@, x) == last_index(s@.take(n as int), x),
        decreases n,
    {
        assert(s@.take(n as int).drop_last() =~= s@.take(n - 1));
        if s[n - 1].same(x) {
            return Some(n - 1);
        }
        n -= 1;
    }
    None
}

/// A copy of the elements from `from` to `to`.
pub fn copy_range<T: Symbol>(s: &[T], from: usize, to: usize) -> (r: Vec<T>)
    requires
        from <= to <= s.len(),
    ensures
        r@ == s@.subrange(from as int, to as int),
{
    let mut r: Vec<T> = Vec::new();
    let mut i: usize = from;
    while i < to
        invariant
            from <= i <= to <= s.len(),
            r@ == s@.subrange(from as int, i as int),
        decreases to - i,
    {
        r.push(s[i]);
        assert(r@ =~= s@.subrange(from as int, i + 1));
        i += 1;
    }
    r
}

/// Appends the elements of `s` to `out`.
pub fn push_all<T: Symbol>(out: &mut Vec<T>, s: &[T])
    ensures
        final(out)@ == old(out)@ + s@,
{
    let mut i: usize = 0;
    assert(out@ =~= out@ + s@.take(0));
    while i < s.len()
        invariant
            i <= s.len(),
            out@ == old(out)@ + s@.take(i as int),
        decreases s.len() - i,
    {
        out.push(s[i]);
        assert(out@ =~= old(out)@ + s@.take(i + 1));
        i += 1;
    }
    assert(s@.take(i as int) =~= s@);
}

/// The pieces of `s` between the occurrences of `sep`.
pub fn split<T: Symbol>(s: &[T], sep: &[T]) -> (r: Vec<Vec<T>>)
    requires
        sep.len() > 0,
    ensures
        views(r@) == pieces(s@, sep@),
{
    let mut out: Vec<Vec<T>> = Vec::new();
    let mut start: usize = 0;
    assert(s@.skip(0) =~= s@);
    assert(views(out@) + pieces(s@, sep@) =~= pieces(s@, sep@));
    loop
        invariant
            start <= s.len(),
            sep.len() > 0,
            pieces(s@, sep@) == views(out@) + pieces(s@.skip(start as int), sep@),
        decreases s.len() - start,
    {
        let ghost rest = s@.skip(start as int);
        let tail = slice_subrange(s, start, s.len());
        assert(tail@ =~= rest);
        let ghost before = out@;
        match find(tail, sep) {
            Some(i) => {
                let piece = copy_range(tail, 0, i);
                assert(piece@ =~= rest.take(i as int));
                out.push(piece);
                assert(views(out@) =~= views(before) + seq![piece@]);
                assert(rest.skip(i + sep@.len()) =~= s@.skip(start + i + sep@.len()));
                assert(pieces(s@, sep@) =~= views(out@) + pieces(
                    s@.skip(start + i + sep@.len()),
                    sep@,
                ));
                start = start + i + sep.len();
            },
            None => {
                let piece = copy_range(tail, 0, tail.len());
                assert(piece@ =~= rest);
                out.push(piece);
                assert(views(out@) =~= views(before) + seq![piece@]);
                return out;
            },
        }
    }
}

/// The parts one after the other, with `sep` between each two.
pub fn join<T: Symbol>(parts: &Vec<Vec<T>>, sep: &[T]) -> (r: Vec<T>)
    ensures
        r@ == joined(views(parts@), sep@),
{
    let mut out: Vec<T> = Vec::new();
    let mut i: usize = 0;
    let ghost all = views(parts@);
    assert(all.skip(0) =~= all);
    assert(out@ + joined(all, sep@) =~= joined(all, sep@));
    while i < parts.len()
        invariant
            i <= parts.len(),
            all == views(parts@),
            joined(all, sep@) == out@ + if i == 0 {
                joined(all, sep@)
            } else if i < parts.len() {
                sep@ + joined(all.skip(i as int), sep@)
            } else {
                Seq::empty()
            },
        decreases parts.len() - i,
    {
        let ghost rest = all.skip(i as int);
        assert(rest[0] == parts@[i as int]@);
        assert(rest.skip(1) =~= all.skip(i + 1));
        if i > 0 {
            push_all(&mut out, sep);
        } else {
            assert(rest =~= all);
        }
        push_all(&mut out, parts[i].as_slice());
        proof {
            if i + 1 < parts.len() {
                assert(joined(rest, sep@) == rest[0] + sep@ + joined(all.skip(i + 1), sep@));
                assert(joined(all, sep@) =~= out@ + (sep@ + joined(all.skip(i + 1), sep@)));
            } else {
                assert(joined(rest, sep@) == rest[0]);
                assert(joined(all, sep@) =~= out@ + Seq::<T>::empty());
            }
        }
        i += 1;
    }
    proof {
        assert(joined(all, sep@) =~= out@);
    }
    out
}

} // verus!
