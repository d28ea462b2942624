//! Laws of the transparency rule.
use crate::dots::{
    data_payload, ends_message, ends_with_crlf, is_final_dot, line_end_if_missing, payload,
    read_back, stuffed, stuffed_line, unstuff, unstuffed_line,
};
use crate::message::lines_of;
use crate::text::{first_match, lemma_first_match, lemma_first_match_is, matches_at};
use vstd::prelude::*;

verus! {

/// The bytes end with a line feed.
pub open spec fn ends_line(data: Seq<u8>) -> bool {
    data.len() > 0 && data.last() == 10
}

/// The message with CRLF after it where it does not end with it.
pub open spec fn completed(data: Seq<u8>) -> Seq<u8> {
    data + line_end_if_missing(data)
}

/// The bytes hold one line feed, at their end.
pub open spec fn is_line(bytes: Seq<u8>) -> bool {
    &&& bytes.len() > 0
    &&& bytes.last() == 10
    &&& forall|i: int| 0 <= i < bytes.len() - 1 ==> bytes[i] != 10
}

/// The first line feed of bytes that begin with a line ends that line.
pub proof fn lemma_first_line(line: Seq<u8>, rest: Seq<u8>)
    requires
        is_line(line),
    ensures
        first_match(line + rest, seq![10u8]) == Some(line.len() - 1),
        (line + rest).take(line.len() as int) == line,
        (line + rest).skip(line.len() as int) == rest,
{
    let all = line + rest;
    let n = line.len() - 1;
    assert(all.subrange(n, n + 1) =~= seq![10u8]);
    assert forall|j: int| 0 <= j < n implies !matches_at(all, seq![10u8], j) by {
        if matches_at(all, seq![10u8], j) {
            assert(all.subrange(j, j + 1)[0] == line[j]);
        }
    }
    lemma_first_match_is(all, seq![10u8], n);
    assert(all.take(line.len() as int) =~= line);
    assert(all.skip(line.len() as int) =~= rest);
}

/// Bytes that end with a line feed begin with a line.
proof fn lemma_cut_first_line(data: Seq<u8>)
    requires
        ends_line(data),
    ensures
        first_match(data, seq![10u8]) is Some,
        0 <= first_match(data, seq![10u8])->0 < data.len(),
        is_line(data.take(first_match(data, seq![10u8])->0 + 1)),
{
    lemma_first_match(data, seq![10u8]);
    let n = data.len() - 1;
    assert(data.subrange(n, n + 1) =~= seq![10u8]);
    assert(matches_at(data, seq![10u8], n));
    let i = first_match(data, seq![10u8])->0;
    let line = data.take(i + 1);
    assert(data.subrange(i, i + 1)[0] == data[i]);
    assert forall|j: int| 0 <= j < line.len() - 1 implies line[j] != 10 by {
        if data[j] == 10 {
            assert(data.subrange(j, j + 1) =~= seq![10u8]);
            assert(matches_at(data, seq![10u8], j));
        }
    }
}

/// A line that is sent is a line, does not end the message, and reads back as it was.
proof fn lemma_stuffed_line(line: Seq<u8>)
    requires
        is_line(line),
    ensures
        is_line(stuffed_line(line)),
        !is_final_dot(stuffed_line(line)),
        unstuffed_line(stuffed_line(line)) == line,
{
    let s = stuffed_line(line);
    if line[0] == 46 {
        assert(s[0] == 46 && s[1] == 46);
        assert(s.skip(1) =~= line);
        assert forall|i: int| 0 <= i < s.len() - 1 implies s[i] != 10 by {
            if i > 0 {
                assert(s[i] == line[i - 1]);
            }
        }
    }
    if is_final_dot(s) {
        assert(s[0] == 46);
    }
}

/// Complete lines that are sent, with the final dot after them, read back as they were.
proof fn lemma_lines_read_back(data: Seq<u8>)
    requires
        data.len() == 0 || ends_line(data),
    ensures
        read_back(stuffed(data) + seq![46u8, 13u8, 10u8]) == Some(data),
    decreases data.len(),
{
    let dot = seq![46u8, 13u8, 10u8];
    if data.len() == 0 {
        lemma_first_match(data, seq![10u8]);
        assert(stuffed(data) + dot =~= dot);
        assert(is_line(dot));
        lemma_first_line(dot, Seq::<u8>::empty());
        assert(dot + Seq::<u8>::empty() =~= dot);
        assert(Seq::<u8>::empty() =~= data);
    } else {
        lemma_cut_first_line(data);
        let i = first_match(data, seq![10u8])->0;
        let line = data.take(i + 1);
        let rest = data.skip(i + 1);
        if rest.len() > 0 {
            assert(rest.last() == data.last());
        }
        lemma_lines_read_back(rest);
        lemma_stuffed_line(line);
        let wire = stuffed(data) + dot;
        assert(wire =~= stuffed_line(line) + (stuffed(rest) + dot));
        lemma_first_line(stuffed_line(line), stuffed(rest) + dot);
        assert(line + rest =~= data);
    }
}

/// CRLF after a message is sent as it is.
proof fn lemma_stuffed_crlf(data: Seq<u8>)
    ensures
        stuffed(data + seq![13u8, 10u8]) == stuffed(data) + seq![13u8, 10u8],
    decreases data.len(),
{
    let nl = seq![13u8, 10u8];
    let all = data + nl;
    lemma_first_match(data, seq![10u8]);
    match first_match(data, seq![10u8]) {
        Some(i) => {
            let line = data.take(i + 1);
            let rest = data.skip(i + 1);
            assert(data.subrange(i, i + 1)[0] == data[i]);
            assert(is_line(line)) by {
                assert forall|j: int| 0 <= j < line.len() - 1 implies line[j] != 10 by {
                    if data[j] == 10 {
                        assert(data.subrange(j, j + 1) =~= seq![10u8]);
                        assert(matches_at(data, seq![10u8], j));
                    }
                }
            }
            lemma_stuffed_crlf(rest);
            assert(all =~= line + (rest + nl));
            lemma_first_line(line, rest + nl);
            assert(stuffed(all) =~= stuffed(data) + nl);
        },
        None => {
            assert(is_line(all)) by {
                assert forall|j: int| 0 <= j < all.len() - 1 implies all[j] != 10 by {
                    if j < data.len() && data[j] == 10 {
                        assert(data.subrange(j, j + 1) =~= seq![10u8]);
                        assert(matches_at(data, seq![10u8], j));
                    }
                }
            }
            lemma_first_line(all, Seq::<u8>::empty());
            assert(all + Seq::<u8>::empty() =~= all);
            lemma_first_match(Seq::<u8>::empty(), seq![10u8]);
            assert(stuffed(Seq::<u8>::empty()) =~= Seq::<u8>::empty());
            assert(stuffed(all) =~= stuffed_line(all));
            assert(stuffed_line(all) =~= stuffed_line(data) + nl);
        },
    }
}

/// The CRLF after a message goes with its lines.
proof fn lemma_stuffed_completed(data: Seq<u8>)
    ensures
        stuffed(completed(data)) == stuffed(data) + line_end_if_missing(data),
{
    if ends_with_crlf(data) {
        assert(completed(data) =~= data);
        assert(stuffed(data) + line_end_if_missing(data) =~= stuffed(data));
    } else {
        lemma_stuffed_crlf(data);
    }
}

/// A message that is sent after `DATA` reads back as it was, with CRLF after it where it did not
/// end with it.
pub proof fn law_payload_reads_back(data: Seq<u8>)
    ensures
        read_back(payload(data)) == Some(completed(data)),
{
    lemma_stuffed_completed(data);
    lemma_lines_read_back(completed(data));
    assert(payload(data) =~= stuffed(completed(data)) + seq![46u8, 13u8, 10u8]);
}

/// Every message that is sent after `DATA` is terminated by CRLF, a dot and CRLF.
pub proof fn law_payload_is_terminated(data: Seq<u8>)
    ensures
        seq![13u8, 10u8, 46u8, 13u8, 10u8].is_suffix_of(payload(data)),
{
    let nl = seq![13u8, 10u8];
    let whole = completed(data);
    let start = whole.take(whole.len() - 2);
    lemma_stuffed_completed(data);
    assert(whole =~= start + nl);
    lemma_stuffed_crlf(start);
    let sent = payload(data);
    assert(sent =~= stuffed(start) + nl + seq![46u8, 13u8, 10u8]);
    assert(sent.skip(sent.len() - 5) =~= seq![13u8, 10u8, 46u8, 13u8, 10u8]);
}

/// The bytes with a dot before them where they begin with one.
pub open spec fn with_dot(line: Seq<u8>) -> Seq<u8> {
    if line.len() > 0 && line[0] == 46 {
        seq![46u8] + line
    } else {
        line
    }
}

/// What is sent of a message, line by line: each of its lines, with a dot more where it begins with
/// one.
pub proof fn lemma_stuffed_lines(data: Seq<u8>)
    ensures
        stuffed(data) == lines_of(data).map_values(|line: Seq<u8>| with_dot(line)).flatten(),
    decreases data.len(),
{
    let sent = lines_of(data).map_values(|line: Seq<u8>| with_dot(line));
    lemma_first_match(data, seq![10u8]);
    if data.len() == 0 {
        assert(sent.len() == 0);
        assert(sent.flatten() =~= Seq::empty());
        assert(stuffed(data) =~= Seq::empty());
    } else {
        let n = crate::message::line_len(data);
        let line = data.take(n);
        let rest = data.skip(n);
        assert(crate::message::lf() =~= seq![10u8]);
        lemma_stuffed_lines(rest);
        assert(sent.drop_first() =~= lines_of(rest).map_values(|line: Seq<u8>| with_dot(line)));
        assert(sent[0] == with_dot(line));
        if first_match(data, seq![10u8]) is None {
            assert(line =~= data);
            assert(rest.len() == 0);
            assert(lines_of(rest).len() == 0);
            assert(sent.drop_first().flatten() =~= Seq::empty());
        }
        assert(stuffed(data) =~= sent.flatten());
    }
}

/// What the functions give back. A message is sent line by line, with a dot more before each line
/// that begins with one, then CRLF where it does not end with it, then a line with a single dot. A
/// line ends a message where it holds a dot and its line break alone. A line that begins with two
/// dots loses one; any other, one that begins with a single dot too, stays.
pub proof fn law_dot_functions(data: &[u8], sent: Vec<u8>, last: bool, line: Vec<u8>)
    ensures
        call_ensures(data_payload, (data,), sent) ==> sent@ == lines_of(data@).map_values(
            |line: Seq<u8>| with_dot(line),
        ).flatten() + (if data@.len() >= 2 && data@[data@.len() - 2] == 13 && data@[data@.len() - 1]
            == 10 {
            Seq::empty()
        } else {
            seq![13u8, 10u8]
        }) + seq![46u8, 13u8, 10u8],
        call_ensures(ends_message, (data,), last) ==> (last <==> data@ == seq![46u8, 13u8, 10u8]
            || data@ == seq![46u8, 10u8]),
        call_ensures(unstuff, (data,), line) ==> {
            &&& seq![46u8, 46u8].is_prefix_of(data@) ==> seq![46u8] + line@ == data@
            &&& !seq![46u8, 46u8].is_prefix_of(data@) ==> line@ == data@
        },
{
    lemma_stuffed_lines(data@);
    let two = seq![46u8, 46u8];
    if two.is_prefix_of(data@) {
        assert(data@[0] == two[0] && data@[1] == two[1]);
        assert(seq![46u8] + data@.skip(1) =~= data@);
    } else if data@.len() >= 2 && data@[0] == 46 && data@[1] == 46 {
        assert(two =~= data@.subrange(0, 2));
        assert(two.is_prefix_of(data@));
    }
}

} // verus!
