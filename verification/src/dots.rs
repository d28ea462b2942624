//! The transparency rule of SMTP: a line of a message that begins with a dot is sent with one dot
//! more, and a line that holds a single dot ends the message.
use crate::text::{copy_range, find, first_match, push_all};
use vstd::prelude::*;
use vstd::slice::slice_subrange;

verus! {

/// The line as it is sent.
pub open spec fn stuffed_line(line: Seq<u8>) -> Seq<u8> {
    if line.len() > 0 && line[0] == 46 {
        seq![46u8] + line
    } else {
        line
    }
}

/// The lines of the message as they are sent. A line ends with a line feed; the last may lack it.
pub open spec fn stuffed(data: Seq<u8>) -> Seq<u8>
    decreases data.len(),
{
    match first_match(data, seq![10u8]) {
        Some(i) => if 0 <= i < data.len() {
            stuffed_line(data.take(i + 1)) + stuffed(data.skip(i + 1))
        } else {
            stuffed_line(data)
        },
        None => stuffed_line(data),
    }
}

/// The bytes end with CRLF.
pub open spec fn ends_with_crlf(data: Seq<u8>) -> bool {
    data.len() >= 2 && data[data.len() - 2] == 13 && data.last() == 10
}

/// What follows a message that may lack the CRLF at its end.
pub open spec fn line_end_if_missing(data: Seq<u8>) -> Seq<u8> {
    if ends_with_crlf(data) {
        Seq::empty()
    } else {
        seq![13u8, 10u8]
    }
}

/// The message as it is sent after `DATA`: its lines, CRLF where they do not end with it, and the
/// line with a single dot.
pub open spec fn payload(data: Seq<u8>) -> Seq<u8> {
    stuffed(data) + line_end_if_missing(data) + seq![46u8, 13u8, 10u8]
}

/// The line that ends a message.
pub open spec fn is_final_dot(line: Seq<u8>) -> bool {
    line == seq![46u8, 13u8, 10u8] || line == seq![46u8, 10u8]
}

/// The line that was sent: one that begins with two dots loses the first.
pub open spec fn unstuffed_line(line: Seq<u8>) -> Seq<u8> {
    if line.len() >= 2 && line[0] == 46 && line[1] == 46 {
        line.skip(1)
    } else {
        line
    }
}

/// The message that is read from what was sent, up to the line with a single dot; `None` where
/// there is no such line.
pub open spec fn read_back(wire: Seq<u8>) -> Option<Seq<u8>>
    decreases wire.len(),
{
    match first_match(wire, seq![10u8]) {
        Some(i) => if 0 <= i < wire.len() {
            let line = wire.take(i + 1);
            if is_final_dot(line) {
                Some(Seq::empty())
            } else {
                match read_back(wire.skip(i + 1)) {
                    Some(rest) => Some(unstuffed_line(line) + rest),
                    None => None,
                }
            }
        } else {
            None
        },
        None => None,
    }
}

/// Appends the line as it is sent.
fn push_line(out: &mut Vec<u8>, line: &[u8])
    ensures
        final(out)@ == old(out)@ + stuffed_line(line@),
{
    if line.len() > 0 && line[0] == 46 {
        out.push(46);
    }
    push_all(out, line);
    assert(out@ =~= old(out)@ + stuffed_line(line@));
}

/// The message as it is sent after `DATA`.
pub fn data_payload(data: &[u8]) -> (r: Vec<u8>)
    ensures
        r@ == payload(data@),
{
    let mark: Vec<u8> = vec![10u8];
    assert(mark@ =~= seq![10u8]);
    let mut out: Vec<u8> = Vec::new();
    let mut start: usize = 0;
    let mut open: bool = true;
    assert(data@.skip(0) =~= data@);
    assert(out@ + stuffed(data@) =~= stuffed(data@));
    while open
        invariant
            start <= data.len(),
            mark@ == seq![10u8],
            open ==> stuffed(data@) == out@ + stuffed(data@.skip(start as int)),
            !open ==> stuffed(data@) == out@,
        decreases open as int + data.len() - start,
    {
        let ghost rest = data@.skip(start as int);
        let tail = slice_subrange(data, start, data.len());
        assert(tail@ =~= rest);
        match find(tail, mark.as_slice()) {
            Some(i) => {
                let line = slice_subrange(tail, 0, i + 1);
                assert(line@ =~= rest.take(i + 1));
                push_line(&mut out, line);
                assert(rest.skip(i + 1) =~= data@.skip(start + i + 1));
                assert(stuffed(data@) =~= out@ + stuffed(data@.skip(start + i + 1)));
                start = start + i + 1;
            },
            None => {
                push_line(&mut out, tail);
                open = false;
            },
        }
    }
    let total: usize = data.len();
    if !(total >= 2 && data[total - 2] == 13 && data[total - 1] == 10) {
        out.push(13);
        out.push(10);
    }
    out.push(46);
    out.push(13);
    out.push(10);
    assert(out@ =~= payload(data@));
    out
}

/// Whether the line ends a message.
pub fn ends_message(line: &[u8]) -> (r: bool)
    ensures
        r == is_final_dot(line@),
{
    if line.len() == 3 {
        let r: bool = line[0] == 46 && line[1] == 13 && line[2] == 10;
        proof {
            if r {
                assert(line@ =~= seq![46u8, 13u8, 10u8]);
            }
        }
        r
    } else if line.len() == 2 {
        let r: bool = line[0] == 46 && line[1] == 10;
        proof {
            if r {
                assert(line@ =~= seq![46u8, 10u8]);
            }
        }
        r
    } else {
        false
    }
}

/// The line that was sent.
pub fn unstuff(line: &[u8]) -> (r: Vec<u8>)
    ensures
        r@ == unstuffed_line(line@),
{
    if line.len() >= 2 && line[0] == 46 && line[1] == 46 {
        let r = copy_range(line, 1, line.len());
        assert(r@ =~= line@.skip(1));
        r
    } else {
        let r = copy_range(line, 0, line.len());
        assert(r@ =~= line@);
        r
    }
}

} // verus!
