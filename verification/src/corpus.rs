//! The corpus format: text records, each closed by a delimiter line.
//!
//! A corpus is a sequence of bytes read line by line. A line runs up to and
//! including its line feed; the last line may lack one. A line that holds
//! exactly `%%` and a line feed closes the record made of the lines read since
//! the previous delimiter. Reading stops for good at the end of the input, or
//! at the first line that is not valid UTF-8; lines read since the last
//! delimiter are then dropped.

use vstd::prelude::*;
use vstd::utf8::*;

verus! {

/// The line feed that ends a line.
pub const LINE_FEED: u8 = 0x0a;

/// The byte `%`, of which the delimiter line holds two.
pub const PERCENT: u8 = 0x25;

/// Length in bytes of the delimiter line.
pub const DELIMITER_LEN: usize = 3;

/// The delimiter line: `%%` followed by a line feed.
pub open spec fn delimiter() -> Seq<u8> {
    seq![PERCENT, PERCENT, LINE_FEED]
}

/// Where the line that starts at `p` ends: just past its line feed, or at the
/// end of the corpus when no line feed follows.
pub open spec fn line_end(c: Seq<u8>, p: int) -> int
    decreases c.len() - p,
{
    if p < 0 || p >= c.len() {
        c.len() as int
    } else if c[p] == LINE_FEED {
        p + 1
    } else {
        line_end(c, p + 1)
    }
}

/// The line that starts at `p`.
pub open spec fn line_at(c: Seq<u8>, p: int) -> Seq<u8> {
    c.subrange(p, line_end(c, p))
}

/// A line that starts inside the corpus is not empty and ends inside it.
pub proof fn lemma_line_end_bounds(c: Seq<u8>, p: int)
    requires
        0 <= p < c.len(),
    ensures
        p < line_end(c, p) <= c.len(),
    decreases c.len() - p,
{
    if c[p] != LINE_FEED {
        if p + 1 < c.len() {
            lemma_line_end_bounds(c, p + 1);
        } else {
            assert(line_end(c, p + 1) == c.len());
        }
    }
}

/// How reading lines from a position stops.
pub enum Stop {
    /// A delimiter line was read; it starts at the given position.
    Delimiter(int),
    /// The input ended first.
    EndOfInput,
    /// A line that is not valid UTF-8 came first.
    BadLine,
}

/// Reads lines from the line start `p` until a delimiter line, the end of the
/// input or an undecodable line.
pub open spec fn scan(c: Seq<u8>, p: int) -> Stop
    decreases c.len() - p,
{
    if p < 0 || p >= c.len() {
        Stop::EndOfInput
    } else if !valid_utf8(line_at(c, p)) {
        Stop::BadLine
    } else if line_at(c, p) == delimiter() {
        Stop::Delimiter(p)
    } else {
        proof {
            lemma_line_end_bounds(c, p);
        }
        scan(c, line_end(c, p))
    }
}

/// What a scan that stops at a delimiter line has passed: the delimiter line
/// lies at or after the start, wholly inside the corpus, and is three bytes
/// long.
pub proof fn lemma_scan_delimiter(c: Seq<u8>, p: int)
    ensures
        scan(c, p) matches Stop::Delimiter(d) ==> {
            &&& 0 <= p <= d
            &&& d + DELIMITER_LEN <= c.len()
            &&& line_end(c, d) == d + DELIMITER_LEN
            &&& c.subrange(d, d + DELIMITER_LEN) == delimiter()
        },
    decreases c.len() - p,
{
    if 0 <= p < c.len() && valid_utf8(line_at(c, p)) {
        lemma_line_end_bounds(c, p);
        if line_at(c, p) == delimiter() {
            assert(line_at(c, p).len() == 3);
        } else {
            lemma_scan_delimiter(c, line_end(c, p));
        }
    }
}

/// The records that reading from the line start `p` yields, in order.
pub open spec fn records_from(c: Seq<u8>, p: int) -> Seq<Seq<u8>>
    decreases c.len() - p,
{
    match scan(c, p) {
        Stop::Delimiter(d) => {
            proof {
                lemma_scan_delimiter(c, p);
            }
            seq![c.subrange(p, d)] + records_from(c, d + DELIMITER_LEN)
        },
        _ => Seq::empty(),
    }
}

/// The records of a corpus.
pub open spec fn records(c: Seq<u8>) -> Seq<Seq<u8>> {
    records_from(c, 0)
}

/// Whether reading from the line start `p` ends at an undecodable line rather
/// than at the end of the input.
pub open spec fn ends_badly_from(c: Seq<u8>, p: int) -> bool
    decreases c.len() - p,
{
    match scan(c, p) {
        Stop::Delimiter(d) => {
            proof {
                lemma_scan_delimiter(c, p);
            }
            ends_badly_from(c, d + DELIMITER_LEN)
        },
        Stop::EndOfInput => false,
        Stop::BadLine => true,
    }
}

/// The lines that are read from the line start `p` on, in order: all of them
/// up to the end of the input, or up to the first that is not valid UTF-8,
/// which is left out.
pub open spec fn lines_from(c: Seq<u8>, p: int) -> Seq<Seq<u8>>
    decreases c.len() - p,
{
    if p < 0 || p >= c.len() || !valid_utf8(line_at(c, p)) {
        Seq::empty()
    } else {
        proof {
            lemma_line_end_bounds(c, p);
        }
        seq![line_at(c, p)] + lines_from(c, line_end(c, p))
    }
}

/// Whether a line starts at `q`: at the start of the corpus, and after every
/// line feed.
pub open spec fn is_line_start(c: Seq<u8>, q: int) -> bool {
    q == 0 || (0 < q <= c.len() && c[q - 1] == LINE_FEED)
}

/// Whether a delimiter line stands at `q`: a line starts there, and it is
/// the delimiter and nothing else.
pub open spec fn delimiter_at(c: Seq<u8>, q: int) -> bool {
    &&& is_line_start(c, q)
    &&& q + DELIMITER_LEN <= c.len()
    &&& c.subrange(q, q + DELIMITER_LEN) == delimiter()
}

/// A line that ends before the corpus does ends with a line feed.
pub proof fn lemma_line_terminated(c: Seq<u8>, q: int)
    requires
        0 <= q < c.len(),
    ensures
        q < line_end(c, q) <= c.len(),
        line_end(c, q) < c.len() ==> c[line_end(c, q) - 1] == LINE_FEED,
    decreases c.len() - q,
{
    lemma_line_end_bounds(c, q);
    if c[q] != LINE_FEED && q + 1 < c.len() {
        lemma_line_terminated(c, q + 1);
    }
}

/// No line feed lies inside a line, before its last byte.
proof fn lemma_line_holds_no_feed(c: Seq<u8>, p: int, j: int)
    requires
        0 <= p <= j < line_end(c, p) - 1,
        p < c.len(),
    ensures
        j < c.len(),
        c[j] != LINE_FEED,
    decreases j - p,
{
    lemma_line_end_bounds(c, p);
    if j > p {
        assert(c[p] != LINE_FEED);
        if p + 1 < c.len() {
            lemma_line_holds_no_feed(c, p + 1, j);
        } else {
            assert(line_end(c, p + 1) == c.len());
        }
    }
}

/// A scan stops at the first delimiter line: where it stops, a delimiter line
/// stands, and none stands before. A scan that reaches the end of the input
/// has passed no delimiter line at all.
pub proof fn lemma_scan_stops_at_first_delimiter(c: Seq<u8>, p: int)
    requires
        0 <= p <= c.len(),
        is_line_start(c, p),
    ensures
        scan(c, p) matches Stop::Delimiter(d) ==> delimiter_at(c, d) && forall|q: int|
            p <= q < d ==> !delimiter_at(c, q),
        scan(c, p) is EndOfInput ==> forall|q: int| p <= q ==> !delimiter_at(c, q),
    decreases c.len() - p,
{
    if p < c.len() && valid_utf8(line_at(c, p)) {
        let e = line_end(c, p);
        lemma_line_end_bounds(c, p);
        if line_at(c, p) == delimiter() {
            assert(line_at(c, p).len() == 3);
        } else {
            assert(!delimiter_at(c, p)) by {
                if delimiter_at(c, p) {
                    let d = c.subrange(p, p + DELIMITER_LEN);
                    assert(d[0] == PERCENT && d[1] == PERCENT && d[2] == LINE_FEED);
                    reveal_with_fuel(line_end, 3);
                    assert(line_end(c, p) == p + 3);
                }
            }
            assert forall|q: int| p < q < e implies !delimiter_at(c, q) by {
                lemma_line_holds_no_feed(c, p, q - 1);
            }
            if e < c.len() {
                lemma_line_terminated(c, p);
                lemma_scan_stops_at_first_delimiter(c, e);
            } else {
                assert(scan(c, e) is EndOfInput);
            }
        }
    }
}

/// The bytes between the start of a scan and the delimiter line it stops at
/// are valid UTF-8: they are made of lines that are.
proof fn lemma_scanned_is_text(c: Seq<u8>, p: int)
    requires
        0 <= p <= c.len(),
    ensures
        scan(c, p) matches Stop::Delimiter(d) ==> valid_utf8(c.subrange(p, d)),
    decreases c.len() - p,
{
    if p < c.len() && valid_utf8(line_at(c, p)) {
        lemma_line_end_bounds(c, p);
        if line_at(c, p) == delimiter() {
            assert(c.subrange(p, p) =~= Seq::<u8>::empty());
        } else {
            let e = line_end(c, p);
            lemma_scanned_is_text(c, e);
            lemma_scan_delimiter(c, e);
            match scan(c, e) {
                Stop::Delimiter(d) => {
                    valid_utf8_concat(c.subrange(p, e), c.subrange(e, d));
                    assert(c.subrange(p, e) + c.subrange(e, d) =~= c.subrange(p, d));
                },
                _ => {},
            }
        }
    }
}

/// Every record is text: valid UTF-8 as a whole.
pub proof fn lemma_records_are_text(c: Seq<u8>, p: int)
    requires
        0 <= p <= c.len(),
    ensures
        forall|i: int|
            0 <= i < records_from(c, p).len() ==> valid_utf8(#[trigger] records_from(c, p)[i]),
    decreases c.len() - p,
{
    lemma_scan_delimiter(c, p);
    lemma_scanned_is_text(c, p);
    match scan(c, p) {
        Stop::Delimiter(d) => {
            let rest = records_from(c, d + DELIMITER_LEN);
            lemma_records_are_text(c, d + DELIMITER_LEN);
            assert forall|i: int| 0 <= i < records_from(c, p).len() implies valid_utf8(
                #[trigger] records_from(c, p)[i],
            ) by {
                if i > 0 {
                    assert(records_from(c, p)[i] == rest[i - 1]);
                }
            }
        },
        _ => {},
    }
}

} // verus!
