//! Round trip: what the records of a corpus give back of it.
//!
//! The records, each followed by a delimiter line, are the corpus up to the
//! end of its last record, byte for byte; and that much of the corpus reads
//! back to the same records.

use vstd::prelude::*;
use crate::corpus::{
    delimiter, ends_badly_from, lemma_line_end_bounds, lemma_line_terminated,
    lemma_scan_delimiter, line_at, line_end, records, records_from, scan, Stop, DELIMITER_LEN,
    LINE_FEED,
};

verus! {

/// Where reading from the line start `p` stops yielding records: just past
/// the delimiter line of the last record.
pub open spec fn consumed_from(c: Seq<u8>, p: int) -> int
    decreases c.len() - p,
{
    match scan(c, p) {
        Stop::Delimiter(d) => {
            proof {
                lemma_scan_delimiter(c, p);
            }
            consumed_from(c, d + DELIMITER_LEN)
        },
        _ => p,
    }
}

/// The part of a corpus that its records are read from: everything up to the
/// end of the last record's delimiter line. What follows is cut off.
pub open spec fn complete_prefix(c: Seq<u8>) -> Seq<u8> {
    c.subrange(0, consumed_from(c, 0))
}

/// The records one after the other, each followed by a delimiter line.
pub open spec fn framed(rs: Seq<Seq<u8>>) -> Seq<u8>
    decreases rs.len(),
{
    if rs.len() == 0 {
        Seq::empty()
    } else {
        rs[0] + delimiter() + framed(rs.drop_first())
    }
}

/// The records joined by delimiter lines: one between each two, none at the
/// end.
pub open spec fn joined(rs: Seq<Seq<u8>>) -> Seq<u8>
    decreases rs.len(),
{
    if rs.len() == 0 {
        Seq::empty()
    } else if rs.len() == 1 {
        rs[0]
    } else {
        rs[0] + delimiter() + joined(rs.drop_first())
    }
}

/// Reading stops yielding records at a position inside the corpus, at or after
/// the start, and yields none from there on.
pub proof fn lemma_consumed(c: Seq<u8>, p: int)
    requires
        0 <= p <= c.len(),
    ensures
        p <= consumed_from(c, p) <= c.len(),
        records_from(c, consumed_from(c, p)).len() == 0,
        ends_badly_from(c, consumed_from(c, p)) == ends_badly_from(c, p),
    decreases c.len() - p,
{
    lemma_scan_delimiter(c, p);
    match scan(c, p) {
        Stop::Delimiter(d) => {
            lemma_consumed(c, d + DELIMITER_LEN);
        },
        _ => {},
    }
}

/// The records read from `p`, each followed by a delimiter line, are the
/// bytes of the corpus from `p` to where reading stops yielding records.
pub proof fn lemma_framed_records(c: Seq<u8>, p: int)
    requires
        0 <= p <= c.len(),
    ensures
        framed(records_from(c, p)) == c.subrange(p, consumed_from(c, p)),
    decreases c.len() - p,
{
    lemma_scan_delimiter(c, p);
    match scan(c, p) {
        Stop::Delimiter(d) => {
            let next = d + DELIMITER_LEN;
            let rest = records_from(c, next);
            let all = records_from(c, p);
            lemma_framed_records(c, next);
            lemma_consumed(c, next);
            assert(all[0] == c.subrange(p, d));
            assert(all.drop_first() =~= rest);
            assert(c.subrange(p, d) + c.subrange(d, next) + c.subrange(next, consumed_from(c, next))
                =~= c.subrange(p, consumed_from(c, p)));
        },
        _ => {
            assert(c.subrange(p, p) =~= Seq::<u8>::empty());
        },
    }
}

/// Joining records by delimiter lines and adding one more at the end is the
/// same as following each record by a delimiter line, when there is a record.
pub proof fn lemma_joined_then_delimiter(rs: Seq<Seq<u8>>)
    requires
        rs.len() > 0,
    ensures
        joined(rs) + delimiter() == framed(rs),
    decreases rs.len(),
{
    if rs.len() == 1 {
        assert(framed(rs.drop_first()) =~= Seq::<u8>::empty());
        assert(rs[0] + delimiter() + Seq::<u8>::empty() =~= rs[0] + delimiter());
    } else {
        lemma_joined_then_delimiter(rs.drop_first());
        assert(rs[0] + delimiter() + joined(rs.drop_first()) + delimiter() =~= rs[0] + delimiter()
            + (joined(rs.drop_first()) + delimiter()));
    }
}

/// Round trip: the records of a corpus, joined by delimiter lines and followed
/// by one more, give back the corpus up to the end of its last record, byte
/// for byte.
pub proof fn lemma_round_trip(c: Seq<u8>)
    requires
        records(c).len() > 0,
    ensures
        joined(records(c)) + delimiter() == complete_prefix(c),
{
    lemma_joined_then_delimiter(records(c));
    lemma_framed_records(c, 0);
}

/// A line that ends with a line feed is the same line in every prefix of the
/// corpus that holds it whole.
proof fn lemma_line_in_prefix(c: Seq<u8>, n: int, q: int)
    requires
        0 <= q < n <= c.len(),
        line_end(c, q) <= n,
        c[line_end(c, q) - 1] == LINE_FEED,
    ensures
        line_end(c.subrange(0, n), q) == line_end(c, q),
        line_at(c.subrange(0, n), q) == line_at(c, q),
    decreases c.len() - q,
{
    let short = c.subrange(0, n);
    lemma_line_end_bounds(c, q);
    if c[q] != LINE_FEED {
        if q + 1 < c.len() {
            lemma_line_end_bounds(c, q + 1);
            lemma_line_in_prefix(c, n, q + 1);
        }
    }
    assert(short.subrange(q, line_end(c, q)) =~= c.subrange(q, line_end(c, q)));
}

/// A scan that stops at a delimiter line stops at the same one in every
/// prefix of the corpus that holds that line whole.
proof fn lemma_scan_in_prefix(c: Seq<u8>, n: int, p: int)
    requires
        0 <= p <= n <= c.len(),
    ensures
        scan(c, p) matches Stop::Delimiter(d) ==> (d + DELIMITER_LEN <= n ==> scan(
            c.subrange(0, n),
            p,
        ) == Stop::Delimiter(d)),
    decreases c.len() - p,
{
    lemma_scan_delimiter(c, p);
    match scan(c, p) {
        Stop::Delimiter(d) => {
            if d + DELIMITER_LEN <= n {
                let e = line_end(c, p);
                lemma_line_terminated(c, p);
                if line_at(c, p) == delimiter() {
                    assert(line_at(c, p)[2] == LINE_FEED);
                    assert(c[e - 1] == LINE_FEED);
                    lemma_line_in_prefix(c, n, p);
                } else {
                    lemma_scan_delimiter(c, e);
                    lemma_line_in_prefix(c, n, p);
                    lemma_scan_in_prefix(c, n, e);
                }
            }
        },
        _ => {},
    }
}

/// Reading the corpus up to where its records end yields the same records,
/// and ends without a failure at the end of the input.
proof fn lemma_records_in_prefix(c: Seq<u8>, p: int)
    requires
        0 <= p <= c.len(),
    ensures
        p <= consumed_from(c, p) <= c.len(),
        records_from(c.subrange(0, consumed_from(c, p)), p) == records_from(c, p),
        !ends_badly_from(c.subrange(0, consumed_from(c, p)), p),
        consumed_from(c.subrange(0, consumed_from(c, p)), p) == consumed_from(c, p),
    decreases c.len() - p,
{
    let k = consumed_from(c, p);
    let short = c.subrange(0, k);
    lemma_consumed(c, p);
    lemma_scan_delimiter(c, p);
    match scan(c, p) {
        Stop::Delimiter(d) => {
            let next = d + DELIMITER_LEN;
            lemma_consumed(c, next);
            lemma_scan_in_prefix(c, k, p);
            lemma_records_in_prefix(c, next);
            assert(short.subrange(p, d) =~= c.subrange(p, d));
        },
        _ => {},
    }
}

/// The complete prefix of a corpus is a corpus in its own right: it holds the
/// same records, nothing of it is cut off, and reading it ends at the end of
/// the input and not in a failure.
pub proof fn lemma_prefix_is_complete(c: Seq<u8>)
    ensures
        records(complete_prefix(c)) == records(c),
        complete_prefix(complete_prefix(c)) == complete_prefix(c),
        !ends_badly_from(complete_prefix(c), 0),
{
    lemma_records_in_prefix(c, 0);
    let short = complete_prefix(c);
    assert(short.subrange(0, short.len() as int) =~= short);
}

} // verus!
