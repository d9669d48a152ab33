//! Record streams: the line-by-line accumulator, and a cursor that runs it over
//! a corpus held in memory.

use vstd::prelude::*;
use vstd::slice::slice_subrange;
use vstd::string::StringExecFns;
use vstd::utf8::*;
use crate::corpus::{
    delimiter, ends_badly_from, lemma_line_end_bounds, lemma_scan_delimiter, line_at, line_end,
    lines_from, records, records_from, scan, DELIMITER_LEN, LINE_FEED, PERCENT,
};
use crate::text::lemma_encode_concat;

verus! {

/// Whether a stream can still yield records, and if not, why.
#[derive(Clone, Copy, PartialEq, Eq, Debug, Structural)]
pub enum StreamStatus {
    /// Lines are still being read.
    Open,
    /// The input ended; nothing more will be yielded.
    Exhausted,
    /// A read failed; nothing more will be yielded.
    Failed,
}

/// What a `RecordStream` is: the bytes of the lines held since the last
/// delimiter, and its status.
pub struct Accumulated {
    pub pending: Seq<u8>,
    pub status: StreamStatus,
}

impl Accumulated {
    /// The state before any line.
    pub open spec fn start() -> Accumulated {
        Accumulated { pending: Seq::empty(), status: StreamStatus::Open }
    }

    /// The record that the line closes, if it closes one: the lines held, when
    /// the stream is open and the line is the delimiter line.
    pub open spec fn closes(self, line: Seq<u8>) -> Option<Seq<u8>> {
        if self.status == StreamStatus::Open && line == delimiter() {
            Some(self.pending)
        } else {
            None
        }
    }

    /// The state after the line: an open stream starts afresh at a delimiter
    /// line and holds any other line; a stream that is not open stays as it
    /// is.
    pub open spec fn after_line(self, line: Seq<u8>) -> Accumulated {
        if self.status != StreamStatus::Open {
            self
        } else if line == delimiter() {
            Accumulated::start()
        } else {
            Accumulated { pending: self.pending + line, status: StreamStatus::Open }
        }
    }

    /// The state after reading has ended in the way `how`: the lines held are
    /// dropped, and an open stream takes the status `how`.
    pub open spec fn ended(self, how: StreamStatus) -> Accumulated {
        Accumulated {
            pending: Seq::empty(),
            status: if self.status == StreamStatus::Open {
                how
            } else {
                self.status
            },
        }
    }
}

/// The records that a stream in the state `state` yields when it is given
/// `lines` one after the other.
pub open spec fn yielded(state: Accumulated, lines: Seq<Seq<u8>>) -> Seq<Seq<u8>>
    decreases lines.len(),
{
    if lines.len() == 0 {
        Seq::empty()
    } else {
        let rest = yielded(state.after_line(lines[0]), lines.drop_first());
        match state.closes(lines[0]) {
            Some(record) => seq![record] + rest,
            None => rest,
        }
    }
}

/// A stream that holds the bytes from `start` to the line start `p`, none of
/// which closed a record, and is given the lines from `p` on, yields the
/// records that are read from `start`.
proof fn lemma_resumed_lines_yield_records(c: Seq<u8>, start: int, p: int)
    requires
        0 <= start <= p <= c.len(),
        scan(c, p) == scan(c, start),
    ensures
        yielded(
            Accumulated { pending: c.subrange(start, p), status: StreamStatus::Open },
            lines_from(c, p),
        ) == records_from(c, start),
    decreases c.len() - p,
{
    let state = Accumulated { pending: c.subrange(start, p), status: StreamStatus::Open };
    if p < c.len() && valid_utf8(line_at(c, p)) {
        let line = line_at(c, p);
        let e = line_end(c, p);
        let lines = lines_from(c, p);
        lemma_line_end_bounds(c, p);
        lemma_scan_delimiter(c, start);
        assert(lines[0] == line);
        assert(lines.drop_first() =~= lines_from(c, e));
        if line == delimiter() {
            assert(c.subrange(e, e) =~= Seq::<u8>::empty());
            lemma_resumed_lines_yield_records(c, e, e);
        } else {
            assert(c.subrange(start, p) + line =~= c.subrange(start, e));
            lemma_resumed_lines_yield_records(c, start, e);
        }
    }
}

/// Reading line by line agrees with the format: a fresh stream that is given
/// the lines of a corpus one after the other yields the records of the corpus.
pub proof fn lemma_lines_yield_records(c: Seq<u8>)
    ensures
        yielded(Accumulated::start(), lines_from(c, 0)) == records(c),
{
    assert(c.subrange(0, 0) =~= Seq::<u8>::empty());
    lemma_resumed_lines_yield_records(c, 0, 0);
}

/// Accumulates lines into records. It holds one partial record at a time and
/// never more.
pub struct RecordStream {
    pending: String,
    status: StreamStatus,
}

impl View for RecordStream {
    type V = Accumulated;

    closed spec fn view(&self) -> Accumulated {
        Accumulated { pending: encode_utf8(self.pending@), status: self.status }
    }
}

/// Tells whether a line is the delimiter line.
pub fn is_delimiter_line(line: &str) -> (yes: bool)
    ensures
        yes == (encode_utf8(line@) == delimiter()),
{
    let bytes = line.as_bytes();
    let yes = bytes.len() == DELIMITER_LEN && bytes[0] == PERCENT && bytes[1] == PERCENT
        && bytes[2] == LINE_FEED;
    proof {
        let d = delimiter();
        assert(d.len() == 3 && d[0] == PERCENT && d[1] == PERCENT && d[2] == LINE_FEED);
        if yes {
            assert(bytes@ =~= d);
        }
    }
    yes
}

impl RecordStream {
    /// An open stream that holds nothing.
    pub fn new() -> (stream: Self)
        ensures
            stream@ == Accumulated::start(),
    {
        RecordStream { pending: String::new(), status: StreamStatus::Open }
    }

    /// The status of the stream.
    pub fn status(&self) -> (status: StreamStatus)
        ensures
            status == self@.status,
    {
        self.status
    }

    /// Takes the next line of the input. A delimiter line closes the record
    /// held so far, which is returned and replaced by an empty one; any other
    /// line is added to the record. A stream that is no longer open ignores
    /// the line.
    pub fn push_line(&mut self, line: &str) -> (emitted: Option<String>)
        ensures
            final(self)@ == old(self)@.after_line(encode_utf8(line@)),
            match emitted {
                Some(record) => old(self)@.closes(encode_utf8(line@)) == Some(
                    encode_utf8(record@),
                ),
                None => old(self)@.closes(encode_utf8(line@)) is None,
            },
    {
        if self.status != StreamStatus::Open {
            return None;
        }
        if is_delimiter_line(line) {
            let mut record = String::new();
            core::mem::swap(&mut self.pending, &mut record);
            Some(record)
        } else {
            proof {
                lemma_encode_concat(self.pending@, line@);
            }
            self.pending.append(line);
            None
        }
    }

    /// Records that the input has ended. The partial record is dropped; an
    /// open stream becomes exhausted.
    pub fn end_of_input(&mut self)
        ensures
            final(self)@ == old(self)@.ended(StreamStatus::Exhausted),
    {
        self.pending = String::new();
        if self.status == StreamStatus::Open {
            self.status = StreamStatus::Exhausted;
        }
    }

    /// Records that a read failed. The partial record is dropped; an open
    /// stream becomes failed.
    pub fn read_failed(&mut self)
        ensures
            final(self)@ == old(self)@.ended(StreamStatus::Failed),
    {
        self.pending = String::new();
        if self.status == StreamStatus::Open {
            self.status = StreamStatus::Failed;
        }
    }
}

/// What a `ToSignatures` is: a corpus, the line start at which reading
/// resumes, and the status of the stream.
pub struct Cursor {
    pub source: Seq<u8>,
    pub pos: int,
    pub status: StreamStatus,
}

impl Cursor {
    /// The records still to come, in order.
    pub open spec fn remaining(self) -> Seq<Seq<u8>> {
        if self.status == StreamStatus::Open {
            records_from(self.source, self.pos)
        } else {
            Seq::empty()
        }
    }

    /// The status in which the stream ends once the remaining records have
    /// been taken.
    pub open spec fn outcome(self) -> StreamStatus {
        if self.status != StreamStatus::Open {
            self.status
        } else if ends_badly_from(self.source, self.pos) {
            StreamStatus::Failed
        } else {
            StreamStatus::Exhausted
        }
    }
}

/// The records of a corpus held in memory, one at a time and in order. Once it
/// has returned `None` it never yields a record again.
pub struct ToSignatures<'a> {
    source: &'a [u8],
    pos: usize,
    status: StreamStatus,
}

impl<'a> View for ToSignatures<'a> {
    type V = Cursor;

    closed spec fn view(&self) -> Cursor {
        Cursor { source: self.source@, pos: self.pos as int, status: self.status }
    }
}

/// Finds the end of the line that starts at `start`.
fn find_line_end(source: &[u8], start: usize) -> (end: usize)
    requires
        start < source@.len(),
    ensures
        end == line_end(source@, start as int),
        start < end <= source@.len(),
{
    let mut i: usize = start;
    while i < source.len()
        invariant
            start <= i <= source@.len(),
            line_end(source@, i as int) == line_end(source@, start as int),
        decreases source@.len() - i,
    {
        if source[i] == LINE_FEED {
            proof {
                lemma_line_end_bounds(source@, start as int);
            }
            return i + 1;
        }
        i += 1;
    }
    proof {
        lemma_line_end_bounds(source@, start as int);
    }
    i
}

impl<'a> ToSignatures<'a> {
    #[verifier::type_invariant]
    spec fn in_bounds(self) -> bool {
        self.pos <= self.source@.len()
    }

    /// A stream over `source`, positioned at its start.
    pub fn new(source: &'a [u8]) -> (stream: Self)
        ensures
            stream@ == (Cursor { source: source@, pos: 0, status: StreamStatus::Open }),
    {
        ToSignatures { source, pos: 0, status: StreamStatus::Open }
    }

    /// The status of the stream.
    pub fn status(&self) -> (status: StreamStatus)
        ensures
            status == self@.status,
    {
        self.status
    }

    /// The next record, or `None` once the input has ended or a line could not
    /// be decoded. Lines read after the last delimiter are dropped.
    pub fn next(&mut self) -> (record: Option<String>)
        ensures
            final(self)@.source == old(self)@.source,
            final(self)@.outcome() == old(self)@.outcome(),
            match record {
                Some(text) => {
                    &&& old(self)@.remaining().len() > 0
                    &&& encode_utf8(text@) == old(self)@.remaining()[0]
                    &&& final(self)@.remaining() == old(self)@.remaining().drop_first()
                    &&& final(self)@.status == StreamStatus::Open
                },
                None => {
                    &&& old(self)@.remaining().len() == 0
                    &&& final(self)@.status == old(self)@.outcome()
                },
            },
    {
        proof {
            use_type_invariant(&*self);
        }
        if self.status != StreamStatus::Open {
            return None;
        }
        let ghost start = self.pos as int;
        let mut lines = RecordStream::new();
        loop
            invariant
                self.source@ == old(self).source@,
                self.status == StreamStatus::Open,
                old(self).status == StreamStatus::Open,
                lines@.status == StreamStatus::Open,
                start == old(self).pos,
                start <= self.pos <= self.source@.len(),
                lines@.pending == self.source@.subrange(start, self.pos as int),
                scan(self.source@, self.pos as int) == scan(self.source@, start),
            decreases self.source@.len() - self.pos,
        {
            if self.pos >= self.source.len() {
                self.status = StreamStatus::Exhausted;
                return None;
            }
            let end = find_line_end(self.source, self.pos);
            let line_bytes = slice_subrange(self.source, self.pos, end);
            match core::str::from_utf8(line_bytes) {
                Err(_) => {
                    self.status = StreamStatus::Failed;
                    return None;
                },
                Ok(line) => {
                    let emitted = lines.push_line(line);
                    proof {
                        lemma_scan_delimiter(self.source@, start);
                        assert(self.source@.subrange(start, self.pos as int)
                            + self.source@.subrange(self.pos as int, end as int)
                            =~= self.source@.subrange(start, end as int));
                    }
                    self.pos = end;
                    if let Some(text) = emitted {
                        proof {
                            let rest = records_from(self.source@, end as int);
                            let first = self.source@.subrange(start, end - DELIMITER_LEN);
                            assert((seq![first] + rest).drop_first() =~= rest);
                        }
                        return Some(text);
                    }
                },
            }
        }
    }

    /// All the records still to come, in order. The stream is spent
    /// afterwards.
    pub fn collect(&mut self) -> (all: Vec<String>)
        ensures
            final(self)@.source == old(self)@.source,
            final(self)@.status == old(self)@.outcome(),
            all@.len() == old(self)@.remaining().len(),
            forall|i: int|
                0 <= i < all@.len() ==> encode_utf8(#[trigger] all@[i]@) == old(
                    self,
                )@.remaining()[i],
    {
        let mut all: Vec<String> = Vec::new();
        loop
            invariant
                self@.source == old(self)@.source,
                self@.outcome() == old(self)@.outcome(),
                all@.len() + self@.remaining().len() == old(self)@.remaining().len(),
                forall|i: int|
                    0 <= i < all@.len() ==> encode_utf8(#[trigger] all@[i]@) == old(
                        self,
                    )@.remaining()[i],
                forall|j: int|
                    0 <= j < self@.remaining().len() ==> #[trigger] self@.remaining()[j] == old(
                        self,
                    )@.remaining()[all@.len() + j],
            decreases self@.remaining().len(),
        {
            match self.next() {
                None => {
                    return all;
                },
                Some(text) => {
                    all.push(text);
                },
            }
        }
    }
}

} // verus!
