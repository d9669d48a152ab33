//! The decisions of the publish loop. The loop itself runs outside: it opens
//! the corpus, waits on the pipe and watches the stop flag, and asks here what
//! to do with what it saw.

use vstd::prelude::*;
use vstd::utf8::*;
use crate::fatal::{CorpusFault, Fatal};
use crate::reservoir::{ReservoirSelector, SelectionState};
use crate::stream::{Accumulated, RecordStream, StreamStatus};

verus! {

/// Permission bits that a missing named pipe is created with.
pub const FIFO_MODE: u32 = 0o644;

/// What to do about the named pipe before the loop starts.
#[derive(Clone, Copy, PartialEq, Eq, Debug, Structural)]
pub enum PipeSetup {
    /// The pipe exists; it is used as it is.
    Ready,
    /// The pipe is missing; it is created with these permission bits.
    Create { mode: u32 },
}

/// What the worker does at the top of a cycle.
#[derive(Clone, Copy, PartialEq, Eq, Debug, Structural)]
pub enum Turn {
    /// Select a record and write it into the pipe.
    Publish,
    /// Clear the recorded process id and exit.
    Stop,
}

/// Decides whether the named pipe has to be created.
pub fn pipe_setup(present: bool) -> (setup: PipeSetup)
    ensures
        present ==> setup == PipeSetup::Ready,
        !present ==> setup == (PipeSetup::Create { mode: FIFO_MODE }),
{
    if present {
        PipeSetup::Ready
    } else {
        PipeSetup::Create { mode: FIFO_MODE }
    }
}

/// Decides, at the top of a cycle, whether to go on. The stop flag is looked
/// at here and nowhere else, so a write that is under way is never cut short.
pub fn begin_cycle(stop_requested: bool) -> (turn: Turn)
    ensures
        turn == if stop_requested {
            Turn::Stop
        } else {
            Turn::Publish
        },
{
    if stop_requested {
        Turn::Stop
    } else {
        Turn::Publish
    }
}

/// What a pass over the corpus gives the cycle to publish: the chosen record,
/// unless reading failed or no record was found, both of which are fatal.
pub open spec fn payload_of(chosen: Option<String>, read_failed: bool) -> Result<String, Fatal> {
    if read_failed {
        Err(Fatal::Corpus(CorpusFault::Unreadable))
    } else {
        match chosen {
            Some(text) => Ok(text),
            None => Err(Fatal::Corpus(CorpusFault::Empty)),
        }
    }
}

/// Turns the result of a pass over the corpus into the text to publish, or
/// into the fatal error that ends the daemon.
pub fn payload(chosen: Option<String>, read_failed: bool) -> (out: Result<String, Fatal>)
    ensures
        out == payload_of(chosen, read_failed),
{
    if read_failed {
        Err(Fatal::Corpus(CorpusFault::Unreadable))
    } else {
        match chosen {
            Some(text) => Ok(text),
            None => Err(Fatal::Corpus(CorpusFault::Empty)),
        }
    }
}

/// What a `Pass` is: the lines accumulated since the last delimiter, and the
/// selection among the records closed so far.
pub struct PassState {
    pub lines: Accumulated,
    pub selection: SelectionState,
}

impl PassState {
    /// The state before any line.
    pub open spec fn start() -> PassState {
        PassState { lines: Accumulated::start(), selection: SelectionState::start() }
    }

    /// The state after one more line. The line goes to the accumulated lines;
    /// the record that it closes, if it closes one, is offered to the
    /// selection under the draw `bits`.
    pub open spec fn after_line(self, line: Seq<u8>, bits: u64) -> PassState {
        PassState {
            lines: self.lines.after_line(line),
            selection: match self.lines.closes(line) {
                Some(record) => self.selection.after(decode_utf8(record), bits),
                None => self.selection,
            },
        }
    }

    /// The state after a read has failed.
    pub open spec fn after_failure(self) -> PassState {
        PassState { lines: self.lines.ended(StreamStatus::Failed), selection: self.selection }
    }
}

/// One pass over the corpus, fed line by line as the lines are read. It holds
/// one partial record and one chosen record, whatever the size of the corpus.
pub struct Pass {
    lines: RecordStream,
    selector: ReservoirSelector,
}

impl View for Pass {
    type V = PassState;

    closed spec fn view(&self) -> PassState {
        PassState { lines: self.lines@, selection: self.selector@ }
    }
}

impl Pass {
    /// A pass that has read nothing.
    pub fn new() -> (pass: Self)
        ensures
            pass@ == PassState::start(),
    {
        Pass { lines: RecordStream::new(), selector: ReservoirSelector::new() }
    }

    /// The number of records closed so far, as far as a `u64` can tell:
    /// beyond `u64::MAX` it stays there.
    pub fn seen(&self) -> (seen: u64)
        ensures
            seen as nat == if self@.selection.seen <= u64::MAX {
                self@.selection.seen
            } else {
                u64::MAX as nat
            },
    {
        self.selector.seen()
    }

    /// Whether the pass still takes lines.
    pub fn status(&self) -> (status: StreamStatus)
        ensures
            status == self@.lines.status,
    {
        self.lines.status()
    }

    /// Takes the next line of the corpus, with the random bits to use should
    /// the line close a record.
    pub fn line_with(&mut self, line: &str, bits: u64)
        ensures
            final(self)@ == old(self)@.after_line(encode_utf8(line@), bits),
    {
        if let Some(record) = self.lines.push_line(line) {
            proof {
                encode_utf8_decode_utf8(record@);
            }
            self.selector.consider(record, bits);
        }
    }

    /// Takes the next line of the corpus. Should the line close a record, the
    /// random bits for it are drawn from the generator of the current thread:
    /// the outcome is that of `line_with` under some draw.
    pub fn line(&mut self, line: &str)
        ensures
            exists|bits: u64|
                final(self)@ == #[trigger] old(self)@.after_line(encode_utf8(line@), bits),
    {
        if let Some(record) = self.lines.push_line(line) {
            let ghost before = self.selector@;
            self.selector.offer(record);
            proof {
                encode_utf8_decode_utf8(record@);
                let bits = choose|bits: u64| self.selector@ == before.after(record@, bits);
                assert(self@ == old(self)@.after_line(encode_utf8(line@), bits));
            }
        } else {
            assert(self@ == old(self)@.after_line(encode_utf8(line@), 0));
        }
    }

    /// Records that reading the corpus failed. The pending record is dropped
    /// and no further line is taken.
    pub fn failed(&mut self)
        ensures
            final(self)@ == old(self)@.after_failure(),
    {
        self.lines.read_failed();
    }

    /// Ends the pass: the input is over. Gives the chosen record, or the
    /// fatal error if reading had failed or no record was closed.
    pub fn finish(self) -> (out: Result<String, Fatal>)
        ensures
            out is Ok <==> self@.lines.status != StreamStatus::Failed && self@.selection.seen
                > 0,
            out matches Ok(text) ==> self@.selection.held == Some(text@),
            out matches Err(fatal) ==> fatal == Fatal::Corpus(
                if self@.lines.status == StreamStatus::Failed {
                    CorpusFault::Unreadable
                } else {
                    CorpusFault::Empty
                },
            ),
    {
        let read_failed = self.lines.status() == StreamStatus::Failed;
        payload(self.selector.finish(), read_failed)
    }
}

} // verus!
