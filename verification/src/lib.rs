//! Uniformly random selection of one delimited record from a flat-file corpus,
//! together with the decisions of the daemon that publishes such selections.
//!
//! The library does no input or output. Its callers read the corpus, probe
//! processes and write to the pipe, and hand in what they found.
//!
//! - `corpus` defines the format: lines, the delimiter line, the records of a
//!   corpus.
//! - `round_trip` states what the records give back of the corpus.
//! - `text` is the boundary between bytes and text.
//! - `stream` turns lines into records, one line at a time or over a corpus
//!   held in memory.
//! - `reservoir` picks one record out of a stream with one random draw per
//!   record.
//! - `publish` holds the decisions of the publish loop.
//! - `supervisor` keeps the daemon to a single running instance.
//! - `fatal` lists the errors that end the daemon.

pub mod corpus;
pub mod fatal;
pub mod publish;
pub mod reservoir;
pub mod round_trip;
pub mod stream;
pub mod supervisor;
pub mod text;

pub use fatal::{exit_code, CorpusFault, Fatal, PipeFault};
pub use reservoir::{accepts, select_signature, ReservoirSelector};
pub use stream::{RecordStream, StreamStatus, ToSignatures};
pub use supervisor::{is_alive, DaemonState, PidVerdict, ProbeReply};
