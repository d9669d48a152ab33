//! Single-instance supervision: what the daemon does with the process id that
//! an earlier run may have left behind, and when it records or clears its own.
//!
//! The recorded id is never trusted as it stands. The caller probes whether
//! the process it names exists and hands the answer in; the decisions are made
//! here.

use vstd::prelude::*;
use vstd::string::StringExecFns;
use crate::fatal::Fatal;

verus! {

/// Where the named pipe lies under the home directory, unless configured
/// otherwise.
pub const DEFAULT_FIFO: &'static str = "/.signature";

/// Where the corpus lies under the home directory, unless configured
/// otherwise.
pub const DEFAULT_SOURCE: &'static str = "/.sigfile";

/// The persisted state of the daemon.
pub struct DaemonState {
    /// Path of the named pipe that records are written to.
    pub fifo_path: String,
    /// Path of the corpus that records are drawn from.
    pub source_path: String,
    /// Process id of the running instance, if one is recorded.
    pub pid: Option<i32>,
}

/// What a recorded process id turned out to be at startup.
#[derive(Clone, Copy, PartialEq, Eq, Debug, Structural)]
pub enum PidVerdict {
    /// No process id was recorded.
    Absent,
    /// The recorded id is 1 or less, which no daemon can have; it is ignored.
    Invalid(i32),
    /// The recorded process no longer exists; the record is overwritten.
    Stale(i32),
}

/// How the operating system answered the null signal sent to a process: the
/// probe that tells whether the process exists without disturbing it.
#[derive(Clone, Copy, PartialEq, Eq, Debug, Structural)]
pub enum ProbeReply {
    /// The signal could have been delivered.
    Deliverable,
    /// The process exists, but signals to it are not permitted.
    NotPermitted,
    /// No process has that id.
    NoSuchProcess,
}

/// Whether a probe found the process in existence. A process that may not be
/// signalled exists all the same.
pub open spec fn exists_by(reply: ProbeReply) -> bool {
    reply != ProbeReply::NoSuchProcess
}

/// Tells whether a probe found the process in existence.
pub fn is_alive(reply: ProbeReply) -> (alive: bool)
    ensures
        alive == exists_by(reply),
{
    match reply {
        ProbeReply::Deliverable => true,
        ProbeReply::NotPermitted => true,
        ProbeReply::NoSuchProcess => false,
    }
}

/// Whether a recorded process id can name a daemon at all: ids up to 1 are
/// reserved.
pub open spec fn names_a_process(pid: i32) -> bool {
    pid > 1
}

/// The process whose existence has to be probed before startup.
pub open spec fn probe_due(pid: Option<i32>) -> Option<i32> {
    match pid {
        Some(p) if names_a_process(p) => Some(p),
        _ => None,
    }
}

/// The startup check, given whether the probed process is alive. `alive` has
/// no bearing where no probe is due.
pub open spec fn startup(pid: Option<i32>, alive: bool) -> Result<PidVerdict, Fatal> {
    match pid {
        None => Ok(PidVerdict::Absent),
        Some(p) => if !names_a_process(p) {
            Ok(PidVerdict::Invalid(p))
        } else if alive {
            Err(Fatal::SingletonViolation { pid: p })
        } else {
            Ok(PidVerdict::Stale(p))
        },
    }
}

impl DaemonState {
    /// This state with no process id recorded.
    pub open spec fn cleared(self) -> DaemonState {
        DaemonState { pid: None, ..self }
    }

    /// This state with `worker` recorded as the running instance.
    pub open spec fn held_by(self, worker: i32) -> DaemonState {
        DaemonState { pid: Some(worker), ..self }
    }

    /// A state with the given paths and no process id.
    pub fn new(fifo_path: String, source_path: String) -> (state: Self)
        ensures
            state == (DaemonState { fifo_path, source_path, pid: None }),
    {
        DaemonState { fifo_path, source_path, pid: None }
    }

    /// The state of a daemon that was never configured: the pipe and the
    /// corpus lie under the home directory `home`, and no process id is
    /// recorded.
    pub fn under_home(home: &str) -> (state: Self)
        ensures
            state.fifo_path@ == home@ + DEFAULT_FIFO@,
            state.source_path@ == home@ + DEFAULT_SOURCE@,
            state.pid is None,
    {
        DaemonState {
            fifo_path: String::from_str(home).concat(DEFAULT_FIFO),
            source_path: String::from_str(home).concat(DEFAULT_SOURCE),
            pid: None,
        }
    }

    /// The process id whose existence the caller has to probe before it calls
    /// `claim`, if there is one.
    pub fn probe_target(&self) -> (target: Option<i32>)
        ensures
            target == probe_due(self.pid),
    {
        match self.pid {
            Some(p) => if p > 1 {
                Some(p)
            } else {
                None
            },
            None => None,
        }
    }

    /// Claims the single running instance. `alive` says whether the process
    /// named by `probe_target` exists. If it does, another instance is
    /// running: the claim fails and the state is left as it was. Otherwise
    /// the recorded id is cleared, to be persisted before the daemon
    /// detaches.
    pub fn claim(&mut self, alive: bool) -> (outcome: Result<PidVerdict, Fatal>)
        ensures
            outcome == startup(old(self).pid, alive),
            *final(self) == if outcome is Ok {
                old(self).cleared()
            } else {
                *old(self)
            },
    {
        match self.pid {
            None => Ok(PidVerdict::Absent),
            Some(p) => {
                if p <= 1 {
                    self.pid = None;
                    Ok(PidVerdict::Invalid(p))
                } else if alive {
                    Err(Fatal::SingletonViolation { pid: p })
                } else {
                    self.pid = None;
                    Ok(PidVerdict::Stale(p))
                }
            },
        }
    }

    /// Records the detached worker as the running instance.
    pub fn record_worker(&mut self, worker: i32)
        ensures
            *final(self) == old(self).held_by(worker),
    {
        self.pid = Some(worker);
    }

    /// Clears the recorded process id at a clean shutdown.
    pub fn release(&mut self)
        ensures
            *final(self) == old(self).cleared(),
    {
        self.pid = None;
    }

    /// Clears the recorded process id on the way out of a fatal error, unless
    /// the error is that another instance is running: the id is then that
    /// instance's own and stays.
    pub fn abandon(&mut self, fatal: Fatal)
        ensures
            *final(self) == if fatal is SingletonViolation {
                *old(self)
            } else {
                old(self).cleared()
            },
    {
        match fatal {
            Fatal::SingletonViolation { .. } => {},
            _ => {
                self.pid = None;
            },
        }
    }
}

/// A live process under the recorded id always stops the startup, and names
/// that id; a recorded id whose process is gone never does.
pub proof fn lemma_live_instance_blocks(pid: i32, alive: bool)
    requires
        names_a_process(pid),
    ensures
        alive ==> startup(Some(pid), alive) == Err::<PidVerdict, Fatal>(
            Fatal::SingletonViolation { pid },
        ),
        !alive ==> startup(Some(pid), alive) == Ok::<PidVerdict, Fatal>(PidVerdict::Stale(pid)),
{
}

/// After a clean shutdown the next startup is never refused, whatever the
/// probe would say.
pub proof fn lemma_restart_after_release(state: DaemonState, alive: bool)
    ensures
        startup(state.cleared().pid, alive) == Ok::<PidVerdict, Fatal>(PidVerdict::Absent),
{
}

} // verus!
