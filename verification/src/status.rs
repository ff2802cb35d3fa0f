//! Job statuses and the lifecycle state machine.

use vstd::prelude::*;

verus! {

/// The lifecycle state of a job.
///
/// A job is created `Queued`, becomes `Running` when a worker claims it, and
/// ends in one of the terminal statuses. The monitor may send a stalled
/// `Running` job back to `Queued` while it has retries left, or to `TimedOut`
/// once they are exhausted.
#[derive(Clone, Copy, PartialEq, Eq, Debug, Structural)]
pub enum Status {
    Queued,
    Running,
    Completed,
    Failed,
    Cancelled,
    TimedOut,
}

impl Status {
    /// A terminal status is a sink: no transition leaves it.
    pub open spec fn spec_is_terminal(self) -> bool {
        match self {
            Status::Completed => true,
            Status::Failed => true,
            Status::Cancelled => true,
            Status::TimedOut => true,
            Status::Queued => false,
            Status::Running => false,
        }
    }

    /// Whether this status is terminal.
    #[verifier::when_used_as_spec(spec_is_terminal)]
    pub fn is_terminal(self) -> (r: bool)
        ensures
            r == self.spec_is_terminal(),
    {
        match self {
            Status::Completed => true,
            Status::Failed => true,
            Status::Cancelled => true,
            Status::TimedOut => true,
            Status::Queued => false,
            Status::Running => false,
        }
    }

    /// The transition table of the state machine:
    /// `Queued -> Running` (claim), `Queued -> Cancelled` (cancel before
    /// pickup), `Running -> {Completed, Failed, Cancelled, TimedOut}`, and
    /// `Running -> Queued` (the retry path). Everything else is refused.
    pub open spec fn spec_can_transition(self, to: Status) -> bool {
        ||| (self == Status::Queued && to == Status::Running)
        ||| (self == Status::Queued && to == Status::Cancelled)
        ||| (self == Status::Running && to == Status::Completed)
        ||| (self == Status::Running && to == Status::Failed)
        ||| (self == Status::Running && to == Status::Cancelled)
        ||| (self == Status::Running && to == Status::TimedOut)
        ||| (self == Status::Running && to == Status::Queued)
    }

    /// Whether the state machine allows the transition `self -> to`.
    #[verifier::when_used_as_spec(spec_can_transition)]
    pub fn can_transition(self, to: Status) -> (r: bool)
        ensures
            r == self.spec_can_transition(to),
    {
        match self {
            Status::Queued => match to {
                Status::Running => true,
                Status::Cancelled => true,
                _ => false,
            },
            Status::Running => match to {
                Status::Completed => true,
                Status::Failed => true,
                Status::Cancelled => true,
                Status::TimedOut => true,
                Status::Queued => true,
                _ => false,
            },
            _ => false,
        }
    }
}

/// Law: every terminal status is a sink of the state machine; in particular
/// no status change at all is permitted on a `Completed` job.
pub proof fn lemma_terminal_is_sink(s: Status, t: Status)
    ensures
        s.spec_is_terminal() ==> !s.spec_can_transition(t),
{
}

} // verus!
