//! The phases of the service, and what each socket operation does to them.
//!
//! A service starts unbound, is bound once its socket is bound, and serves
//! from the first connection accepted or datagram received. The first socket
//! operation that fails, whichever it is, ends the service: there is no retry
//! and no way back, and the process leaves with the exit code of a failure.

use crate::config::Protocol;
use vstd::prelude::*;

verus! {

/// The exit code of a process that ends on a usage error or on a failed
/// socket operation. The service has no other way to end by itself.
pub const EXIT_FAILURE: i32 = 1;

/// Where the service stands.
#[derive(Clone, Copy, Debug, PartialEq, Eq, Structural)]
pub enum Phase {
    /// Nothing is bound yet.
    Unbound,
    /// The socket is bound; nothing has been accepted or received.
    Bound,
    /// Connections or datagrams are being handled.
    Serving,
    /// A socket operation has failed; the process exits.
    Terminated,
}

/// A socket operation of the service.
#[derive(Clone, Copy, Debug, PartialEq, Eq, Structural)]
pub enum Operation {
    /// Binding the listening socket.
    Bind,
    /// Accepting a stream connection.
    Accept,
    /// Reading from a stream connection.
    Read,
    /// Writing the reply to a stream connection.
    Write,
    /// Receiving a datagram.
    Receive,
    /// Sending the reply to a datagram.
    Send,
}

/// How a socket operation ended.
#[derive(Clone, Copy, Debug, PartialEq, Eq, Structural)]
pub enum Outcome {
    /// It did what was asked.
    Completed,
    /// It reported an error.
    Failed,
}

impl Operation {
    /// The operation is one that a service on `protocol` performs.
    pub open spec fn belongs_to(self, protocol: Protocol) -> bool {
        match self {
            Operation::Bind => true,
            Operation::Accept | Operation::Read | Operation::Write => protocol
                == Protocol::Stream,
            Operation::Receive | Operation::Send => protocol == Protocol::Datagram,
        }
    }

    /// Whether the operation is one that a service on `protocol` performs.
    pub fn is_used_by(self, protocol: Protocol) -> (used: bool)
        ensures
            used == self.belongs_to(protocol),
    {
        match self {
            Operation::Bind => true,
            Operation::Accept | Operation::Read | Operation::Write => match protocol {
                Protocol::Stream => true,
                Protocol::Datagram => false,
            },
            Operation::Receive | Operation::Send => match protocol {
                Protocol::Stream => false,
                Protocol::Datagram => true,
            },
        }
    }
}

/// The phase that follows `phase` when `operation` ends with `outcome`, for
/// a service on `protocol`; `None` where the service never performs that
/// operation in that phase.
///
/// Binding comes first and only once. Every other operation of the protocol
/// may follow in any number. A completed operation moves the service
/// forward, a failed one ends it.
pub open spec fn next_phase(
    protocol: Protocol,
    phase: Phase,
    operation: Operation,
    outcome: Outcome,
) -> Option<Phase> {
    let performed = operation.belongs_to(protocol) && match phase {
        Phase::Unbound => operation == Operation::Bind,
        Phase::Bound | Phase::Serving => operation != Operation::Bind,
        Phase::Terminated => false,
    };
    if !performed {
        None
    } else if outcome == Outcome::Failed {
        Some(Phase::Terminated)
    } else if phase == Phase::Unbound {
        Some(Phase::Bound)
    } else {
        Some(Phase::Serving)
    }
}

/// The phase after a run of operations, each with its outcome, in the order
/// they ended; `None` where the service never performs such a run.
pub open spec fn phase_after(
    protocol: Protocol,
    phase: Phase,
    events: Seq<(Operation, Outcome)>,
) -> Option<Phase>
    decreases events.len(),
{
    if events.len() == 0 {
        Some(phase)
    } else {
        match phase_after(protocol, phase, events.drop_last()) {
            Some(reached) => next_phase(protocol, reached, events.last().0, events.last().1),
            None => None,
        }
    }
}

impl Phase {
    /// How far along the phase is: a service only ever moves to a phase
    /// that is further along.
    pub open spec fn rank(self) -> nat {
        match self {
            Phase::Unbound => 0,
            Phase::Bound => 1,
            Phase::Serving => 2,
            Phase::Terminated => 3,
        }
    }

    /// The phase that follows when `operation` ends with `outcome`.
    pub fn after(self, protocol: Protocol, operation: Operation, outcome: Outcome) -> (next:
        Option<Phase>)
        ensures
            next == next_phase(protocol, self, operation, outcome),
    {
        if !operation.is_used_by(protocol) {
            return None;
        }
        let binding = match operation {
            Operation::Bind => true,
            _ => false,
        };
        let failed = match outcome {
            Outcome::Failed => true,
            Outcome::Completed => false,
        };
        match self {
            Phase::Unbound => if !binding {
                None
            } else if failed {
                Some(Phase::Terminated)
            } else {
                Some(Phase::Bound)
            },
            Phase::Bound | Phase::Serving => if binding {
                None
            } else if failed {
                Some(Phase::Terminated)
            } else {
                Some(Phase::Serving)
            },
            Phase::Terminated => None,
        }
    }

    /// The exit code that the process leaves with in this phase, if it
    /// leaves: that of a failure once the service is terminated, and none
    /// before, since a service that does not fail runs on.
    pub fn exit_code(self) -> (code: Option<i32>)
        ensures
            code == (if self == Phase::Terminated {
                Some(EXIT_FAILURE)
            } else {
                None
            }),
    {
        match self {
            Phase::Terminated => Some(EXIT_FAILURE),
            _ => None,
        }
    }
}

/// One step of the service: a failure always ends it, nothing else does,
/// no step leads back, and nothing follows the end.
pub proof fn lemma_step(protocol: Protocol, phase: Phase, operation: Operation, outcome: Outcome)
    ensures
        next_phase(protocol, phase, operation, outcome) matches Some(next) ==> {
            &&& (next == Phase::Terminated <==> outcome == Outcome::Failed)
            &&& next.rank() > phase.rank() || (phase == Phase::Serving && next == Phase::Serving)
        },
        next_phase(protocol, phase, operation, Outcome::Failed) is Some <==> next_phase(
            protocol,
            phase,
            operation,
            Outcome::Completed,
        ) is Some,
        phase == Phase::Terminated ==> next_phase(protocol, phase, operation, outcome) is None,
{
}

/// Fail fast: in any run that the service performs, a failed operation is
/// the last one, and the run ends terminated exactly if its last operation
/// failed.
pub proof fn lemma_fail_fast(
    protocol: Protocol,
    phase: Phase,
    events: Seq<(Operation, Outcome)>,
)
    requires
        phase != Phase::Terminated,
        phase_after(protocol, phase, events) is Some,
    ensures
        forall|i: int|
            0 <= i < events.len() && (#[trigger] events[i]).1 == Outcome::Failed ==> i
                == events.len() - 1,
        phase_after(protocol, phase, events) == Some(Phase::Terminated) <==> events.len() > 0
            && events.last().1 == Outcome::Failed,
    decreases events.len(),
{
    if events.len() > 0 {
        let before = events.drop_last();
        let reached = phase_after(protocol, phase, before)->Some_0;
        lemma_fail_fast(protocol, phase, before);
        lemma_step(protocol, reached, events.last().0, events.last().1);
        assert forall|i: int|
            0 <= i < events.len() && (#[trigger] events[i]).1 == Outcome::Failed implies i
            == events.len() - 1 by {
            if i < before.len() {
                assert(before[i] == events[i]);
            }
        }
    }
}

} // verus!
