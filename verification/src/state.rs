use vstd::prelude::*;

use crate::error::Error;

verus! {

/// The lifecycle of a coroutine.  Exactly one variant holds at any instant;
/// the transitions are: `Suspended`/`Blocked` --resume--> `Running`;
/// `Running` --sched--> `Suspended`; `Running` --block--> `Blocked`;
/// `Running` --body returns--> `Finished`; `Running` --fault--> `Panicked`.
/// `Finished` and `Panicked` are terminal.
#[derive(Clone, Copy, Debug, PartialEq, Eq, Structural)]
pub enum State {
    /// Stopped voluntarily at a yield point; resumable.
    Suspended,
    /// Currently executing on some native thread.
    Running,
    /// Stopped waiting on an external event; resumable.
    Blocked,
    /// The body returned normally; terminal.
    Finished,
    /// The body raised an unrecovered fault; terminal.
    Panicked,
}

impl State {
    /// A terminal state is never left again.
    pub open spec fn spec_is_terminal(self) -> bool {
        self == State::Finished || self == State::Panicked
    }

    /// Only a coroutine stopped voluntarily or on an event may be resumed.
    pub open spec fn spec_is_resumable(self) -> bool {
        self == State::Suspended || self == State::Blocked
    }

    /// True of `Finished` and `Panicked` and of no other state.
    pub fn is_terminal(&self) -> (r: bool)
        ensures
            r == self.spec_is_terminal(),
    {
        matches!(self, State::Finished | State::Panicked)
    }

    /// True of `Suspended` and `Blocked` and of no other state.
    pub fn is_resumable(&self) -> (r: bool)
        ensures
            r == self.spec_is_resumable(),
    {
        matches!(self, State::Suspended | State::Blocked)
    }
}

/// The resume decision of the state machine's table: a `Suspended` or
/// `Blocked` coroutine moves to `Running`; a `Running` or terminal one is
/// rejected with `InvalidState` and must not be switched into.  The
/// native layer takes its resume decision from here.
pub fn resume_transition(s: State) -> (r: Result<State, Error>)
    ensures
        s.spec_is_resumable() ==> r == Ok::<State, Error>(State::Running),
        !s.spec_is_resumable() ==> (r matches Err(x) && x is InvalidState),
{
    if s.is_resumable() {
        Ok(State::Running)
    } else {
        Err(Error::InvalidState)
    }
}

/// The trampoline's terminal decision: a body that returned normally
/// commits `Finished`; one that raised an unrecovered fault commits
/// `Panicked`.
pub fn body_outcome(faulted: bool) -> (r: State)
    ensures
        r == if faulted {
            State::Panicked
        } else {
            State::Finished
        },
{
    if faulted {
        State::Panicked
    } else {
        State::Finished
    }
}

/// The join decision for one observed state: the outcome to surface —
/// `Ok(Finished)` on normal completion, `Panic` with the captured payload
/// (the empty message when none was stored) on a fault, `InvalidState`
/// for a coroutine that cannot be driven — or `None` when the coroutine
/// must be resumed again.
pub fn join_decision(s: State, payload: Option<String>) -> (r: Option<Result<State, Error>>)
    ensures
        s == State::Finished ==> r == Some(Ok::<State, Error>(State::Finished)),
        s == State::Panicked ==> (r matches Some(q) && q matches Err(x) && x matches Error::Panic(
            m,
        ) && m@ == (match payload {
            Some(p) => p@,
            None => Seq::<char>::empty(),
        })),
        s == State::Running ==> (r matches Some(q) && q matches Err(x) && x is InvalidState),
        s.spec_is_resumable() ==> r is None,
{
    match s {
        State::Finished => Some(Ok(State::Finished)),
        State::Panicked => Some(
            Err(
                Error::Panic(
                    match payload {
                        Some(p) => p,
                        None => String::new(),
                    },
                ),
            ),
        ),
        State::Running => Some(Err(Error::InvalidState)),
        _ => None,
    }
}

} // verus!
