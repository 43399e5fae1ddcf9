use vstd::prelude::*;

verus! {

/// What can go wrong at this layer.
#[derive(Debug)]
pub enum Error {
    /// A caller tried to resume (or join) a coroutine that is `Running` or
    /// terminal.  Recoverable; the attempt changes nothing.
    InvalidState,
    /// The coroutine body raised an unrecovered fault; the captured payload
    /// is delivered through `join`, never through `resume`.
    Panic(String),
    /// Stack memory could not be reserved at spawn time.  Fatal to that
    /// spawn call only.
    AllocationError,
}

impl Error {
    /// True of `InvalidState` and of no other variant.
    pub fn is_invalid_state(&self) -> (r: bool)
        ensures
            r == (self is InvalidState),
    {
        matches!(self, Error::InvalidState)
    }

    /// True of `AllocationError` and of no other variant.
    pub fn is_allocation_error(&self) -> (r: bool)
        ensures
            r == (self is AllocationError),
    {
        matches!(self, Error::AllocationError)
    }

    /// The captured fault payload, if this is a `Panic` error.
    pub fn panic_payload(&self) -> (r: Option<&String>)
        ensures
            match r {
                Some(m) => self matches Error::Panic(p) && m@ == p@,
                None => !(self is Panic),
            },
    {
        match self {
            Error::Panic(m) => Some(m),
            _ => None,
        }
    }
}

} // verus!
