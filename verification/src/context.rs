use vstd::prelude::*;

verus! {

/// A saved point of execution: enough to resume a suspended coroutine
/// exactly where it stopped.  On a real machine this is a stack pointer and
/// the callee-saved registers; in the verified engine a body is a script of
/// actions, so the saved point is the position of the next action.  A
/// context is produced either by priming a fresh stack with the trampoline
/// entry, or by capturing the point of a yield; it is the target of at most
/// one switch before it is captured anew.
pub struct Context {
    pub pc: usize,
}

impl Context {
    /// The context of a freshly primed stack: execution will begin at the
    /// first action of the body, under the trampoline.
    pub fn prime() -> (r: Context)
        ensures
            r.pc == 0,
    {
        Context { pc: 0 }
    }

    /// Capture the point just after a yield, so that a later switch resumes
    /// at `pc`.
    pub fn capture(pc: usize) -> (r: Context)
        ensures
            r.pc == pc,
    {
        Context { pc }
    }
}

} // verus!
