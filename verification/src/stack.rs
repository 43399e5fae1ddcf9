use vstd::prelude::*;

verus! {

/// The execution stack of one coroutine: an owned, contiguous memory region
/// of `size` usable bytes.  Here the region itself is bookkeeping — the
/// engine accounts for every live stack against its capacity — while the
/// machine-level reservation happens outside the verified core.  A stack is
/// never shared: exactly one coroutine owns it for its whole life.
pub struct Stack {
    pub size: usize,
}

impl Stack {
    /// Reserve a stack of exactly `size` usable bytes.
    pub fn allocate(size: usize) -> (r: Stack)
        ensures
            r.size == size,
    {
        Stack { size }
    }

    /// How many usable bytes the stack holds.
    pub fn size(&self) -> (r: usize)
        ensures
            r == self.size,
    {
        self.size
    }

    /// The top of usable memory, as an offset from the region's base.
    /// Stacks grow downward, so a fresh context starts its stack pointer
    /// here.
    pub fn top(&self) -> (r: usize)
        ensures
            r == self.size,
    {
        self.size
    }
}

} // verus!
