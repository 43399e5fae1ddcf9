//! A cooperative, stackful coroutine engine.
//!
//! A coroutine is a unit of sequential execution that can suspend itself at
//! explicit yield points and be resumed later.  This crate verifies the hard
//! part of such an engine: the lifecycle state machine, the parent-link
//! handoff protocol (a yield returns control to exactly whoever performed the
//! most recent resume), the trampoline that turns an in-coroutine fault into
//! an observable join result, and the accounting of the execution stacks.
//!
//! The engine holds one family of coroutines, as driven by a single native
//! thread.  A coroutine body is a script of actions ([`engine::Op`]); the
//! machine-level side (allocating real guard-paged stacks and switching
//! stack pointers and callee-saved registers) lives outside the verified
//! core, which decides every transition.

pub mod context;
pub mod engine;
pub mod error;
pub mod handle;
pub mod laws;
pub mod options;
pub mod stack;
pub mod state;
pub mod sums;
