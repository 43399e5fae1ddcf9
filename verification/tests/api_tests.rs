use coroutine::context::Context;
use coroutine::engine::{Coroutine, Engine, Op};
use coroutine::error::Error;
use coroutine::options::{Options, DEFAULT_STACK_SIZE};
use coroutine::stack::Stack;
use coroutine::state::{body_outcome, join_decision, resume_transition, State};

#[test]
fn default_options() {
    let opts = Options::new();
    assert_eq!(opts.stack_size, DEFAULT_STACK_SIZE);
    assert_eq!(opts.stack_size, 131072);
    assert!(opts.name.is_none());
    let d = Options::default();
    assert_eq!(d.stack_size, DEFAULT_STACK_SIZE);
    assert!(d.name.is_none());
}

#[test]
fn options_builders() {
    let opts = Options::new()
        .stack_size(4096)
        .name(String::from("worker"));
    assert_eq!(opts.stack_size, 4096);
    assert_eq!(opts.name.as_deref(), Some("worker"));
}

#[test]
fn spawned_name_is_kept() {
    let mut e = Engine::new();
    let opts = Options::new().name(String::from("crawler"));
    let h = Coroutine::spawn_opts(&mut e, vec![Op::Sched], opts).unwrap();
    assert_eq!(e.get(h.id).name(), Some("crawler"));
    let anon = Coroutine::spawn(&mut e, Vec::new()).unwrap();
    assert!(e.get(anon.id).name().is_none());
}

#[test]
fn allocation_error_when_budget_exhausted() {
    let mut e = Engine::with_capacity(100_000);
    let opts = Options::new().stack_size(40_000);
    let a = Coroutine::spawn_opts(&mut e, vec![Op::Sched], opts);
    assert!(a.is_ok());
    assert_eq!(e.reserved_bytes(), 40_000);
    let opts = Options::new().stack_size(40_000);
    let b = Coroutine::spawn_opts(&mut e, vec![Op::Sched], opts);
    assert!(b.is_ok());
    assert_eq!(e.reserved_bytes(), 80_000);
    let opts = Options::new().stack_size(40_000);
    let c = Coroutine::spawn_opts(&mut e, vec![Op::Sched], opts);
    assert!(matches!(c, Err(Error::AllocationError)));
    // the failed spawn touched nothing
    assert_eq!(e.reserved_bytes(), 80_000);
    assert_eq!(e.count(), 3);
}

#[test]
fn abandoning_a_suspended_coroutine_releases_its_stack() {
    let mut e = Engine::with_capacity(100_000);
    let opts = Options::new().stack_size(60_000);
    let h = Coroutine::spawn_opts(&mut e, vec![Op::Sched, Op::Sched], opts).unwrap();
    assert!(matches!(h.resume(&mut e), Ok(State::Suspended)));
    assert_eq!(e.reserved_bytes(), 60_000);
    // dropping the last handle abandons it: stack released, no body action runs
    h.release(&mut e);
    assert_eq!(e.reserved_bytes(), 0);
    assert_eq!(h.state(&e), State::Suspended);
    assert!(!e.get(h.id).live);
    assert!(matches!(h.resume(&mut e), Err(Error::InvalidState)));
    // the budget is free again
    let opts = Options::new().stack_size(90_000);
    assert!(Coroutine::spawn_opts(&mut e, Vec::new(), opts).is_ok());
}

#[test]
fn duplicated_handles_keep_the_coroutine_alive() {
    let mut e = Engine::with_capacity(50_000);
    let opts = Options::new().stack_size(10_000);
    let h = Coroutine::spawn_opts(&mut e, vec![Op::Sched], opts).unwrap();
    let h2 = h.duplicate(&mut e);
    assert_eq!(h2.id, h.id);
    h.release(&mut e);
    assert!(e.get(h.id).live);
    assert_eq!(e.reserved_bytes(), 10_000);
    h2.release(&mut e);
    assert!(!e.get(h.id).live);
    assert_eq!(e.reserved_bytes(), 0);
}

#[test]
fn release_of_a_finished_coroutine_frees_the_stack() {
    let mut e = Engine::with_capacity(50_000);
    let opts = Options::new().stack_size(20_000);
    let h = Coroutine::spawn_opts(&mut e, Vec::new(), opts).unwrap();
    assert!(matches!(h.join(&mut e), Ok(State::Finished)));
    h.release(&mut e);
    assert_eq!(e.reserved_bytes(), 0);
    assert!(!e.get(h.id).live);
}

#[test]
fn current_is_the_top_level_pseudo_coroutine() {
    let e = Engine::new();
    let me = Coroutine::current(&e);
    assert_eq!(me.id, 0);
    assert_eq!(me.state(&e), State::Running);
    assert!(e.get(0).stack.is_none());
}

#[test]
fn yields_without_a_recorded_parent_change_nothing() {
    let mut e = Engine::new();
    Coroutine::sched(&mut e);
    assert_eq!(Coroutine::current(&e).id, 0);
    assert_eq!(e.get(0).state, State::Running);
    Coroutine::block(&mut e);
    assert_eq!(e.get(0).state, State::Running);
    Coroutine::yield_now(&mut e, State::Suspended);
    assert_eq!(e.get(0).state, State::Running);
}

#[test]
fn empty_makes_a_stackless_record() {
    let mut e = Engine::new();
    let h = Coroutine::empty(&mut e, Some(String::from("native")), State::Suspended);
    assert_eq!(h.state(&e), State::Suspended);
    assert!(e.get(h.id).stack.is_none());
    assert_eq!(e.get(h.id).name(), Some("native"));
    assert_eq!(e.reserved_bytes(), 0);
}

#[test]
fn new_wires_a_prebuilt_stack_in() {
    let mut e = Engine::with_capacity(10_000);
    let stack = Stack::allocate(8_192);
    assert_eq!(stack.size(), 8_192);
    let ctx = Context::prime();
    let h = Coroutine::new(&mut e, None, stack, ctx, State::Suspended);
    assert_eq!(e.reserved_bytes(), 8_192);
    assert_eq!(h.state(&e), State::Suspended);
    // an empty body finishes on its first resume
    assert!(matches!(h.resume(&mut e), Ok(State::Finished)));
}

#[test]
fn state_predicates() {
    assert!(State::Finished.is_terminal());
    assert!(State::Panicked.is_terminal());
    assert!(!State::Suspended.is_terminal());
    assert!(!State::Running.is_terminal());
    assert!(!State::Blocked.is_terminal());
    assert!(State::Suspended.is_resumable());
    assert!(State::Blocked.is_resumable());
    assert!(!State::Running.is_resumable());
    assert!(!State::Finished.is_resumable());
    assert!(!State::Panicked.is_resumable());
}

#[test]
fn error_predicates() {
    assert!(Error::InvalidState.is_invalid_state());
    assert!(!Error::AllocationError.is_invalid_state());
    assert!(Error::AllocationError.is_allocation_error());
    let p = Error::Panic(String::from("why"));
    assert!(!p.is_invalid_state());
    assert_eq!(p.panic_payload().map(|s| s.as_str()), Some("why"));
    assert!(Error::InvalidState.panic_payload().is_none());
}

#[test]
fn panicking_and_finished_accessors() {
    let mut e = Engine::new();
    let h = Coroutine::spawn(&mut e, vec![Op::Panic(String::from("x"))]).unwrap();
    assert!(!e.get(h.id).panicking());
    assert!(!e.get(h.id).finished());
    assert!(matches!(h.resume(&mut e), Ok(State::Panicked)));
    // the fault is raised and `Panicked` committed in one transition, so
    // no observable instant lies inside the unwinding window — an
    // already-committed `Panicked` coroutine is not "panicking", though
    // its payload is captured
    assert!(!e.get(h.id).panicking());
    assert!(e.get(h.id).panic_payload.is_some());
    assert!(!e.get(h.id).finished());
    let f = Coroutine::spawn(&mut e, Vec::new()).unwrap();
    assert!(matches!(f.resume(&mut e), Ok(State::Finished)));
    assert!(e.get(f.id).finished());
    assert!(!e.get(f.id).panicking());
}

#[test]
fn set_state_writes_the_state_field() {
    let mut e = Engine::new();
    let h = Coroutine::spawn(&mut e, vec![Op::Sched]).unwrap();
    h.set_state(&mut e, State::Blocked);
    assert_eq!(h.state(&e), State::Blocked);
    // Blocked is resumable again
    assert!(matches!(h.resume(&mut e), Ok(State::Suspended)));
}

#[test]
fn resume_transition_table() {
    assert!(matches!(resume_transition(State::Suspended), Ok(State::Running)));
    assert!(matches!(resume_transition(State::Blocked), Ok(State::Running)));
    assert!(matches!(resume_transition(State::Running), Err(Error::InvalidState)));
    assert!(matches!(resume_transition(State::Finished), Err(Error::InvalidState)));
    assert!(matches!(resume_transition(State::Panicked), Err(Error::InvalidState)));
}

#[test]
fn body_outcome_table() {
    assert_eq!(body_outcome(false), State::Finished);
    assert_eq!(body_outcome(true), State::Panicked);
}

#[test]
fn join_decision_table() {
    assert!(matches!(join_decision(State::Finished, None), Some(Ok(State::Finished))));
    match join_decision(State::Panicked, Some(String::from("why"))) {
        Some(Err(Error::Panic(m))) => assert_eq!(m, "why"),
        _ => panic!("a panicked coroutine surfaces its payload"),
    }
    match join_decision(State::Panicked, None) {
        Some(Err(Error::Panic(m))) => assert_eq!(m, ""),
        _ => panic!("a payload-less panic surfaces an empty message"),
    }
    assert!(matches!(join_decision(State::Running, None), Some(Err(Error::InvalidState))));
    assert!(join_decision(State::Suspended, None).is_none());
    assert!(join_decision(State::Blocked, None).is_none());
}
