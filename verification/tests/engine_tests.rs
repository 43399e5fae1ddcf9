use coroutine::engine::{Coroutine, Engine, Op};
use coroutine::error::Error;
use coroutine::state::State;

#[test]
fn fresh_spawn_is_suspended() {
    let mut e = Engine::new();
    let h = Coroutine::spawn(&mut e, vec![Op::Sched]).unwrap();
    assert_eq!(h.state(&e), State::Suspended);
}

#[test]
fn fresh_spawn_with_empty_body_is_suspended() {
    let mut e = Engine::new();
    let h = Coroutine::spawn(&mut e, Vec::new()).unwrap();
    assert_eq!(h.state(&e), State::Suspended);
}

#[test]
fn sched_once_then_return() {
    let mut e = Engine::new();
    let h = Coroutine::spawn(&mut e, vec![Op::Sched]).unwrap();
    let first = h.resume(&mut e);
    assert!(matches!(first, Ok(State::Suspended)));
    let second = h.resume(&mut e);
    assert!(matches!(second, Ok(State::Finished)));
    assert_eq!(h.state(&e), State::Finished);
}

#[test]
fn resume_on_finished_is_invalid_state_without_side_effects() {
    let mut e = Engine::new();
    let h = Coroutine::spawn(&mut e, Vec::new()).unwrap();
    assert!(matches!(h.resume(&mut e), Ok(State::Finished)));
    let reserved = e.reserved_bytes();
    let again = h.resume(&mut e);
    assert!(matches!(again, Err(Error::InvalidState)));
    assert_eq!(h.state(&e), State::Finished);
    assert_eq!(e.reserved_bytes(), reserved);
    assert_eq!(Coroutine::current(&e).id, 0);
}

#[test]
fn resume_on_panicked_is_invalid_state() {
    let mut e = Engine::new();
    let h = Coroutine::spawn(&mut e, vec![Op::Panic(String::from("late"))]).unwrap();
    assert!(matches!(h.resume(&mut e), Ok(State::Panicked)));
    assert!(matches!(h.resume(&mut e), Err(Error::InvalidState)));
    assert_eq!(h.state(&e), State::Panicked);
}

#[test]
fn resume_on_running_is_invalid_state() {
    let mut e = Engine::new();
    let root = Coroutine::current(&e);
    assert_eq!(root.state(&e), State::Running);
    assert!(matches!(root.resume(&mut e), Err(Error::InvalidState)));
    assert_eq!(root.state(&e), State::Running);
}

#[test]
fn concurrent_resume_attempts_exactly_one_wins() {
    // a body that tries to resume the coroutine that is already running:
    // the attempt must observe InvalidState inside the body (no switch, no
    // corruption) and the body then runs to completion
    let mut e = Engine::new();
    let root = Coroutine::current(&e);
    let h = Coroutine::spawn(&mut e, vec![Op::Resume(root.id), Op::Sched]).unwrap();
    let first = h.resume(&mut e);
    assert!(matches!(first, Ok(State::Suspended)));
    assert_eq!(Coroutine::current(&e).id, root.id);
    assert!(matches!(h.resume(&mut e), Ok(State::Finished)));
}

#[test]
fn panic_payload_reaches_join_only() {
    let mut e = Engine::new();
    let h = Coroutine::spawn(&mut e, vec![Op::Panic(String::from("boom"))]).unwrap();
    let r = h.resume(&mut e);
    assert!(matches!(r, Ok(State::Panicked)));
    match h.join(&mut e) {
        Err(Error::Panic(m)) => assert_eq!(m, "boom"),
        _ => panic!("join must surface the captured payload"),
    }
}

#[test]
fn join_drives_to_completion() {
    let mut e = Engine::new();
    let h = Coroutine::spawn(&mut e, vec![Op::Sched, Op::Block, Op::Sched]).unwrap();
    assert!(matches!(h.join(&mut e), Ok(State::Finished)));
    assert_eq!(h.state(&e), State::Finished);
}

#[test]
fn join_on_terminal_returns_at_once() {
    let mut e = Engine::new();
    let h = Coroutine::spawn(&mut e, Vec::new()).unwrap();
    assert!(matches!(h.resume(&mut e), Ok(State::Finished)));
    assert!(matches!(h.join(&mut e), Ok(State::Finished)));
}

#[test]
fn join_on_running_is_invalid_state() {
    let mut e = Engine::new();
    let root = Coroutine::current(&e);
    assert!(matches!(root.join(&mut e), Err(Error::InvalidState)));
}

#[test]
fn join_of_panicked_body_that_panics_late() {
    let mut e = Engine::new();
    let h = Coroutine::spawn(
        &mut e,
        vec![Op::Sched, Op::Panic(String::from("after a while"))],
    )
    .unwrap();
    match h.join(&mut e) {
        Err(Error::Panic(m)) => assert_eq!(m, "after a while"),
        _ => panic!("expected the panic outcome"),
    }
}

#[test]
fn block_then_finish() {
    let mut e = Engine::new();
    let h = Coroutine::spawn(&mut e, vec![Op::Block]).unwrap();
    assert!(matches!(h.resume(&mut e), Ok(State::Blocked)));
    assert_eq!(h.state(&e), State::Blocked);
    assert!(matches!(h.resume(&mut e), Ok(State::Finished)));
}

#[test]
fn nested_yields_return_along_parent_links() {
    // three levels: a resumes b, b resumes c, c yields; the yields must
    // come back c -> b -> a -> top, so one top-level resume suspends all
    // three, with nobody left running but the top context
    let mut e = Engine::new();
    let c = Coroutine::spawn(&mut e, vec![Op::Sched]).unwrap();
    let b = Coroutine::spawn(&mut e, vec![Op::Resume(c.id), Op::Sched]).unwrap();
    let a = Coroutine::spawn(&mut e, vec![Op::Resume(b.id), Op::Sched]).unwrap();
    let r = a.resume(&mut e);
    assert!(matches!(r, Ok(State::Suspended)));
    assert_eq!(a.state(&e), State::Suspended);
    assert_eq!(b.state(&e), State::Suspended);
    assert_eq!(c.state(&e), State::Suspended);
    assert_eq!(Coroutine::current(&e).id, 0);
    // drive everyone home
    assert!(matches!(a.resume(&mut e), Ok(State::Finished)));
    assert!(matches!(b.resume(&mut e), Ok(State::Finished)));
    assert!(matches!(c.resume(&mut e), Ok(State::Finished)));
}

#[test]
fn resume_of_unknown_handle_is_invalid_state() {
    let mut e = Engine::new();
    let stray = coroutine::handle::Handle { id: 42 };
    assert!(matches!(stray.resume(&mut e), Err(Error::InvalidState)));
    assert!(matches!(stray.join(&mut e), Err(Error::InvalidState)));
}

#[test]
fn panic_inside_nested_resume_reaches_only_its_parent() {
    // b panics while resumed by a: a sees the panicked child and goes on
    let mut e = Engine::new();
    let b = Coroutine::spawn(&mut e, vec![Op::Panic(String::from("inner"))]).unwrap();
    let a = Coroutine::spawn(&mut e, vec![Op::Resume(b.id), Op::Sched]).unwrap();
    assert!(matches!(a.resume(&mut e), Ok(State::Suspended)));
    assert_eq!(b.state(&e), State::Panicked);
    assert_eq!(a.state(&e), State::Suspended);
    match b.join(&mut e) {
        Err(Error::Panic(m)) => assert_eq!(m, "inner"),
        _ => panic!("expected the panic outcome"),
    }
    assert!(matches!(a.resume(&mut e), Ok(State::Finished)));
}

#[test]
fn fault_after_nested_resume() {
    // a's turn runs through a child's yield and stops at its own fault:
    // one resume consumes the resume action and the fault action
    let mut e = Engine::new();
    let b = Coroutine::spawn(&mut e, vec![Op::Sched]).unwrap();
    let a = Coroutine::spawn(
        &mut e,
        vec![Op::Resume(b.id), Op::Panic(String::from("after the child"))],
    )
    .unwrap();
    assert!(matches!(a.resume(&mut e), Ok(State::Panicked)));
    assert_eq!(b.state(&e), State::Suspended);
    match a.join(&mut e) {
        Err(Error::Panic(m)) => assert_eq!(m, "after the child"),
        _ => panic!("expected the panic outcome"),
    }
}

#[test]
fn join_surfaces_the_first_fault() {
    // several fault actions: the first one at or after the current
    // position is the one committed and surfaced
    let mut e = Engine::new();
    let h = Coroutine::spawn(
        &mut e,
        vec![
            Op::Sched,
            Op::Panic(String::from("first")),
            Op::Panic(String::from("second")),
        ],
    )
    .unwrap();
    match h.join(&mut e) {
        Err(Error::Panic(m)) => assert_eq!(m, "first"),
        _ => panic!("expected the panic outcome"),
    }
    assert_eq!(h.state(&e), State::Panicked);
}
