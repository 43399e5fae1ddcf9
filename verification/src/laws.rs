use vstd::prelude::*;

use crate::engine::{enter_rel, step_rel, yield_rel, Engine, Op};
use crate::state::State;

verus! {

/// Two resume attempts on one resumable coroutine, two logical callers
/// rendered sequentially: the winner's handoff switches in and leaves the
/// coroutine `Running`; the loser then finds it not resumable, so the
/// contract of `Handle::resume` answers it with `InvalidState` and
/// performs no switch.  Exactly one attempt wins.
pub proof fn lemma_concurrent_resume_one_winner(pre: Engine, mid: Engine, t: usize)
    requires
        pre.resumable(t as int),
        enter_rel(pre, mid, t),
    ensures
        !mid.resumable(t as int),
{
}

/// The engine is deterministic: one configuration admits exactly one
/// interpreter step, with one hand-back and one family of states.  With
/// the contract of `Handle::resume` — a handoff, silent steps and a final
/// yield, all through `step_rel` — the sequence of states a caller
/// observes is fully determined by the bodies' yields.
pub proof fn lemma_step_deterministic(
    pre: Engine,
    a: Engine,
    b: Engine,
    me: usize,
    d1: Option<State>,
    d2: Option<State>,
)
    requires
        pre.wf(),
        step_rel(pre, a, me, d1),
        step_rel(pre, b, me, d2),
    ensures
        d1 == d2,
        a.current == b.current,
        forall|j: int| 0 <= j < pre.n() ==> a.state_of(j) == b.state_of(j),
{
    let cur = pre.current as int;
    let c = pre.at(cur);
    assert forall|j: int| 0 <= j < pre.n() implies a.state_of(j) == b.state_of(j) by {
        if j != cur {
            if c.pc() < c.body@.len() {
                match c.body@[c.pc()] {
                    Op::Resume(t) => {
                        if pre.resumable(t as int) {
                            if j != t as int {
                                assert(a.at(j) == pre.at(j));
                                assert(b.at(j) == pre.at(j));
                            }
                        } else {
                            assert(a.at(j) == pre.at(j));
                            assert(b.at(j) == pre.at(j));
                        }
                    },
                    _ => {
                        assert(a.at(j) == pre.at(j));
                        assert(b.at(j) == pre.at(j));
                    },
                }
            } else {
                assert(a.at(j) == pre.at(j));
                assert(b.at(j) == pre.at(j));
            }
        }
    }
}

/// A terminal coroutine is never resumable: `resume` on a `Finished` or
/// `Panicked` coroutine is rejected with `InvalidState` and changes
/// nothing, by the contract of `Handle::resume`.
pub proof fn lemma_terminal_never_resumable(s: State)
    requires
        s.spec_is_terminal(),
    ensures
        !s.spec_is_resumable(),
{
}

/// Of two resume attempts on the same coroutine, exactly one can win: the
/// winner leaves it `Running`, and a `Running` coroutine is not resumable,
/// so the contract of `Handle::resume` answers the loser with
/// `InvalidState` and no switch.
pub proof fn lemma_running_never_resumable(e: Engine, i: int)
    requires
        e.state_of(i) == State::Running,
    ensures
        !e.resumable(i),
{
}

/// A yield hands control to exactly the parent recorded by the most recent
/// resume — never to anyone else.
pub proof fn lemma_yield_returns_to_parent(pre: Engine, post: Engine, s: State, p: usize)
    requires
        pre.at(pre.current as int).parent == Some(p),
        yield_rel(pre, post, s),
    ensures
        post.current == p,
{
}

/// Round trip of the parent linkage: when the running coroutine was
/// resumed by `a`, and `a` in turn by `top`, the running coroutine's yield
/// returns control to `a` — not to `top` — and `a`'s subsequent yield
/// returns to `top`.  Chained over the links, this holds at any depth.
pub proof fn lemma_yield_round_trip(
    e1: Engine,
    e2: Engine,
    e3: Engine,
    s1: State,
    s2: State,
    a: usize,
    top: usize,
)
    requires
        (a as int) < e1.n(),
        a != e1.current,
        e1.at(e1.current as int).parent == Some(a),
        e1.at(a as int).parent == Some(top),
        yield_rel(e1, e2, s1),
        yield_rel(e2, e3, s2),
    ensures
        e2.current == a,
        e3.current == top,
{
    assert(e2.at(a as int) == e1.at(a as int));
}

} // verus!

