use vstd::prelude::*;

use crate::engine::{
    enter, enter_rel, f_stack, fault_payload_of, first_fault_from, lemma_first_fault_props,
    lemma_first_fault_skip, lemma_measure_nonneg, lemma_no_fault_left_monotone,
    lemma_same_family_trans, lemma_stack_fits, lemma_sums_after_update, lemma_wf_after_update,
    reaches, same_family, same_identity, step, step_rel, Engine, Op,
};
use crate::error::Error;
use crate::state::State;

verus! {

/// The interpreter's final hand-back that corresponds to a resume result:
/// a successful resume ends with the step that yielded this state to the
/// caller.
pub open spec fn done_of(r: Result<State, Error>) -> Option<State> {
    match r {
        Ok(s) => Some(s),
        Err(_) => None,
    }
}

/// A cheap, shareable reference to one coroutine of a family.  A handle
/// carries no state of its own; every operation goes through the engine.
#[derive(Clone, Copy, Debug, PartialEq, Eq, Structural)]
pub struct Handle {
    pub id: usize,
}

impl Handle {
    /// A snapshot of the coroutine's state.
    pub fn state(&self, e: &Engine) -> (r: State)
        requires
            (self.id as int) < e.n(),
        ensures
            r == e.state_of(self.id as int),
    {
        e.coroutines[self.id].state
    }

    /// Overwrite the coroutine's state field, within what the state
    /// machine allows an outside writer: a terminal state is never left
    /// and never entered here — `Finished` and `Panicked` come only from
    /// the trampoline — a coroutine enters `Running` only through a
    /// resume, and the running coroutine can only be confirmed `Running`:
    /// every other transition out of `Running` goes through a yield, which
    /// also moves control.  What remains is moving a stopped coroutine
    /// between `Suspended` and `Blocked`, as a scheduler does.
    pub fn set_state(&self, e: &mut Engine, state: State)
        requires
            old(e).wf(),
            (self.id as int) < old(e).n(),
            !old(e).state_of(self.id as int).spec_is_terminal(),
            !state.spec_is_terminal(),
            (self.id == old(e).current) <==> (state == State::Running),
        ensures
            final(e).wf(),
            final(e).at(self.id as int).state == state,
            final(e).at(self.id as int).parent == old(e).at(self.id as int).parent,
            final(e).at(self.id as int).saved_context == old(e).at(self.id as int).saved_context,
            final(e).at(self.id as int).panic_payload == old(e).at(self.id as int).panic_payload,
            final(e).at(self.id as int).name == old(e).at(self.id as int).name,
            final(e).at(self.id as int).body@ == old(e).at(self.id as int).body@,
            final(e).at(self.id as int).handles == old(e).at(self.id as int).handles,
            final(e).at(self.id as int).live == old(e).at(self.id as int).live,
            final(e).at(self.id as int).stack == old(e).at(self.id as int).stack,
            forall|j: int|
                0 <= j < old(e).n() && j != self.id as int ==> #[trigger] final(e).at(j) == old(
                    e,
                ).at(j),
            final(e).n() == old(e).n(),
            final(e).current == old(e).current,
            final(e).capacity == old(e).capacity,
            final(e).reserved == old(e).reserved,
    {
        let id = self.id;
        let ghost s_pre = e.coroutines@;
        let mut rec = e.coroutines.remove(id);
        rec.state = state;
        let ghost grec = rec;
        e.coroutines.insert(id, rec);
        proof {
            assert(e.coroutines@ =~= s_pre.update(id as int, grec));
            lemma_sums_after_update(s_pre, id as int, grec);
            lemma_wf_after_update(*old(e), *e, id as int, grec);
        }
    }

    /// Resume the coroutine: record the caller's running coroutine as its
    /// parent, switch into it, and run it — together with anything it
    /// resumes in turn — until control yields back along the parent link.
    /// Returns the state the coroutine yielded with.  On a coroutine that
    /// is `Running`, terminal, destroyed or unknown, fails with
    /// `InvalidState` and performs no switch: nothing changes at all.
    pub fn resume(&self, e: &mut Engine) -> (r: Result<State, Error>)
        requires
            old(e).wf(),
        ensures
            final(e).wf(),
            !old(e).resumable(self.id as int) ==> (r matches Err(x) && x is InvalidState
                && *final(e) == *old(e)),
            old(e).resumable(self.id as int) ==> ({
                let id = self.id as int;
                let c = old(e).at(id);
                &&& same_family(*old(e), *final(e))
                &&& final(e).current == old(e).current
                &&& final(e).measure() < old(e).measure()
                &&& final(e).at(old(e).current as int) == old(e).at(old(e).current as int)
                &&& r matches Ok(s) && s == final(e).state_of(id) && s != State::Running
                &&& final(e).at(id).parent is None
                &&& final(e).at(id).body@ == c.body@
                &&& (c.no_fault_left() ==> {
                    &&& final(e).state_of(id) != State::Panicked
                    &&& final(e).at(id).panic_payload == c.panic_payload
                    &&& final(e).at(id).no_fault_left()
                })
                &&& ({
                    // the turn consumes resume actions in order and stops
                    // at the coroutine's first yield, block, fault or
                    // normal return
                    let p0 = c.pc();
                    let p1 = final(e).at(id).pc();
                    &&& p0 <= p1 <= c.body@.len()
                    &&& (final(e).state_of(id) == State::Finished ==> p1 == c.body@.len() && (
                    forall|k: int| p0 <= k < p1 ==> (#[trigger] c.body@[k]) is Resume)
                        && final(e).at(id).panic_payload == c.panic_payload)
                    &&& (final(e).state_of(id) == State::Suspended ==> p0 < p1 && c.body@[p1
                        - 1] is Sched && (forall|k: int|
                        p0 <= k < p1 - 1 ==> (#[trigger] c.body@[k]) is Resume) && final(e).at(
                        id,
                    ).panic_payload == c.panic_payload)
                    &&& (final(e).state_of(id) == State::Blocked ==> p0 < p1 && c.body@[p1
                        - 1] is Block && (forall|k: int|
                        p0 <= k < p1 - 1 ==> (#[trigger] c.body@[k]) is Resume) && final(e).at(
                        id,
                    ).panic_payload == c.panic_payload)
                    &&& (final(e).state_of(id) == State::Panicked ==> p0 < p1 && c.body@[p1
                        - 1] is Panic && (forall|k: int|
                        p0 <= k < p1 - 1 ==> (#[trigger] c.body@[k]) is Resume) && (final(e).at(
                        id,
                    ).panic_payload matches Some(mp) && mp@ == fault_payload_of(c.body@[p1 - 1])))
                })
                &&& final(e).at(id).name == c.name
                &&& final(e).at(id).live
                &&& final(e).at(id).handles == c.handles
                &&& final(e).at(id).stack == c.stack
                &&& (final(e).state_of(id) == State::Panicked ==> final(e).at(
                    id,
                ).panic_payload is Some)
                &&& (c.pc() == c.body@.len() ==> {
                    &&& r == Ok::<State, Error>(State::Finished)
                    &&& final(e).at(id).state == State::Finished
                    &&& final(e).at(id).pc() == c.pc()
                    &&& final(e).at(id).panic_payload == c.panic_payload
                    &&& (forall|j: int|
                        0 <= j < old(e).n() && j != id ==> #[trigger] final(e).at(j) == old(e).at(
                            j,
                        ))
                })
                &&& (c.pc() < c.body@.len() ==> match c.body@[c.pc()] {
                    Op::Sched => {
                        &&& r == Ok::<State, Error>(State::Suspended)
                        &&& final(e).at(id).state == State::Suspended
                        &&& final(e).at(id).pc() == c.pc() + 1
                        &&& final(e).at(id).panic_payload == c.panic_payload
                        &&& (forall|j: int|
                            0 <= j < old(e).n() && j != id ==> #[trigger] final(e).at(j) == old(
                                e,
                            ).at(j))
                    },
                    Op::Block => {
                        &&& r == Ok::<State, Error>(State::Blocked)
                        &&& final(e).at(id).state == State::Blocked
                        &&& final(e).at(id).pc() == c.pc() + 1
                        &&& final(e).at(id).panic_payload == c.panic_payload
                        &&& (forall|j: int|
                            0 <= j < old(e).n() && j != id ==> #[trigger] final(e).at(j) == old(
                                e,
                            ).at(j))
                    },
                    Op::Panic(m) => {
                        &&& r == Ok::<State, Error>(State::Panicked)
                        &&& final(e).at(id).state == State::Panicked
                        &&& final(e).at(id).pc() == c.pc() + 1
                        &&& final(e).at(id).panic_payload == Some(m)
                        &&& (forall|j: int|
                            0 <= j < old(e).n() && j != id ==> #[trigger] final(e).at(j) == old(
                                e,
                            ).at(j))
                    },
                    Op::Resume(_) => true,
                })
                &&& (exists|b: Engine, mid: Engine, k: nat|
                    #![trigger enter_rel(*old(e), b, self.id), reaches(b, mid, old(e).current, k)]
                    {
                        &&& enter_rel(*old(e), b, self.id)
                        &&& reaches(b, mid, old(e).current, k)
                        &&& step_rel(mid, *final(e), old(e).current, done_of(r))
                    })
            }),
    {
        let id = self.id;
        if id >= e.coroutines.len() {
            return Err(Error::InvalidState);
        }
        let tgt_live = e.coroutines[id].live;
        let tgt_resumable = e.coroutines[id].state.is_resumable();
        if !tgt_live || !tgt_resumable {
            return Err(Error::InvalidState);
        }
        let me = e.current;
        proof {
            lemma_measure_nonneg(*old(e));
        }
        enter(e, id);
        let ghost base = *e;
        let first = step(e, me);
        match first {
            Some(s) => {
                proof {
                    lemma_same_family_trans(*old(e), base, *e);
                    assert(same_identity(old(e).at(id as int), base.at(id as int)));
                    assert(same_identity(base.at(id as int), e.at(id as int)));
                    assert(base.at(me as int) == old(e).at(me as int));
                    assert(base.at(id as int).pc() == old(e).at(id as int).pc());
                    assert(base.at(id as int).body@ == old(e).at(id as int).body@);
                    assert forall|j: int|
                        0 <= j < old(e).n() && j != id as int implies #[trigger] e.at(j) == old(
                        e,
                    ).at(j) by {
                        assert(base.at(j) == old(e).at(j));
                    }
                    if old(e).at(id as int).no_fault_left() {
                        lemma_no_fault_left_monotone(old(e).at(id as int), e.at(id as int));
                    }
                    assert(enter_rel(*old(e), base, id));
                    assert(reaches(base, base, me, 0));
                    assert(step_rel(base, *e, me, Some(s)));
                }
                return Ok(s);
            },
            None => {},
        }
        // the first action of the body switched into some other coroutine
        // (or tried to); walk the family, one action at a time, until a
        // yield brings control back here.  The ghost chain records who
        // resumed whom: control always returns along it.
        let ghost mut chain: Seq<usize> = if e.current == id {
            seq![id]
        } else {
            seq![id, e.current]
        };
        let ghost mut steps: nat = 1;
        proof {
            assert(reaches(base, base, me, 0));
            assert(reaches(base, *e, me, 1));
            lemma_same_family_trans(*old(e), base, *e);
            lemma_measure_nonneg(*e);
            assert(base.current == id);
            assert(base.at(id as int).parent == Some(me));
            assert(!base.turn_done() && base.next_op() is Resume);
            assert(same_identity(old(e).at(id as int), base.at(id as int)));
            assert(base.at(me as int) == old(e).at(me as int));
            assert(base.at(id as int).pc() == old(e).at(id as int).pc());
            assert(base.at(id as int).body@ == old(e).at(id as int).body@);
            assert(same_identity(base.at(id as int), e.at(id as int)));
            assert(e.at(id as int).live);
            assert(e.at(id as int).state == State::Running);
            assert(e.at(id as int).parent == Some(me));
            if e.current != id {
                assert(base.resumable(e.current as int));
                assert(e.at(e.current as int).parent == Some(id));
                assert(same_identity(base.at(e.current as int), e.at(e.current as int)));
            }
            if old(e).at(id as int).no_fault_left() {
                lemma_no_fault_left_monotone(old(e).at(id as int), e.at(id as int));
            }
            assert(e.at(id as int).pc() == old(e).at(id as int).pc() + 1);
            assert(old(e).at(id as int).body@[old(e).at(id as int).pc()] is Resume);
        }
        loop
            invariant
                e.wf(),
                (me as int) < e.n(),
                e.at(me as int) == old(e).at(me as int),
                e.at(me as int).live,
                e.at(me as int).state == State::Running,
                same_family(*old(e), *e),
                e.measure() < old(e).measure(),
                e.measure() >= 0,
                old(e).resumable(id as int),
                id == self.id,
                id != me,
                me == old(e).current,
                1 <= chain.len(),
                chain[0] == id,
                chain.last() == e.current,
                e.at(id as int).parent == Some(me),
                forall|k: int|
                    1 <= k < chain.len() ==> e.at(#[trigger] chain[k] as int).parent == Some(
                        chain[k - 1],
                    ),
                forall|k: int|
                    0 <= k < chain.len() ==> (#[trigger] chain[k] as int) < e.n() && e.at(
                        chain[k] as int,
                    ).live && e.at(chain[k] as int).state == State::Running && chain[k] != me,
                forall|k1: int, k2: int|
                    0 <= k1 < k2 < chain.len() ==> #[trigger] chain[k1] != #[trigger] chain[k2],
                old(e).at(id as int).pc() < old(e).at(id as int).body@.len(),
                old(e).at(id as int).body@[old(e).at(id as int).pc()] is Resume,
                old(e).at(id as int).no_fault_left() ==> (e.at(id as int).no_fault_left() && e.at(
                    id as int,
                ).panic_payload == old(e).at(id as int).panic_payload),
                e.at(id as int).body@ == old(e).at(id as int).body@,
                old(e).at(id as int).pc() <= e.at(id as int).pc() <= old(e).at(
                    id as int,
                ).body@.len(),
                forall|k: int|
                    old(e).at(id as int).pc() <= k < e.at(id as int).pc() ==> (#[trigger] old(
                        e,
                    ).at(id as int).body@[k]) is Resume,
                e.at(id as int).panic_payload == old(e).at(id as int).panic_payload,
                enter_rel(*old(e), base, id),
                reaches(base, *e, me, steps),
            decreases e.measure(),
        {
            let ghost pre = *e;
            let done = step(e, me);
            if let Some(s) = done {
                proof {
                    // a yield reached `me`, so the yielder's recorded
                    // parent was `me`: only the chain's first link points
                    // there, hence the yielder was the resumed coroutine
                    if chain.len() >= 2 {
                        assert(pre.at(pre.current as int).parent == Some(
                            chain[chain.len() - 2],
                        ));
                        assert(chain[chain.len() - 2] != me);
                        assert(false);
                    }
                    assert(pre.current == id);
                    assert(pre.at(id as int).parent == Some(me));
                    assert(e.current == me);
                    lemma_same_family_trans(*old(e), pre, *e);
                    assert(same_identity(old(e).at(id as int), e.at(id as int)));
                    if old(e).at(id as int).no_fault_left() {
                        assert(same_identity(pre.at(id as int), e.at(id as int)));
                        lemma_no_fault_left_monotone(pre.at(id as int), e.at(id as int));
                    }
                    assert(reaches(base, pre, me, steps));
                    assert(step_rel(pre, *e, me, Some(s)));
                    assert(same_identity(pre.at(id as int), e.at(id as int)));
                    assert(pre.at(id as int).body@ == old(e).at(id as int).body@);
                }
                return Ok(s);
            }
            proof {
                let cur = pre.current;
                let prev = chain;
                if pre.turn_done() || !(pre.next_op() is Resume) {
                    // the running coroutine yielded to its resumer
                    assert(chain.len() >= 2) by {
                        if chain.len() == 1 {
                            assert(pre.at(cur as int).parent == Some(me));
                        }
                    }
                    chain = chain.drop_last();
                    assert(pre.at(cur as int).parent == Some(prev[prev.len() - 2]));
                    assert(e.current == prev[prev.len() - 2]);
                    assert forall|k: int|
                        0 <= k < chain.len() implies (#[trigger] chain[k] as int) < e.n() && e.at(
                        chain[k] as int,
                    ).live && e.at(chain[k] as int).state == State::Running && chain[k] != me by {
                        assert(chain[k] == prev[k]);
                        assert(prev[k] != prev[prev.len() - 1]);
                        assert(e.at(chain[k] as int) == pre.at(chain[k] as int));
                    }
                    assert forall|k: int|
                        1 <= k < chain.len() implies e.at(#[trigger] chain[k] as int).parent
                        == Some(chain[k - 1]) by {
                        assert(chain[k] == prev[k] && chain[k - 1] == prev[k - 1]);
                        assert(prev[k] != prev[prev.len() - 1]);
                        assert(e.at(chain[k] as int) == pre.at(chain[k] as int));
                    }
                    assert(e.at(id as int).parent == Some(me)) by {
                        if prev.len() >= 2 {
                            assert(prev[0] != prev[prev.len() - 1]);
                            assert(e.at(id as int) == pre.at(id as int));
                        }
                    }
                } else {
                    // the running coroutine consumed a resume action
                    if e.current != cur {
                        // ... and switched into a fresh coroutine
                        assert forall|k: int| 0 <= k < chain.len() implies #[trigger] chain[k]
                            != e.current by {
                            assert(pre.at(chain[k] as int).state == State::Running);
                        }
                        chain = chain.push(e.current);
                        assert(pre.resumable(e.current as int));
                        assert(same_identity(
                            pre.at(e.current as int),
                            e.at(e.current as int),
                        ));
                    }
                    assert(same_identity(pre.at(cur as int), e.at(cur as int)));
                    assert forall|k: int|
                        0 <= k < chain.len() implies (#[trigger] chain[k] as int) < e.n() && e.at(
                        chain[k] as int,
                    ).live && e.at(chain[k] as int).state == State::Running && chain[k] != me by {
                        if k < prev.len() {
                            assert(chain[k] == prev[k]);
                            if chain[k] != cur && chain[k] as int != e.current as int {
                                assert(e.at(chain[k] as int) == pre.at(chain[k] as int));
                            }
                        }
                    }
                    assert forall|k: int|
                        1 <= k < chain.len() implies e.at(#[trigger] chain[k] as int).parent
                        == Some(chain[k - 1]) by {
                        if k < prev.len() {
                            assert(chain[k] == prev[k] && chain[k - 1] == prev[k - 1]);
                            if chain[k] != cur && (prev.len() == chain.len() || chain[k]
                                != chain[chain.len() - 1]) {
                                assert(e.at(chain[k] as int) == pre.at(chain[k] as int));
                            }
                        }
                    }
                    assert(e.at(id as int).parent == Some(me)) by {
                        if id != cur && (prev.len() == chain.len() || id != chain[chain.len()
                            - 1]) {
                            assert(e.at(id as int) == pre.at(id as int));
                        }
                    }
                }
                if old(e).at(id as int).no_fault_left() {
                    if cur == id {
                        assert(same_identity(pre.at(id as int), e.at(id as int)));
                        lemma_no_fault_left_monotone(pre.at(id as int), e.at(id as int));
                    } else {
                        assert(e.at(id as int) == pre.at(id as int));
                    }
                }
                if cur == id {
                    // the running coroutine consumed one more resume action
                    assert(same_identity(pre.at(id as int), e.at(id as int)));
                    assert(pre.at(id as int).body@[pre.at(id as int).pc()] is Resume);
                    assert(e.at(id as int).pc() == pre.at(id as int).pc() + 1);
                } else {
                    assert(e.at(id as int) == pre.at(id as int));
                }
                assert(reaches(base, pre, me, steps));
                assert(step_rel(pre, *e, me, None::<State>));
                assert(reaches(base, *e, me, steps + 1));
                steps = steps + 1;
                lemma_same_family_trans(*old(e), pre, *e);
                lemma_measure_nonneg(*e);
            }
        }
    }

    /// Drive the coroutine to completion: resume it again and again until
    /// it reaches a terminal state.  Returns `Ok(Finished)` when the body
    /// returned normally; fails with `Panic` carrying the captured payload
    /// when the body faulted; fails with `InvalidState` on a coroutine that
    /// is `Running`, destroyed or unknown.  On an already-terminal
    /// coroutine it returns at once and changes nothing.
    pub fn join(&self, e: &mut Engine) -> (r: Result<State, Error>)
        requires
            old(e).wf(),
        ensures
            final(e).wf(),
            ({
                let i = self.id as int;
                &&& (!old(e).valid(i) || old(e).state_of(i) == State::Running) ==> (r matches Err(
                    x,
                ) && x is InvalidState && *final(e) == *old(e))
                &&& (old(e).valid(i) && old(e).state_of(i) == State::Finished) ==> (r matches Ok(
                    s,
                ) && s == State::Finished && *final(e) == *old(e))
                &&& (old(e).valid(i) && old(e).state_of(i) == State::Panicked) ==> (r matches Err(
                    x,
                ) && x matches Error::Panic(m) && m@ == old(e).payload_view(i) && *final(e)
                    == *old(e))
                &&& old(e).resumable(i) ==> {
                    &&& same_family(*old(e), *final(e))
                    &&& final(e).current == old(e).current
                    &&& final(e).state_of(i).spec_is_terminal()
                    &&& (final(e).state_of(i) == State::Finished <==> old(e).at(
                        i,
                    ).no_fault_left())
                    &&& (old(e).at(i).no_fault_left() ==> (r matches Ok(sf) && sf
                        == State::Finished && final(e).state_of(i) == State::Finished))
                    &&& (!old(e).at(i).no_fault_left() ==> {
                        &&& final(e).state_of(i) == State::Panicked
                        &&& (r matches Err(xp) && xp matches Error::Panic(mp) && mp@
                            == fault_payload_of(old(e).at(i).body@[old(e).at(i).first_fault()]))
                    })
                    &&& (final(e).state_of(i) == State::Finished ==> (r matches Ok(s) && s
                        == State::Finished))
                    &&& (final(e).state_of(i) == State::Panicked ==> (r matches Err(x)
                        && x matches Error::Panic(m) && m@ == final(e).payload_view(i)))
                }
            }),
    {
        let id = self.id;
        if id >= e.coroutines.len() || !e.coroutines[id].live {
            return Err(Error::InvalidState);
        }
        proof {
            lemma_measure_nonneg(*old(e));
            assert(old(e).at(id as int).wf_record(old(e).n()));
        }
        loop
            invariant
                e.wf(),
                (id as int) < e.n(),
                id == self.id,
                e.at(id as int).live,
                same_family(*old(e), *e),
                e.current == old(e).current,
                e.measure() >= 0,
                e.measure() <= old(e).measure(),
                old(e).valid(id as int),
                (old(e).state_of(id as int) == State::Running || old(e).state_of(
                    id as int,
                ).spec_is_terminal()) ==> *e == *old(e),
                old(e).resumable(id as int) ==> e.state_of(id as int) != State::Running,
                (old(e).resumable(id as int) && old(e).at(id as int).no_fault_left()) ==> (e.at(
                    id as int,
                ).no_fault_left() && e.state_of(id as int) != State::Panicked),
                ({
                    let i = id as int;
                    let c0 = old(e).at(i);
                    (old(e).resumable(i) && !c0.no_fault_left()) ==> {
                        &&& e.at(i).body@ == c0.body@
                        &&& if e.state_of(i) == State::Panicked {
                            (e.at(i).panic_payload matches Some(m) && m@ == fault_payload_of(
                                c0.body@[c0.first_fault()],
                            ))
                        } else {
                            &&& e.state_of(i) != State::Finished
                            &&& 0 <= e.at(i).pc() <= c0.body@.len()
                            &&& first_fault_from(c0.body@, e.at(i).pc()) == c0.first_fault()
                        }
                    }
                }),
            decreases e.measure(),
        {
            let st = e.coroutines[id].state;
            match st {
                State::Finished => {
                    return Ok(State::Finished);
                },
                State::Panicked => {
                    let msg = match &e.coroutines[id].panic_payload {
                        Some(m) => m.clone(),
                        None => String::new(),
                    };
                    return Err(Error::Panic(msg));
                },
                State::Running => {
                    return Err(Error::InvalidState);
                },
                _ => {
                    let ghost pre = *e;
                    let _ = self.resume(e);
                    proof {
                        lemma_same_family_trans(*old(e), pre, *e);
                        lemma_measure_nonneg(*e);
                        assert(same_identity(pre.at(id as int), e.at(id as int)));
                        if old(e).resumable(id as int) && !old(e).at(id as int).no_fault_left() {
                            let i = id as int;
                            let c0 = old(e).at(i);
                            let p0 = pre.at(i).pc();
                            let p1 = e.at(i).pc();
                            lemma_first_fault_props(c0.body@, c0.pc());
                            if c0.first_fault() == c0.body@.len() {
                                assert(c0.no_fault_left());
                            }
                            lemma_first_fault_props(c0.body@, p0);
                            if e.state_of(i) == State::Panicked {
                                assert forall|k: int|
                                    p0 <= k < p1 - 1 implies !((#[trigger] c0.body@[k]) is Panic)
                                by {
                                    assert(pre.at(i).body@[k] is Resume);
                                    assert(c0.body@[k] == pre.at(i).body@[k]);
                                }
                                lemma_first_fault_skip(c0.body@, p0, p1 - 1);
                            } else if e.state_of(i) == State::Finished {
                                // impossible: the first remaining fault
                                // would have had to be a resume action
                                let ff = c0.first_fault();
                                assert(first_fault_from(c0.body@, p0) == ff);
                                assert(pre.at(i).body@[ff] is Resume);
                                assert(c0.body@[ff] is Panic);
                                assert(false);
                            } else {
                                assert forall|k: int|
                                    p0 <= k < p1 implies !((#[trigger] c0.body@[k]) is Panic)
                                by {
                                    if k < p1 - 1 {
                                        assert(pre.at(i).body@[k] is Resume);
                                    }
                                    assert(c0.body@[k] == pre.at(i).body@[k]);
                                }
                                lemma_first_fault_skip(c0.body@, p0, p1);
                            }
                        }
                    }
                },
            }
        }
    }

    /// Another handle to the same coroutine.
    pub fn duplicate(&self, e: &mut Engine) -> (r: Handle)
        requires
            old(e).wf(),
            old(e).valid(self.id as int),
            old(e).at(self.id as int).handles < usize::MAX,
        ensures
            final(e).wf(),
            r.id == self.id,
            final(e).at(self.id as int).handles == old(e).at(self.id as int).handles + 1,
            final(e).at(self.id as int).state == old(e).at(self.id as int).state,
            final(e).at(self.id as int).live == old(e).at(self.id as int).live,
            forall|j: int|
                0 <= j < old(e).n() && j != self.id as int ==> #[trigger] final(e).at(j) == old(
                    e,
                ).at(j),
            final(e).n() == old(e).n(),
            final(e).current == old(e).current,
            final(e).reserved == old(e).reserved,
            final(e).capacity == old(e).capacity,
    {
        let id = self.id;
        let ghost s_pre = e.coroutines@;
        let mut rec = e.coroutines.remove(id);
        rec.handles = rec.handles + 1;
        let ghost grec = rec;
        e.coroutines.insert(id, rec);
        proof {
            assert(e.coroutines@ =~= s_pre.update(id as int, grec));
            lemma_sums_after_update(s_pre, id as int, grec);
            lemma_wf_after_update(*old(e), *e, id as int, grec);
        }
        Handle { id }
    }

    /// Drop this handle.  When the last handle of a coroutine that is not
    /// `Running` goes away, the coroutine is abandoned: it is destroyed and
    /// its stack memory is released, without one further action of its body
    /// running.  A running coroutine is only marked handle-less; it keeps
    /// its stack until it stops.
    pub fn release(self, e: &mut Engine)
        requires
            old(e).wf(),
        ensures
            final(e).wf(),
            ({
                let i = self.id as int;
                if !old(e).valid(i) || old(e).at(i).handles == 0 {
                    *final(e) == *old(e)
                } else {
                    &&& final(e).n() == old(e).n()
                    &&& final(e).current == old(e).current
                    &&& final(e).capacity == old(e).capacity
                    &&& final(e).at(i).handles == old(e).at(i).handles - 1
                    &&& final(e).at(i).state == old(e).at(i).state
                    &&& final(e).at(i).pc() == old(e).at(i).pc()
                    &&& final(e).at(i).parent == old(e).at(i).parent
                    &&& final(e).at(i).panic_payload == old(e).at(i).panic_payload
                    &&& final(e).at(i).name == old(e).at(i).name
                    &&& final(e).at(i).body@ == old(e).at(i).body@
                    &&& (forall|j: int|
                        0 <= j < old(e).n() && j != i ==> #[trigger] final(e).at(j) == old(e).at(
                            j,
                        ))
                    &&& if old(e).at(i).handles == 1 && old(e).state_of(i) != State::Running {
                        // abandoned: destroyed, stack released
                        &&& !final(e).at(i).live
                        &&& final(e).at(i).stack is None
                        &&& final(e).reserved as int == old(e).reserved as int - old(e).at(
                            i,
                        ).stack_bytes()
                    } else {
                        &&& final(e).at(i).live
                        &&& final(e).at(i).stack == old(e).at(i).stack
                        &&& final(e).reserved == old(e).reserved
                    }
                }
            }),
    {
        let id = self.id;
        if id >= e.coroutines.len() {
            return;
        }
        let lv = e.coroutines[id].live;
        let h = e.coroutines[id].handles;
        if !lv || h == 0 {
            return;
        }
        let running = matches!(e.coroutines[id].state, State::Running);
        if h > 1 || running {
            let ghost s_pre = e.coroutines@;
            let mut rec = e.coroutines.remove(id);
            rec.handles = rec.handles - 1;
            let ghost grec = rec;
            e.coroutines.insert(id, rec);
            proof {
                assert(e.coroutines@ =~= s_pre.update(id as int, grec));
                lemma_sums_after_update(s_pre, id as int, grec);
                lemma_wf_after_update(*old(e), *e, id as int, grec);
            }
        } else {
            proof {
                lemma_stack_fits(*old(e), id as int);
            }
            let size = match &e.coroutines[id].stack {
                Some(s) => s.size,
                None => 0,
            };
            let ghost s_pre = e.coroutines@;
            let mut rec = e.coroutines.remove(id);
            rec.handles = 0;
            rec.live = false;
            rec.stack = None;
            let ghost grec = rec;
            e.coroutines.insert(id, rec);
            e.reserved = e.reserved - size;
            proof {
                assert(e.coroutines@ =~= s_pre.update(id as int, grec));
                lemma_sums_after_update(s_pre, id as int, grec);
                assert(f_stack()(grec) == 0);
                lemma_wf_after_update(*old(e), *e, id as int, grec);
            }
        }
    }
}

} // verus!
