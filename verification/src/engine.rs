use vstd::prelude::*;

use crate::context::Context;
use crate::error::Error;
use crate::handle::Handle;
use crate::options::Options;
use crate::stack::Stack;
use crate::state::State;
use crate::sums::{lemma_sum_by_nonneg, lemma_sum_by_push, lemma_sum_by_update, sum_by};

verus! {

/// One action of a coroutine body.  A body is a finite script of actions;
/// when the script runs out, the trampoline commits `Finished` and yields to
/// the parent, exactly as a body that returns normally.
pub enum Op {
    /// Yield voluntarily: end the turn with `Suspended`.
    Sched,
    /// Wait on an external event: end the turn with `Blocked`.
    Block,
    /// Resume the coroutine with this index; control comes back here when
    /// that coroutine next yields.  Resuming a non-resumable coroutine is an
    /// error for the body and changes nothing.
    Resume(usize),
    /// Raise an unrecovered fault with this payload.  The trampoline
    /// captures it, commits `Panicked` and yields to the parent.
    Panic(String),
}

impl Op {
    /// An exact copy of this action.
    pub fn duplicate(&self) -> (r: Op)
        ensures
            r == *self,
    {
        match self {
            Op::Sched => Op::Sched,
            Op::Block => Op::Block,
            Op::Resume(t) => Op::Resume(*t),
            Op::Panic(m) => Op::Panic(m.clone()),
        }
    }
}

/// A coroutine: an execution stack (unless it stands for the native thread
/// itself), the saved context of its last suspension point, its state, an
/// optional name, and a transient back-link to whoever last resumed it.
pub struct Coroutine {
    /// The owned stack; `None` for a native-thread pseudo-coroutine.
    pub stack: Option<Stack>,
    /// Valid whenever the coroutine is not running.
    pub saved_context: Context,
    /// Where the coroutine stands in its lifecycle.
    pub state: State,
    /// The name supplied at spawn, if any.
    pub name: Option<String>,
    /// Set by `resume`, consumed by the next yield; `None` otherwise.
    pub parent: Option<usize>,
    /// The body script; never changes after spawn.
    pub body: Vec<Op>,
    /// The fault payload captured by the trampoline, delivered via `join`.
    pub panic_payload: Option<String>,
    /// How many handles alias this coroutine.
    pub handles: usize,
    /// False once the coroutine has been destroyed.
    pub live: bool,
}

impl Coroutine {
    /// The next action of the body to run.
    pub open spec fn pc(self) -> int {
        self.saved_context.pc as int
    }

    /// The bytes this coroutine's stack keeps reserved.
    pub open spec fn stack_bytes(self) -> int {
        match self.stack {
            Some(s) => s.size as int,
            None => 0,
        }
    }

    /// How much work is left: the actions still to run, plus the final
    /// transition into a terminal state.
    pub open spec fn steps_left(self) -> int {
        self.body@.len() - self.pc() + if self.state.spec_is_terminal() {
            0int
        } else {
            1int
        }
    }

    /// No fault action remains at or after the body's current position:
    /// driven to its end, this coroutine can only finish normally.
    pub open spec fn no_fault_left(self) -> bool {
        forall|k: int|
            self.pc() <= k < self.body@.len() ==> !((#[trigger] self.body@[k]) is Panic)
    }

    /// Where the first fault action at or after the body's current
    /// position stands; the body's length when none remains.
    pub open spec fn first_fault(self) -> int {
        first_fault_from(self.body@, self.pc())
    }

    /// Record-level well-formedness inside a family of `n` coroutines.
    pub open spec fn wf_record(self, n: int) -> bool {
        &&& self.pc() <= self.body@.len()
        &&& match self.parent {
            Some(p) => (p as int) < n,
            None => true,
        }
    }

    /// The name supplied at spawn, if any.
    pub fn name(&self) -> (r: Option<&str>)
        ensures
            (r is Some) == (self.name is Some),
            r matches Some(s) ==> s@ == self.name.unwrap()@,
    {
        match &self.name {
            Some(n) => Some(n.as_str()),
            None => None,
        }
    }

    /// Whether the coroutine is currently unwinding through a fault: true
    /// only after a fault is raised and before the terminal `Panicked`
    /// state is committed.  The engine raises the fault and commits
    /// `Panicked` in one transition, so no observable state lies inside
    /// that window: this is false for every coroutine, an
    /// already-committed `Panicked` one included.  (The captured payload
    /// itself is surfaced by `join`.)
    pub fn panicking(&self) -> (r: bool)
        ensures
            r == false,
    {
        false
    }

    /// Whether the body has returned normally.
    pub fn finished(&self) -> (r: bool)
        ensures
            r == (self.state == State::Finished),
    {
        matches!(self.state, State::Finished)
    }
}

/// The payload a fault action carries; the empty sequence for any other
/// action.
pub open spec fn fault_payload_of(op: Op) -> Seq<char> {
    match op {
        Op::Panic(m) => m@,
        _ => Seq::<char>::empty(),
    }
}

/// The first position at or after `k` whose action is a fault; `body`'s
/// length when none remains.
pub open spec fn first_fault_from(body: Seq<Op>, k: int) -> int
    decreases body.len() - k,
{
    if k < 0 || k >= body.len() {
        body.len() as int
    } else if body[k] is Panic {
        k
    } else {
        first_fault_from(body, k + 1)
    }
}

/// Where the first remaining fault stands: at or after `k`, a fault when
/// in range, and nothing before it is one.
pub proof fn lemma_first_fault_props(body: Seq<Op>, k: int)
    requires
        0 <= k <= body.len(),
    ensures
        k <= first_fault_from(body, k) <= body.len(),
        first_fault_from(body, k) < body.len() ==> body[first_fault_from(body, k)] is Panic,
        forall|j: int|
            k <= j < first_fault_from(body, k) ==> !((#[trigger] body[j]) is Panic),
    decreases body.len() - k,
{
    if k < body.len() && !(body[k] is Panic) {
        lemma_first_fault_props(body, k + 1);
    }
}

/// Skipping a fault-free stretch does not move the first fault.
pub proof fn lemma_first_fault_skip(body: Seq<Op>, k: int, k2: int)
    requires
        0 <= k <= k2 <= body.len(),
        forall|j: int| k <= j < k2 ==> !((#[trigger] body[j]) is Panic),
    ensures
        first_fault_from(body, k) == first_fault_from(body, k2),
    decreases k2 - k,
{
    if k < k2 {
        lemma_first_fault_skip(body, k + 1, k2);
    }
}

/// The contribution of one coroutine to the reserved stack bytes.
pub open spec fn f_stack() -> spec_fn(Coroutine) -> int {
    |c: Coroutine| c.stack_bytes()
}

/// The contribution of one coroutine to the remaining work.
pub open spec fn f_steps() -> spec_fn(Coroutine) -> int {
    |c: Coroutine| c.steps_left()
}

/// One family of coroutines, as driven by a single native thread.  No two
/// coroutines of a family ever run at once: control moves only by an
/// explicit resume (into a coroutine) or yield (back along the parent link).
pub struct Engine {
    /// Every coroutine ever created in this family, by index.
    pub coroutines: Vec<Coroutine>,
    /// The coroutine currently executing on the driving thread.
    pub current: usize,
    /// The address-space budget for execution stacks, in bytes.
    pub capacity: usize,
    /// The bytes currently reserved by live stacks.
    pub reserved: usize,
}

impl Engine {
    /// How many coroutines the family holds (live or destroyed).
    pub open spec fn n(self) -> int {
        self.coroutines@.len() as int
    }

    /// The record of coroutine `i`.
    pub open spec fn at(self, i: int) -> Coroutine {
        self.coroutines@[i]
    }

    /// A usable coroutine index: in range and not destroyed.
    pub open spec fn valid(self, i: int) -> bool {
        0 <= i < self.n() && self.at(i).live
    }

    /// The state of coroutine `i`.
    pub open spec fn state_of(self, i: int) -> State {
        self.at(i).state
    }

    /// `resume` switches into `i` exactly when this holds.
    pub open spec fn resumable(self, i: int) -> bool {
        self.valid(i) && self.state_of(i).spec_is_resumable()
    }

    /// The captured fault payload of `i`, the empty sequence if none.
    pub open spec fn payload_view(self, i: int) -> Seq<char> {
        match self.at(i).panic_payload {
            Some(m) => m@,
            None => Seq::<char>::empty(),
        }
    }

    /// The total work left in the family; every interpreter step lowers it.
    pub open spec fn measure(self) -> int {
        sum_by(self.coroutines@, f_steps())
    }

    /// The engine invariant: somebody is running, every record is sound,
    /// and the reserved bytes are exactly what the live stacks hold.
    pub open spec fn wf(self) -> bool {
        &&& 1 <= self.n()
        &&& (self.current as int) < self.n()
        &&& self.at(self.current as int).live
        &&& self.state_of(self.current as int) == State::Running
        &&& forall|i: int|
            0 <= i < self.n() ==> (#[trigger] self.at(i)).wf_record(self.n())
        &&& sum_by(self.coroutines@, f_stack()) == self.reserved as int
        &&& self.reserved <= self.capacity
    }

    /// The running coroutine's turn has run to completion: no action left.
    pub open spec fn turn_done(self) -> bool {
        self.at(self.current as int).pc() == self.at(self.current as int).body@.len()
    }

    /// The next action of the running coroutine.
    pub open spec fn next_op(self) -> Op {
        self.at(self.current as int).body@[self.at(self.current as int).pc()]
    }

    /// The running coroutine has a recorded parent that control can switch
    /// back to.
    pub open spec fn parent_switchable(self) -> bool {
        let cur = self.current as int;
        match self.at(cur).parent {
            Some(p) => (p as int) < self.n() && self.at(p as int).live && self.state_of(p as int)
                == State::Running && p != self.current,
            None => false,
        }
    }

    /// A family with unlimited stack capacity, holding only the native
    /// thread's own top-level pseudo-coroutine, which is `Running`.
    pub fn new() -> (r: Engine)
        ensures
            r.wf(),
            r.n() == 1,
            r.current == 0,
            r.capacity == usize::MAX,
            r.reserved == 0,
            r.at(0).state == State::Running,
            r.at(0).stack is None,
            r.at(0).name is None,
            r.at(0).parent is None,
            r.at(0).panic_payload is None,
            r.at(0).body@.len() == 0,
            r.at(0).handles == 1,
            r.at(0).live,
    {
        Engine::with_capacity(usize::MAX)
    }

    /// Same as `new`, with a stack budget of `capacity` bytes.
    pub fn with_capacity(capacity: usize) -> (r: Engine)
        ensures
            r.wf(),
            r.n() == 1,
            r.current == 0,
            r.capacity == capacity,
            r.reserved == 0,
            r.at(0).state == State::Running,
            r.at(0).stack is None,
            r.at(0).name is None,
            r.at(0).parent is None,
            r.at(0).panic_payload is None,
            r.at(0).body@.len() == 0,
            r.at(0).handles == 1,
            r.at(0).live,
    {
        let root = Coroutine {
            stack: None,
            saved_context: Context::prime(),
            state: State::Running,
            name: None,
            parent: None,
            body: Vec::new(),
            panic_payload: None,
            handles: 1,
            live: true,
        };
        let mut v: Vec<Coroutine> = Vec::new();
        let ghost s0 = v@;
        v.push(root);
        proof {
            lemma_sum_by_push(s0, v@[0], f_stack());
            lemma_sum_by_push(s0, v@[0], f_steps());
            assert(v@ == s0.push(v@[0]));
        }
        Engine { coroutines: v, current: 0, capacity, reserved: 0 }
    }

    /// How many coroutines the family holds.
    pub fn count(&self) -> (r: usize)
        ensures
            r == self.n(),
    {
        self.coroutines.len()
    }

    /// Borrow the record of coroutine `id`.
    pub fn get(&self, id: usize) -> (r: &Coroutine)
        requires
            (id as int) < self.n(),
        ensures
            *r == self.at(id as int),
    {
        &self.coroutines[id]
    }

    /// The bytes currently reserved by live stacks.
    pub fn reserved_bytes(&self) -> (r: usize)
        ensures
            r == self.reserved,
    {
        self.reserved
    }

    /// The stack budget of the family.
    pub fn capacity_bytes(&self) -> (r: usize)
        ensures
            r == self.capacity,
    {
        self.capacity
    }
}

/// The fields that no handoff ever touches: how many coroutines there are,
/// the stack accounting, and each record's identity (body, name, stack,
/// handle count, liveness).
pub open spec fn same_identity(a: Coroutine, b: Coroutine) -> bool {
    &&& b.body@ == a.body@
    &&& b.name == a.name
    &&& b.handles == a.handles
    &&& b.live == a.live
    &&& b.stack == a.stack
}

/// `post` is `pre` with at most states, contexts, parent links and fault
/// payloads changed: resume and yield never create, destroy or rename a
/// coroutine and never move stack memory.
pub open spec fn same_family(pre: Engine, post: Engine) -> bool {
    &&& post.n() == pre.n()
    &&& post.capacity == pre.capacity
    &&& post.reserved == pre.reserved
    &&& forall|i: int| 0 <= i < pre.n() ==> #[trigger] same_identity(pre.at(i), post.at(i))
}

/// A body with no fault action left keeps that property while its
/// position only moves forward over an unchanged script.
pub proof fn lemma_no_fault_left_monotone(a: Coroutine, b: Coroutine)
    requires
        a.no_fault_left(),
        b.body@ == a.body@,
        b.pc() >= a.pc(),
    ensures
        b.no_fault_left(),
{
    assert forall|k: int|
        b.pc() <= k < b.body@.len() implies !((#[trigger] b.body@[k]) is Panic) by {
        assert(b.body@[k] == a.body@[k]);
    }
}

/// What replacing one record does to both engine sums at once.
pub proof fn lemma_sums_after_update(s: Seq<Coroutine>, i: int, rec: Coroutine)
    requires
        0 <= i < s.len(),
    ensures
        sum_by(s.update(i, rec), f_stack()) == sum_by(s, f_stack()) - s[i].stack_bytes()
            + rec.stack_bytes(),
        sum_by(s.update(i, rec), f_steps()) == sum_by(s, f_steps()) - s[i].steps_left()
            + rec.steps_left(),
{
    lemma_sum_by_update(s, i, rec, f_stack());
    lemma_sum_by_update(s, i, rec, f_steps());
}

/// In a well-formed family the remaining work is never negative.
pub proof fn lemma_measure_nonneg(e: Engine)
    requires
        e.wf(),
    ensures
        e.measure() >= 0,
{
    assert forall|j: int|
        0 <= j < e.coroutines@.len() implies #[trigger] f_steps()(e.coroutines@[j]) >= 0 by {
        assert(e.at(j).wf_record(e.n()));
    }
    lemma_sum_by_nonneg(e.coroutines@, f_steps());
}

/// No single stack holds more than everything reserved.
pub proof fn lemma_stack_fits(e: Engine, i: int)
    requires
        e.wf(),
        0 <= i < e.n(),
    ensures
        0 <= e.at(i).stack_bytes() <= e.reserved as int,
{
    assert forall|j: int|
        0 <= j < e.coroutines@.len() implies #[trigger] f_stack()(e.coroutines@[j]) >= 0 by {}
    crate::sums::lemma_sum_by_bound(e.coroutines@, i, f_stack());
    assert(f_stack()(e.coroutines@[i]) == e.at(i).stack_bytes());
}

/// The engine invariant survives replacing one record by a sound one.
pub proof fn lemma_wf_after_update(pre: Engine, post: Engine, i: int, rec: Coroutine)
    requires
        pre.wf(),
        0 <= i < pre.n(),
        post.coroutines@ == pre.coroutines@.update(i, rec),
        rec.wf_record(pre.n()),
        (post.current as int) < post.n(),
        post.at(post.current as int).live,
        post.state_of(post.current as int) == State::Running,
        sum_by(post.coroutines@, f_stack()) == post.reserved as int,
        post.reserved <= post.capacity,
    ensures
        post.wf(),
{
    assert forall|j: int| 0 <= j < post.n() implies (#[trigger] post.at(j)).wf_record(post.n())
    by {
        if j != i {
            assert(post.at(j) == pre.at(j));
            assert(pre.at(j).wf_record(pre.n()));
        }
    }
}

/// The engine invariant survives appending a sound record.
pub proof fn lemma_wf_after_push(pre: Engine, post: Engine, rec: Coroutine)
    requires
        pre.wf(),
        post.coroutines@ == pre.coroutines@.push(rec),
        rec.wf_record(pre.n() + 1),
        post.current == pre.current,
        sum_by(post.coroutines@, f_stack()) == post.reserved as int,
        post.reserved <= post.capacity,
    ensures
        post.wf(),
{
    assert forall|j: int| 0 <= j < post.n() implies (#[trigger] post.at(j)).wf_record(post.n())
    by {
        if j < pre.n() {
            assert(post.at(j) == pre.at(j));
            assert(pre.at(j).wf_record(pre.n()));
        }
    }
    assert(post.at(post.current as int) == pre.at(pre.current as int));
}

/// Exact description of a yield: the running coroutine ends its turn with
/// state `s` and control returns to the parent recorded by the most recent
/// resume; nothing else moves.
pub open spec fn yield_rel(pre: Engine, post: Engine, s: State) -> bool {
    let cur = pre.current as int;
    &&& post.current == pre.at(cur).parent.unwrap()
    &&& post.at(cur).state == s
    &&& post.at(cur).parent is None
    &&& post.at(cur).saved_context == pre.at(cur).saved_context
    &&& post.at(cur).panic_payload == pre.at(cur).panic_payload
    &&& post.n() == pre.n()
    &&& post.capacity == pre.capacity
    &&& post.reserved == pre.reserved
    &&& forall|j: int| 0 <= j < pre.n() && j != cur ==> #[trigger] post.at(j) == pre.at(j)
}

/// Exact description of the switch into `t`: the running coroutine is
/// recorded as `t`'s parent, `t` becomes `Running` and takes the thread,
/// and nothing else moves.
pub open spec fn enter_rel(pre: Engine, post: Engine, t: usize) -> bool {
    &&& post.wf()
    &&& same_family(pre, post)
    &&& post.measure() == pre.measure()
    &&& post.current == t
    &&& post.n() == pre.n()
    &&& post.capacity == pre.capacity
    &&& post.reserved == pre.reserved
    &&& post.at(t as int).state == State::Running
    &&& post.at(t as int).parent == Some(pre.current)
    &&& post.at(t as int).saved_context == pre.at(t as int).saved_context
    &&& post.at(t as int).panic_payload == pre.at(t as int).panic_payload
    &&& forall|j: int|
        0 <= j < pre.n() && j != t as int ==> #[trigger] post.at(j) == pre.at(j)
}

/// Switch into `t`: record the running coroutine as `t`'s parent, mark `t`
/// `Running`, and hand it the thread.  This is the only transition into
/// `Running`, and it happens only when `t` is resumable.
pub(crate) fn enter(e: &mut Engine, t: usize)
    requires
        old(e).wf(),
        old(e).resumable(t as int),
    ensures
        enter_rel(*old(e), *final(e), t),
{
    let me = e.current;
    let ghost s_pre = e.coroutines@;
    let mut rec = e.coroutines.remove(t);
    rec.state = State::Running;
    rec.parent = Some(me);
    let ghost grec = rec;
    e.coroutines.insert(t, rec);
    e.current = t;
    proof {
        assert(e.coroutines@ =~= s_pre.update(t as int, grec));
        lemma_sum_by_update(s_pre, t as int, grec, f_stack());
        lemma_sum_by_update(s_pre, t as int, grec, f_steps());
        assert(f_stack()(grec) == f_stack()(s_pre[t as int]));
        assert(f_steps()(grec) == f_steps()(s_pre[t as int]));
        lemma_wf_after_update(*old(e), *e, t as int, grec);
    }
}

/// End the running coroutine's turn: capture its context at `new_pc`, store
/// a captured fault if there is one, commit state `s`, consume the parent
/// link and switch back to the parent.  This is the only transition out of
/// `Running`.
pub(crate) fn finish_turn(e: &mut Engine, s: State, new_pc: usize, fault: Option<String>)
    requires
        old(e).wf(),
        old(e).parent_switchable(),
        s != State::Running,
        new_pc as int <= old(e).at(old(e).current as int).body@.len(),
        fault is Some ==> s == State::Panicked,
    ensures
        final(e).wf(),
        same_family(*old(e), *final(e)),
        final(e).current == old(e).at(old(e).current as int).parent.unwrap(),
        final(e).n() == old(e).n(),
        final(e).capacity == old(e).capacity,
        final(e).reserved == old(e).reserved,
        final(e).at(old(e).current as int).state == s,
        final(e).at(old(e).current as int).parent is None,
        final(e).at(old(e).current as int).saved_context.pc == new_pc,
        final(e).at(old(e).current as int).panic_payload == if fault is Some {
            fault
        } else {
            old(e).at(old(e).current as int).panic_payload
        },
        forall|j: int|
            0 <= j < old(e).n() && j != old(e).current as int ==> #[trigger] final(e).at(j)
                == old(e).at(j),
        final(e).measure() == old(e).measure() - old(e).at(old(e).current as int).steps_left()
            + final(e).at(old(e).current as int).steps_left(),
{
    let cur = e.current;
    let p = match e.coroutines[cur].parent {
        Some(p) => p,
        None => 0,  // never reached: the caller shows a parent is recorded
    };
    let ghost s_pre = e.coroutines@;
    let mut rec = e.coroutines.remove(cur);
    rec.state = s;
    rec.parent = None;
    rec.saved_context = Context::capture(new_pc);
    match fault {
        Some(m) => {
            rec.panic_payload = Some(m);
        },
        None => {},
    }
    let ghost grec = rec;
    e.coroutines.insert(cur, rec);
    e.current = p;
    proof {
        assert(e.coroutines@ =~= s_pre.update(cur as int, grec));
        lemma_sum_by_update(s_pre, cur as int, grec, f_stack());
        lemma_sum_by_update(s_pre, cur as int, grec, f_steps());
        assert(f_stack()(grec) == f_stack()(s_pre[cur as int]));
        lemma_wf_after_update(*old(e), *e, cur as int, grec);
    }
}

impl Coroutine {
    /// Make a coroutine record that stands for a native execution with no
    /// owned stack — the thread's own top-level pseudo-coroutine.
    pub fn empty(e: &mut Engine, name: Option<String>, state: State) -> (r: Handle)
        requires
            old(e).wf(),
        ensures
            final(e).wf(),
            r.id == old(e).n(),
            final(e).n() == old(e).n() + 1,
            final(e).current == old(e).current,
            final(e).capacity == old(e).capacity,
            final(e).reserved == old(e).reserved,
            final(e).at(r.id as int).state == state,
            final(e).at(r.id as int).stack is None,
            final(e).at(r.id as int).name == name,
            final(e).at(r.id as int).parent is None,
            final(e).at(r.id as int).panic_payload is None,
            final(e).at(r.id as int).body@.len() == 0,
            final(e).at(r.id as int).handles == 1,
            final(e).at(r.id as int).live,
            forall|j: int| 0 <= j < old(e).n() ==> #[trigger] final(e).at(j) == old(e).at(j),
    {
        let id = e.coroutines.len();
        let rec = Coroutine {
            stack: None,
            saved_context: Context::prime(),
            state,
            name,
            parent: None,
            body: Vec::new(),
            panic_payload: None,
            handles: 1,
            live: true,
        };
        let ghost s_pre = e.coroutines@;
        let ghost grec = rec;
        e.coroutines.push(rec);
        proof {
            lemma_sum_by_push(s_pre, grec, f_stack());
            lemma_sum_by_push(s_pre, grec, f_steps());
            assert(f_stack()(grec) == 0);
            lemma_wf_after_push(*old(e), *e, grec);
        }
        Handle { id }
    }

    /// Wire a preallocated stack and a freshly primed context into the
    /// family as a new coroutine.  The stack must fit the family's budget.
    pub fn new(e: &mut Engine, name: Option<String>, stack: Stack, ctx: Context, state: State) -> (r:
        Handle)
        requires
            old(e).wf(),
            old(e).reserved + stack.size <= old(e).capacity,
            ctx.pc == 0,
        ensures
            final(e).wf(),
            r.id == old(e).n(),
            final(e).n() == old(e).n() + 1,
            final(e).current == old(e).current,
            final(e).capacity == old(e).capacity,
            final(e).reserved == old(e).reserved + stack.size,
            final(e).at(r.id as int).state == state,
            final(e).at(r.id as int).stack == Some(stack),
            final(e).at(r.id as int).name == name,
            final(e).at(r.id as int).parent is None,
            final(e).at(r.id as int).panic_payload is None,
            final(e).at(r.id as int).body@.len() == 0,
            final(e).at(r.id as int).saved_context == ctx,
            final(e).at(r.id as int).handles == 1,
            final(e).at(r.id as int).live,
            forall|j: int| 0 <= j < old(e).n() ==> #[trigger] final(e).at(j) == old(e).at(j),
    {
        let id = e.coroutines.len();
        let size = stack.size;
        let rec = Coroutine {
            stack: Some(stack),
            saved_context: ctx,
            state,
            name,
            parent: None,
            body: Vec::new(),
            panic_payload: None,
            handles: 1,
            live: true,
        };
        let ghost s_pre = e.coroutines@;
        let ghost grec = rec;
        e.coroutines.push(rec);
        e.reserved = e.reserved + size;
        proof {
            lemma_sum_by_push(s_pre, grec, f_stack());
            lemma_sum_by_push(s_pre, grec, f_steps());
            assert(f_stack()(grec) == size as int);
            lemma_wf_after_push(*old(e), *e, grec);
        }
        Handle { id }
    }

    /// Spawn a coroutine with the given body and options: allocate a stack
    /// sized per the options, prime a fresh context with the trampoline,
    /// and construct the coroutine `Suspended`.  The body never runs here.
    /// Fails with `AllocationError` exactly when the requested stack does
    /// not fit the family's remaining budget; other coroutines are
    /// unaffected either way.
    pub fn spawn_opts(e: &mut Engine, body: Vec<Op>, opts: Options) -> (r: Result<Handle, Error>)
        requires
            old(e).wf(),
        ensures
            final(e).wf(),
            (r is Ok) <==> old(e).reserved + opts.stack_size <= old(e).capacity,
            r matches Err(x) ==> x is AllocationError && *final(e) == *old(e),
            r matches Ok(h) ==> {
                &&& h.id == old(e).n()
                &&& final(e).n() == old(e).n() + 1
                &&& final(e).current == old(e).current
                &&& final(e).capacity == old(e).capacity
                &&& final(e).reserved == old(e).reserved + opts.stack_size
                &&& final(e).at(h.id as int).state == State::Suspended
                &&& final(e).at(h.id as int).stack == Some(Stack { size: opts.stack_size })
                &&& final(e).at(h.id as int).name == opts.name
                &&& final(e).at(h.id as int).parent is None
                &&& final(e).at(h.id as int).panic_payload is None
                &&& final(e).at(h.id as int).body@ == body@
                &&& final(e).at(h.id as int).saved_context.pc == 0
                &&& final(e).at(h.id as int).handles == 1
                &&& final(e).at(h.id as int).live
                &&& forall|j: int| 0 <= j < old(e).n() ==> #[trigger] final(e).at(j) == old(e).at(j)
            },
    {
        if opts.stack_size > e.capacity - e.reserved {
            return Err(Error::AllocationError);
        }
        let id = e.coroutines.len();
        let size = opts.stack_size;
        let rec = Coroutine {
            stack: Some(Stack::allocate(size)),
            saved_context: Context::prime(),
            state: State::Suspended,
            name: opts.name,
            parent: None,
            body,
            panic_payload: None,
            handles: 1,
            live: true,
        };
        let ghost s_pre = e.coroutines@;
        let ghost grec = rec;
        e.coroutines.push(rec);
        e.reserved = e.reserved + size;
        proof {
            lemma_sum_by_push(s_pre, grec, f_stack());
            lemma_sum_by_push(s_pre, grec, f_steps());
            assert(f_stack()(grec) == size as int);
            lemma_wf_after_push(*old(e), *e, grec);
        }
        Ok(Handle { id })
    }

    /// Spawn a coroutine with the default options.
    pub fn spawn(e: &mut Engine, body: Vec<Op>) -> (r: Result<Handle, Error>)
        requires
            old(e).wf(),
        ensures
            final(e).wf(),
            (r is Ok) <==> old(e).reserved + crate::options::DEFAULT_STACK_SIZE <= old(e).capacity,
            r matches Err(x) ==> x is AllocationError && *final(e) == *old(e),
            r matches Ok(h) ==> {
                &&& h.id == old(e).n()
                &&& final(e).n() == old(e).n() + 1
                &&& final(e).current == old(e).current
                &&& final(e).capacity == old(e).capacity
                &&& final(e).reserved == old(e).reserved + crate::options::DEFAULT_STACK_SIZE
                &&& final(e).at(h.id as int).state == State::Suspended
                &&& final(e).at(h.id as int).stack == Some(
                    Stack { size: crate::options::DEFAULT_STACK_SIZE },
                )
                &&& final(e).at(h.id as int).name is None
                &&& final(e).at(h.id as int).body@ == body@
                &&& final(e).at(h.id as int).saved_context.pc == 0
                &&& final(e).at(h.id as int).parent is None
                &&& final(e).at(h.id as int).panic_payload is None
                &&& final(e).at(h.id as int).handles == 1
                &&& final(e).at(h.id as int).live
                &&& forall|j: int| 0 <= j < old(e).n() ==> #[trigger] final(e).at(j) == old(e).at(j)
            },
    {
        Coroutine::spawn_opts(e, body, Options::new())
    }

    /// End the running coroutine's turn with `state` and switch to the
    /// parent recorded by the most recent resume.  With no recorded parent
    /// to switch to (the top-level pseudo-coroutine), nothing changes.
    pub fn yield_now(e: &mut Engine, state: State)
        requires
            old(e).wf(),
            state != State::Running,
        ensures
            final(e).wf(),
            old(e).parent_switchable() ==> yield_rel(*old(e), *final(e), state),
            !old(e).parent_switchable() ==> *final(e) == *old(e),
    {
        let cur = e.current;
        let switchable = match e.coroutines[cur].parent {
            Some(p) => {
                p != cur && e.coroutines[p].live && matches!(e.coroutines[p].state, State::Running)
            },
            None => false,
        };
        if switchable {
            let pc = e.coroutines[cur].saved_context.pc;
            finish_turn(e, state, pc, None);
        }
    }

    /// Yield the running coroutine back to its parent with `Suspended`:
    /// voluntary, cooperative rescheduling.
    pub fn sched(e: &mut Engine)
        requires
            old(e).wf(),
        ensures
            final(e).wf(),
            old(e).parent_switchable() ==> yield_rel(*old(e), *final(e), State::Suspended),
            !old(e).parent_switchable() ==> *final(e) == *old(e),
    {
        Coroutine::yield_now(e, State::Suspended)
    }

    /// Yield the running coroutine back to its parent with `Blocked`: it
    /// waits on an external event until a scheduler resumes it.
    pub fn block(e: &mut Engine)
        requires
            old(e).wf(),
        ensures
            final(e).wf(),
            old(e).parent_switchable() ==> yield_rel(*old(e), *final(e), State::Blocked),
            !old(e).parent_switchable() ==> *final(e) == *old(e),
    {
        Coroutine::yield_now(e, State::Blocked)
    }

    /// A handle to whichever coroutine is running on the driving thread.
    pub fn current(e: &Engine) -> (r: Handle)
        ensures
            r.id == e.current,
    {
        Handle { id: e.current }
    }
}

/// Exact description of one interpreter step on behalf of `me`: what the
/// running coroutine's next action (or the trampoline, when its body has
/// run out) does to the family, and whether it handed control back to
/// `me` with a yielded state (`done`).
pub open spec fn step_rel(pre: Engine, post: Engine, me: usize, done: Option<State>) -> bool {
    &&& post.wf()
    &&& same_family(pre, post)
    &&& post.measure() < pre.measure()
    &&& post.at(me as int) == pre.at(me as int)
    &&& ({
            let cur = pre.current as int;
            let c = pre.at(cur);
            let p = c.parent.unwrap();
            if c.pc() == c.body@.len() {
                // the body returned normally: the trampoline commits
                // `Finished` and yields to the parent
                &&& post.current == p
                &&& post.at(cur).state == State::Finished
                &&& post.at(cur).parent is None
                &&& post.at(cur).pc() == c.pc()
                &&& post.at(cur).panic_payload == c.panic_payload
                &&& (forall|j: int|
                    0 <= j < pre.n() && j != cur ==> #[trigger] post.at(j) == pre.at(j))
                &&& done == if p == me {
                    Some(State::Finished)
                } else {
                    None::<State>
                }
            } else {
                match c.body@[c.pc()] {
                    Op::Sched => {
                        &&& post.current == p
                        &&& post.at(cur).state == State::Suspended
                        &&& post.at(cur).parent is None
                        &&& post.at(cur).pc() == c.pc() + 1
                        &&& post.at(cur).panic_payload == c.panic_payload
                        &&& (forall|j: int|
                            0 <= j < pre.n() && j != cur ==> #[trigger] post.at(j) == pre.at(j))
                        &&& done == if p == me {
                            Some(State::Suspended)
                        } else {
                            None::<State>
                        }
                    },
                    Op::Block => {
                        &&& post.current == p
                        &&& post.at(cur).state == State::Blocked
                        &&& post.at(cur).parent is None
                        &&& post.at(cur).pc() == c.pc() + 1
                        &&& post.at(cur).panic_payload == c.panic_payload
                        &&& (forall|j: int|
                            0 <= j < pre.n() && j != cur ==> #[trigger] post.at(j) == pre.at(j))
                        &&& done == if p == me {
                            Some(State::Blocked)
                        } else {
                            None::<State>
                        }
                    },
                    Op::Panic(m) => {
                        // the trampoline catches the fault, stores the
                        // payload, commits `Panicked` and yields
                        &&& post.current == p
                        &&& post.at(cur).state == State::Panicked
                        &&& post.at(cur).parent is None
                        &&& post.at(cur).pc() == c.pc() + 1
                        &&& post.at(cur).panic_payload == Some(m)
                        &&& (forall|j: int|
                            0 <= j < pre.n() && j != cur ==> #[trigger] post.at(j) == pre.at(j))
                        &&& done == if p == me {
                            Some(State::Panicked)
                        } else {
                            None::<State>
                        }
                    },
                    Op::Resume(t) => {
                        &&& post.at(cur).pc() == c.pc() + 1
                        &&& post.at(cur).state == State::Running
                        &&& post.at(cur).parent == c.parent
                        &&& post.at(cur).panic_payload == c.panic_payload
                        &&& done is None
                        &&& if pre.resumable(t as int) {
                            &&& post.current == t
                            &&& post.at(t as int).state == State::Running
                            &&& post.at(t as int).parent == Some(pre.current)
                            &&& post.at(t as int).pc() == pre.at(t as int).pc()
                            &&& post.at(t as int).panic_payload == pre.at(
                                t as int,
                            ).panic_payload
                            &&& (forall|j: int|
                                0 <= j < pre.n() && j != cur && j != t as int
                                    ==> #[trigger] post.at(j) == pre.at(j))
                        } else {
                            // the attempt fails inside the body; nothing
                            // else moves
                            &&& post.current == pre.current
                            &&& (forall|j: int|
                                0 <= j < pre.n() && j != cur ==> #[trigger] post.at(j)
                                    == pre.at(j))
                        }
                    },
                }
            }
        })
}

/// `post` follows from `pre` by `k` interpreter steps on behalf of `me`,
/// none of which returned control to `me`.
pub open spec fn reaches(pre: Engine, post: Engine, me: usize, k: nat) -> bool
    decreases k,
{
    if k == 0 {
        post == pre
    } else {
        exists|mid: Engine|
            reaches(pre, mid, me, (k - 1) as nat) && #[trigger] step_rel(
                mid,
                post,
                me,
                None::<State>,
            )
    }
}

/// Run exactly one action of the running coroutine: the next op of its
/// body, or the trampoline's final transition when the body has run out.
/// `me` is the coroutine on whose behalf the interpreter runs; the result
/// is the yielded state once control has come back to `me`, and `None`
/// while execution is still inside some other coroutine.
pub(crate) fn step(e: &mut Engine, me: usize) -> (done: Option<State>)
    requires
        old(e).wf(),
        (me as int) < old(e).n(),
        old(e).at(me as int).live,
        old(e).at(me as int).state == State::Running,
        old(e).current != me,
        old(e).parent_switchable(),
    ensures
        step_rel(*old(e), *final(e), me, done),
{
    let cur = e.current;
    let pc = e.coroutines[cur].saved_context.pc;
    let blen = e.coroutines[cur].body.len();
    let p = match e.coroutines[cur].parent {
        Some(q) => q,
        None => 0,  // never reached: a parent is recorded while running
    };
    if pc == blen {
        finish_turn(e, State::Finished, pc, None);
        proof {
            assert(same_identity(old(e).at(cur as int), e.at(cur as int)));
        }

        if p == me {
            Some(State::Finished)
        } else {
            None
        }
    } else {
        let op = e.coroutines[cur].body[pc].duplicate();
        match op {
            Op::Sched => {
                finish_turn(e, State::Suspended, pc + 1, None);
        proof {
            assert(same_identity(old(e).at(cur as int), e.at(cur as int)));
        }

                if p == me {
                    Some(State::Suspended)
                } else {
                    None
                }
            },
            Op::Block => {
                finish_turn(e, State::Blocked, pc + 1, None);
        proof {
            assert(same_identity(old(e).at(cur as int), e.at(cur as int)));
        }

                if p == me {
                    Some(State::Blocked)
                } else {
                    None
                }
            },
            Op::Panic(m) => {
                finish_turn(e, State::Panicked, pc + 1, Some(m));
        proof {
            assert(same_identity(old(e).at(cur as int), e.at(cur as int)));
        }

                if p == me {
                    Some(State::Panicked)
                } else {
                    None
                }
            },
            Op::Resume(t) => {
                // consume the action, then try the switch
                let ghost s_pre = e.coroutines@;
                let mut rec = e.coroutines.remove(cur);
                rec.saved_context = Context::capture(pc + 1);
                let ghost grec = rec;
                e.coroutines.insert(cur, rec);
                proof {
                    assert(e.coroutines@ =~= s_pre.update(cur as int, grec));
                    lemma_sum_by_update(s_pre, cur as int, grec, f_stack());
                    lemma_sum_by_update(s_pre, cur as int, grec, f_steps());
                    assert(f_stack()(grec) == f_stack()(s_pre[cur as int]));
                    assert(f_steps()(grec) == f_steps()(s_pre[cur as int]) - 1);
                    lemma_wf_after_update(*old(e), *e, cur as int, grec);
                }
                let n = e.coroutines.len();
                if t < n {
                    let ok = e.coroutines[t].live && e.coroutines[t].state.is_resumable();
                    if ok {
                        enter(e, t);
                    }
                }
                None
            },
        }
    }
}

/// `same_family` composes.
pub proof fn lemma_same_family_trans(a: Engine, b: Engine, c: Engine)
    requires
        same_family(a, b),
        same_family(b, c),
    ensures
        same_family(a, c),
{
    assert forall|i: int| 0 <= i < a.n() implies #[trigger] same_identity(a.at(i), c.at(i)) by {
        assert(same_identity(a.at(i), b.at(i)));
        assert(same_identity(b.at(i), c.at(i)));
    }
}

} // verus!
