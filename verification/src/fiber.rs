use vstd::prelude::*;

verus! {

/// Size, in bytes, of the stack buffer owned by each fiber.  The buffer is
/// allocated once, when the fiber is created, and is never reallocated or
/// moved afterwards: a real context record bakes its address into the saved
/// stack pointer.
pub const DEFAULT_STACK_SIZE: usize = 1024 * 1024 * 2;

/// Number of fibers in the pool built by `Runtime::new`, the base fiber
/// included.  The pool is fixed at creation; it never grows.
pub const MAX_THREADS: usize = 4;

/// Scheduling state of one fiber.
#[derive(Clone, Copy, Debug, PartialEq, Eq, Structural)]
pub enum State {
    /// Unused, or finished and recycled: eligible to be claimed by `spawn`.
    Available,
    /// The fiber currently executing.  At most one fiber is ever `Running`.
    Running,
    /// Eligible to be switched to by the round-robin scan.
    Ready,
    /// Suspended, waiting for an external wake; not eligible for scheduling
    /// until a `Waker` moves it back to `Ready`.
    Parked,
}

/// Where a context record resumes the fiber that owns it.
///
/// A real context record is an architecture-specific snapshot of the
/// callee-saved registers and the stack pointer.  The scheduler's own logic
/// never reads the register contents; all it relies on is whether the record
/// has been primed by the stack bootstrap, and, once the fiber has run,
/// that the record resumes mid-payload rather than at the entry trampoline.
/// That observable part is what the model keeps.
#[derive(Clone, Copy, Debug, PartialEq, Eq, Structural)]
pub enum Resume {
    /// Never primed: switching to this record would land on arbitrary memory.
    Unprimed,
    /// Primed by the one-time stack bootstrap: the first switch into the
    /// fiber lands on the entry trampoline, which starts the payload and,
    /// on return, falls into the guard rather than off the stack.
    Entry,
    /// The fiber has run: the record resumes at the instruction after the
    /// suspension point of the last switch away from it.
    Suspended,
}

/// The model of a saved register context: the resume point, plus the one
/// slot the bootstrap reserves for passing the owning fiber's identity into
/// the entry trampoline (the trampoline receives no argument from the
/// switch itself).
#[derive(Clone, Copy, Debug, PartialEq, Eq, Structural)]
pub struct ThreadContext {
    /// Where a switch into this record lands.
    pub resume: Resume,
    /// Pool index of the owning fiber, for the entry trampoline.
    pub owner: usize,
}

/// The unit of work a fiber carries, as the scheduler observes it at each
/// suspension point.
///
/// The scheduler only ever distinguishes "run once between yields, then
/// return" from "poll repeatedly"; the two variants record exactly the data
/// each of those interactions exposes.
#[derive(Clone, Copy, Debug, PartialEq, Eq, Structural)]
pub enum Payload {
    /// A plain callable: its body runs, yields `yields_left` more times,
    /// and then returns through the guard.  `bursts` counts the activations
    /// the fiber has performed so far (one per yield, plus one for the
    /// activation that returns): it is how the contracts state that a body
    /// is executed exactly once and never restarted.
    Call { yields_left: u64, bursts: u64 },
    /// A pollable task: each activation polls it once.  It reports "not
    /// ready" `pending_polls` more times — parking the fiber each time —
    /// before a poll completes it.  `polls` counts the polls made so far.
    Task { pending_polls: u64, polls: u64 },
}

/// One fiber: a stable identity, an owned stack buffer, a context record, a
/// scheduling state and an optional payload.  Fibers are created when the
/// pool is built and recycled between uses, never freed.
pub struct Thread {
    /// Pool index; stable for the pool's lifetime.
    pub id: usize,
    /// The fiber's private stack.  Only the fiber itself ever uses it; the
    /// scheduler never writes it after creation.
    pub stack: Vec<u8>,
    /// Saved execution context.
    pub ctx: ThreadContext,
    /// Scheduling state.
    pub state: State,
    /// Work carried by the fiber; `None` for the base fiber and for pool
    /// slots that have not been spawned yet.
    pub payload: Option<Payload>,
}

/// True for the states in which a fiber holds work the scheduler still
/// tracks: eligible to run, running, or parked awaiting a wake.
pub open spec fn is_live(s: State) -> bool {
    s is Ready || s is Running || s is Parked
}

/// How many activations the fiber's payload has performed so far.
pub open spec fn bursts_of(t: Thread) -> int {
    match t.payload {
        Option::None => 0,
        Option::Some(Payload::Call { yields_left: _, bursts }) => bursts as int,
        Option::Some(Payload::Task { pending_polls: _, polls }) => polls as int,
    }
}

/// `ctx` after the fiber it belongs to has run a burst: the record now
/// resumes at a suspension point; the identity slot is untouched.
pub open spec fn suspended(ctx: ThreadContext) -> ThreadContext {
    ThreadContext { resume: Resume::Suspended, owner: ctx.owner }
}

/// One activation ("burst") of a running fiber: the slice of execution
/// between the switch into the fiber and its next suspension point.
///
/// - The base fiber carries no payload; its burst is the run loop itself
///   going around once, which changes nothing.
/// - A plain callable with yields left runs one slice of its body and
///   yields: it stays `Running` until the switch away marks it `Ready`.
/// - A plain callable with no yields left runs its last slice and returns:
///   the guard recycles the fiber to `Available`.
/// - A pollable task is polled exactly once.  If it still reports "not
///   ready" the fiber parks; if it completes the fiber is recycled.
pub open spec fn after_burst(t: Thread) -> Thread {
    match t.payload {
        Option::None => t,
        Option::Some(Payload::Call { yields_left, bursts }) => {
            if yields_left > 0 {
                Thread {
                    state: State::Running,
                    ctx: suspended(t.ctx),
                    payload: Option::Some(
                        Payload::Call {
                            yields_left: (yields_left - 1) as u64,
                            bursts: (bursts + 1) as u64,
                        },
                    ),
                    ..t
                }
            } else {
                Thread {
                    state: State::Available,
                    ctx: suspended(t.ctx),
                    payload: Option::Some(
                        Payload::Call { yields_left: 0u64, bursts: (bursts + 1) as u64 },
                    ),
                    ..t
                }
            }
        },
        Option::Some(Payload::Task { pending_polls, polls }) => {
            if pending_polls > 0 {
                Thread {
                    state: State::Parked,
                    ctx: suspended(t.ctx),
                    payload: Option::Some(
                        Payload::Task {
                            pending_polls: (pending_polls - 1) as u64,
                            polls: (polls + 1) as u64,
                        },
                    ),
                    ..t
                }
            } else {
                Thread {
                    state: State::Available,
                    ctx: suspended(t.ctx),
                    payload: Option::Some(
                        Payload::Task { pending_polls: 0u64, polls: (polls + 1) as u64 },
                    ),
                    ..t
                }
            }
        },
    }
}

/// True when a burst of `t` would park the fiber: its payload is a task
/// that will report "not ready" to the next poll.
pub open spec fn burst_parks(t: Thread) -> bool {
    t.payload matches Option::Some(Payload::Task { pending_polls, .. }) && pending_polls > 0
}

/// What every scheduling step preserves of a fiber: its identity, its
/// stack buffer — no step ever writes another fiber's (or any fiber's)
/// stack — and the owner recorded in its context.
pub open spec fn preserved(t0: Thread, t: Thread) -> bool {
    &&& t.id == t0.id
    &&& t.stack == t0.stack
    &&& t.ctx.owner == t0.ctx.owner
}

/// Where scheduling alone — switches and bursts, with no spawn and no wake
/// — can take a fiber that started the run as `t0`.  This is the run
/// loop's per-fiber invariant:
///
/// - a fiber that started `Available` or `Parked` is never selected and
///   never changes;
/// - the base fiber (no payload) only alternates between `Ready` and
///   `Running`;
/// - a plain callable burns down its remaining yields one burst at a time,
///   each burst accounted once, and ends `Available` after the burst that
///   returns — its body is executed exactly once, never restarted;
/// - a pollable task is either not yet polled, or was polled exactly once,
///   which parked it (one pending report consumed) or completed it.
pub open spec fn descendant_of(t: Thread, t0: Thread) -> bool {
    &&& preserved(t0, t)
    &&& if t0.state is Available || t0.state is Parked {
        t == t0
    } else {
        match t0.payload {
            Option::None => {
                &&& t.payload is None
                &&& (t.state is Ready || t.state is Running)
                &&& t.ctx == t0.ctx
            },
            Option::Some(Payload::Call { yields_left: y0, bursts: b0 }) => {
                ||| {
                    &&& (t.state is Ready || t.state is Running)
                    &&& t.payload matches Option::Some(Payload::Call { yields_left: y, bursts: b })
                    &&& y <= y0
                    &&& b == b0 + (y0 - y)
                }
                ||| {
                    &&& t.state is Available
                    &&& t.payload matches Option::Some(Payload::Call { yields_left: y, bursts: b })
                    &&& y == 0
                    &&& b == b0 + y0 + 1
                }
            },
            Option::Some(Payload::Task { pending_polls: p0, polls: q0 }) => {
                ||| {
                    &&& (t.state is Ready || t.state is Running)
                    &&& t.payload == t0.payload
                }
                ||| {
                    &&& p0 > 0
                    &&& t.state is Parked
                    &&& t.payload matches Option::Some(
                        Payload::Task { pending_polls: p, polls: q },
                    )
                    &&& p == p0 - 1
                    &&& q == q0 + 1
                }
                ||| {
                    &&& p0 == 0
                    &&& t.state is Available
                    &&& t.payload matches Option::Some(
                        Payload::Task { pending_polls: p, polls: q },
                    )
                    &&& p == 0
                    &&& q == q0 + 1
                }
            },
        }
    }
}

/// Marking a running descendant `Ready` again (the switch away from it)
/// stays within the reachable region.
pub proof fn lemma_descendant_to_ready(t: Thread, t0: Thread)
    requires
        descendant_of(t, t0),
        t.state is Running,
    ensures
        descendant_of(Thread { state: State::Ready, ..t }, t0),
{
}

/// Switching to a `Ready` descendant and running one burst of it stays
/// within the reachable region.  The counter bounds come from the
/// scheduler's invariant and rule out wrap-around in the accounting.
pub proof fn lemma_descendant_burst(t: Thread, t0: Thread)
    requires
        descendant_of(t, t0),
        t.state is Ready,
        t0.payload matches Option::Some(Payload::Call { yields_left: y0, bursts: b0 }) ==> y0 + b0
            < u64::MAX,
        t0.payload matches Option::Some(Payload::Task { pending_polls: p0, polls: q0 }) ==> p0 + q0
            < u64::MAX,
    ensures
        descendant_of(after_burst(Thread { state: State::Running, ..t }), t0),
{
}

/// A fresh, zeroed stack buffer of the fixed per-fiber size.
fn new_stack() -> (stack: Vec<u8>)
    ensures
        stack@.len() == DEFAULT_STACK_SIZE,
        forall|j: int| 0 <= j < stack@.len() ==> stack@[j] == 0u8,
{
    let mut stack: Vec<u8> = Vec::new();
    let mut i: usize = 0;
    while i < DEFAULT_STACK_SIZE
        invariant
            i <= DEFAULT_STACK_SIZE,
            stack@.len() == i,
            forall|j: int| 0 <= j < i ==> stack@[j] == 0u8,
        decreases DEFAULT_STACK_SIZE - i,
    {
        stack.push(0u8);
        i = i + 1;
    }
    stack
}

impl Thread {
    /// A fresh fiber for pool slot `id`: available for spawning, with a
    /// zeroed stack and an unprimed context record.
    pub fn new(id: usize) -> (t: Thread)
        ensures
            t.id == id,
            t.state is Available,
            t.payload is None,
            t.ctx.resume is Unprimed,
            t.ctx.owner == id,
            t.stack@.len() == DEFAULT_STACK_SIZE,
            forall|j: int| 0 <= j < t.stack@.len() ==> t.stack@[j] == 0u8,
    {
        Thread {
            id,
            stack: new_stack(),
            ctx: ThreadContext { resume: Resume::Unprimed, owner: id },
            state: State::Available,
            payload: Option::None,
        }
    }
}

} // verus!
