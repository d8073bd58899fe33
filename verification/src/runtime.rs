use vstd::prelude::*;

verus! {

use crate::fiber::{
    after_burst, burst_parks, bursts_of, descendant_of, is_live, lemma_descendant_burst,
    lemma_descendant_to_ready, Payload, Resume, State, Thread, ThreadContext, DEFAULT_STACK_SIZE,
    MAX_THREADS,
};
use crate::measure::{
    count_of, lemma_count_of_push, lemma_sum_work_nonneg, lemma_sum_work_update, sum_work, work_of,
};
use crate::select::{
    cyc, lemma_next_ready_none_iff_no_ready, lemma_next_ready_round_robin, next_ready, scan_from,
};
use crate::trace::{pool_measure, run_trace, step_enabled};

/// `t` with its scheduling state replaced and everything else — identity,
/// stack, context, payload — unchanged.
pub open spec fn with_state(t: Thread, s: State) -> Thread {
    Thread { state: s, ..t }
}

/// The pool after a switch from fiber `current` to fiber `c`: the current
/// fiber, if it was voluntarily running, becomes `Ready` again (a fiber that
/// just returned or parked keeps its `Available` or `Parked` state), and the
/// chosen fiber becomes `Running`.
pub open spec fn switch_step(threads: Seq<Thread>, current: int, c: int) -> Seq<Thread>
    recommends
        0 <= current < threads.len(),
        0 <= c < threads.len(),
{
    let after_cur = if threads[current].state is Running {
        threads.update(current, with_state(threads[current], State::Ready))
    } else {
        threads
    };
    after_cur.update(c, with_state(after_cur[c], State::Running))
}

/// The pool after one complete scheduling step from `current`: the switch
/// to the chosen fiber `c`, followed by one burst of `c`.
pub open spec fn tick_threads(threads: Seq<Thread>, current: int, c: int) -> Seq<Thread>
    recommends
        0 <= current < threads.len(),
        0 <= c < threads.len(),
{
    let switched = switch_step(threads, current, c);
    switched.update(c, after_burst(switched[c]))
}

/// `t` as `spawn` leaves it: the one-time stack bootstrap primes the
/// context record — the first switch into the fiber will land on the entry
/// trampoline, with the guard's return address below it — and stores the
/// fiber's own identity in the record's self-reference slot; the payload is
/// installed and the fiber becomes `Ready`.  The bootstrap runs exactly
/// once per spawn, before the fiber is ever eligible to run.
pub open spec fn spawned(t: Thread, payload: Payload) -> Thread {
    Thread {
        state: State::Ready,
        ctx: ThreadContext { resume: Resume::Entry, owner: t.id },
        payload: Option::Some(payload),
        ..t
    }
}

/// Every well-formed scheduler state is one the scheduling recursion is
/// defined on.
pub proof fn lemma_wf_step_enabled(rt: Runtime)
    requires
        rt.wf(),
    ensures
        step_enabled(rt.threads@, rt.current as int),
{
    assert forall|i: int|
        1 <= i < rt.threads@.len() && (#[trigger] rt.threads@[i].state) is Ready implies rt.threads@[i].payload
        is Some by {
        assert(thread_ok(i, rt.threads@[i]));
    }
}

/// Round-robin fairness at the step level: the fiber a scheduling step just
/// ran is never the one the immediately following step selects.  After its
/// burst the fiber is running, recycled or parked — in every case not
/// `Ready` — and the next scan starts at it, so it can only be chosen again
/// after the scan has offered a turn to every other fiber.  Together with
/// the no-skip property of the scan itself
/// (`lemma_next_ready_round_robin`), this is why two fibers that keep
/// yielding alternate strictly.
pub proof fn lemma_no_immediate_rerun(threads: Seq<Thread>, current: int, c: int)
    requires
        0 <= current < threads.len(),
        next_ready(threads, current) == Option::Some(c),
    ensures
        next_ready(tick_threads(threads, current, c), c) != Option::Some(c),
{
    lemma_next_ready_round_robin(threads, current);
    let after = tick_threads(threads, current, c);
    let switched = switch_step(threads, current, c);
    assert(after[c] == after_burst(switched[c]));
    assert(switched[c].state is Running);
    assert(!(after[c].state is Ready));
    match next_ready(after, c) {
        Option::Some(pos) => {
            if pos == c {
                lemma_next_ready_round_robin(after, c);
            }
        },
        Option::None => {},
    }
}

/// Why a spawn attempt failed.
#[derive(Clone, Copy, Debug, PartialEq, Eq, Structural)]
pub enum SpawnError {
    /// Every slot of the fixed-size pool is occupied: no fiber is
    /// `Available` to claim.  The pool is never corrupted by the attempt.
    CapacityExhausted,
}

/// The scheduler: the fixed pool of fibers, in round-robin traversal order,
/// the index of the fiber currently holding control, and the identities of
/// the parked fibers awaiting an external wake.
pub struct Runtime {
    /// The pool.  Its order is the round-robin order and is fixed at
    /// creation; index 0 is the base fiber, the one the run loop itself
    /// executes on.
    pub threads: Vec<Thread>,
    /// Pool index of the fiber currently holding control.
    pub current: usize,
    /// Identities of the fibers whose state is `Parked`: each entry was
    /// recorded when a poll reported "not ready", and is removed by the
    /// wake that reactivates the fiber.
    pub pending: Vec<usize>,
}

/// Per-slot well-formedness: identity is the pool index, the stack has its
/// fixed size, the base fiber carries no payload and is never parked or
/// recycled, live spawned fibers carry a payload and a primed context owned
/// by themselves, activation counters cannot overflow, and only pollable
/// tasks park.
pub open spec fn thread_ok(i: int, t: Thread) -> bool {
    &&& t.id == i
    &&& t.stack@.len() == DEFAULT_STACK_SIZE
    &&& (i == 0 ==> t.payload is None && (t.state is Running || t.state is Ready))
    &&& (i != 0 && is_live(t.state) ==> {
        &&& t.payload is Some
        &&& !(t.ctx.resume is Unprimed)
        &&& t.ctx.owner == i
        &&& (t.payload matches Some(Payload::Call { yields_left, bursts }) ==> yields_left + bursts
            < u64::MAX)
        &&& (t.payload matches Some(Payload::Task { pending_polls, polls }) ==> pending_polls
            + polls < u64::MAX)
    })
    &&& (t.state is Parked ==> t.payload matches Some(Payload::Task { .. }))
}

impl Runtime {
    /// The parked set mirrors the `Parked` states exactly: every recorded
    /// identity is a parked fiber, every parked fiber is recorded, and no
    /// identity is recorded twice.
    pub open spec fn pending_ok(self) -> bool {
        &&& forall|k: int|
            0 <= k < self.pending@.len() ==> (#[trigger] self.pending@[k]) < self.threads@.len()
                && self.threads@[self.pending@[k] as int].state is Parked
        &&& forall|i: int|
            0 <= i < self.threads@.len() && (#[trigger] self.threads@[i].state) is Parked
                ==> self.pending@.contains(i as usize)
        &&& forall|k: int, l: int|
            0 <= k < l < self.pending@.len() ==> self.pending@[k] != self.pending@[l]
    }

    /// Scheduler invariant.  Beyond per-slot well-formedness: the pool is
    /// never empty, the current index is in range, at most one fiber is
    /// `Running` and it is the current one, and whenever control is at the
    /// base fiber the base fiber is the one running.
    pub open spec fn wf(self) -> bool {
        &&& self.threads@.len() >= 1
        &&& (self.current as int) < self.threads@.len()
        &&& forall|i: int| 0 <= i < self.threads@.len() ==> thread_ok(i, #[trigger] self.threads@[i])
        &&& forall|i: int|
            0 <= i < self.threads@.len() && (#[trigger] self.threads@[i].state) is Running ==> i
                == self.current as int
        &&& (self.current == 0 ==> self.threads@[0].state is Running)
        &&& self.pending_ok()
    }

    /// A pool of `count` fibers: the base fiber, holding control, plus
    /// `count - 1` available slots.
    pub fn with_threads(count: usize) -> (rt: Runtime)
        requires
            1 <= count,
        ensures
            rt.wf(),
            rt.threads@.len() == count,
            rt.current == 0,
            rt.pending@ == Seq::<usize>::empty(),
            rt.threads@[0].state is Running,
            rt.threads@[0].payload is None,
            forall|i: int|
                1 <= i < count ==> (#[trigger] rt.threads@[i]).state is Available
                    && rt.threads@[i].payload is None,
            forall|i: int|
                0 <= i < count ==> (#[trigger] rt.threads@[i]).id == i && rt.threads@[i].stack@.len()
                    == DEFAULT_STACK_SIZE,
    {
        let base = Thread::new(0);
        let mut threads: Vec<Thread> = Vec::new();
        threads.push(
            Thread {
                state: State::Running,
                ctx: ThreadContext { resume: Resume::Suspended, owner: 0 },
                ..base
            },
        );
        let mut i: usize = 1;
        while i < count
            invariant
                1 <= i <= count,
                threads@.len() == i,
                threads@[0].state is Running,
                threads@[0].payload is None,
                forall|j: int|
                    1 <= j < i ==> (#[trigger] threads@[j]).state is Available && threads@[j].payload
                        is None,
                forall|j: int|
                    0 <= j < i ==> thread_ok(j, #[trigger] threads@[j]) && !(threads@[j].state
                        is Parked) && (j != 0 ==> !(threads@[j].state is Running)),
            decreases count - i,
        {
            threads.push(Thread::new(i));
            i = i + 1;
        }
        Runtime { threads, current: 0, pending: Vec::new() }
    }

    /// The round-robin scan, exactly as the scheduler performs it: walk the
    /// pool starting at the current fiber, wrapping around, and stop at the
    /// first `Ready` fiber; report `None` after coming back around without
    /// finding one.
    fn find_ready(&self) -> (r: Option<usize>)
        requires
            self.wf(),
        ensures
            match r {
                Option::Some(pos) => {
                    &&& next_ready(self.threads@, self.current as int) == Option::Some(pos as int)
                    &&& pos < self.threads@.len()
                    &&& self.threads@[pos as int].state is Ready
                },
                Option::None => next_ready(self.threads@, self.current as int) is None,
            },
    {
        let len = self.threads.len();
        let cur = self.current;
        let mut pos: usize = cur;
        let ghost mut k: int = 0;
        loop
            invariant
                self.wf(),
                len == self.threads@.len(),
                cur == self.current,
                0 <= k < len,
                pos == cyc(cur as int, k, len as int),
                pos < len,
                next_ready(self.threads@, cur as int) == scan_from(self.threads@, cur as int, k),
            decreases len - k,
        {
            if self.threads[pos].state == State::Ready {
                assert(scan_from(self.threads@, cur as int, k) == Option::Some(pos as int));
                return Option::Some(pos);
            }
            assert(scan_from(self.threads@, cur as int, k) == scan_from(
                self.threads@,
                cur as int,
                k + 1,
            ));
            pos = pos + 1;
            if pos == len {
                pos = 0;
            }
            proof {
                k = k + 1;
            }
            if pos == cur {
                assert(k == len);
                assert(scan_from(self.threads@, cur as int, k) is None);
                return Option::None;
            }
        }
    }

    /// Voluntarily hand control to the next `Ready` fiber in round-robin
    /// order.  When one exists, the current fiber — if it was running, as
    /// opposed to having just returned or parked — becomes `Ready` again,
    /// the chosen fiber becomes `Running`, and the current index moves to
    /// it.  When no fiber is `Ready` the call changes nothing and reports
    /// `false`: the signal the run loop uses to detect completion.
    pub fn t_yield(&mut self) -> (switched: bool)
        requires
            old(self).wf(),
        ensures
            final(self).wf(),
            final(self).pending@ == old(self).pending@,
            final(self).threads@.len() == old(self).threads@.len(),
            match next_ready(old(self).threads@, old(self).current as int) {
                Option::None => !switched && *final(self) == *old(self),
                Option::Some(c) => {
                    &&& switched
                    &&& 0 <= c < old(self).threads@.len()
                    &&& old(self).threads@[c].state is Ready
                    &&& final(self).current == c
                    &&& final(self).threads@ == switch_step(
                        old(self).threads@,
                        old(self).current as int,
                        c,
                    )
                },
            },
    {
        let nr = self.find_ready();
        match nr {
            Option::None => false,
            Option::Some(pos) => {
                let cur = self.current;
                if self.threads[cur].state == State::Running {
                    let t = &mut self.threads[cur];
                    t.state = State::Ready;
                }
                let t = &mut self.threads[pos];
                t.state = State::Running;
                self.current = pos;
                proof {
                    let t0 = old(self).threads@;
                    let c = pos as int;
                    assert(self.threads@ =~= switch_step(t0, old(self).current as int, c));
                    assert forall|i: int| 0 <= i < self.threads@.len() implies thread_ok(
                        i,
                        #[trigger] self.threads@[i],
                    ) by {
                        assert(thread_ok(i, t0[i]));
                    }
                    assert(self.pending_ok()) by {
                        assert(forall|i: int|
                            0 <= i < self.threads@.len() ==> ((#[trigger] self.threads@[i].state)
                                is Parked <==> t0[i].state is Parked));
                    }
                }
                true
            },
        }
    }

    /// Completion of the current fiber's payload: the guard reaches this
    /// when the payload returns (or when a poll completes).  The fiber is
    /// recycled — its state becomes `Available` — unless control is at the
    /// base fiber, which is never recycled.  In the running system the
    /// guard immediately triggers a new round-robin selection so execution
    /// never falls off the fiber's stack; that selection is the next
    /// scheduling step here.
    pub fn t_return(&mut self)
        requires
            old(self).wf(),
            old(self).current != 0 ==> old(self).threads@[old(self).current as int].state
                is Running,
        ensures
            final(self).wf(),
            final(self).current == old(self).current,
            final(self).pending@ == old(self).pending@,
            old(self).current != 0 ==> final(self).threads@ == old(self).threads@.update(
                old(self).current as int,
                with_state(
                    old(self).threads@[old(self).current as int],
                    State::Available,
                ),
            ),
            old(self).current == 0 ==> *final(self) == *old(self),
    {
        if self.current != 0 {
            let cur = self.current;
            let t = &mut self.threads[cur];
            t.state = State::Available;
            proof {
                let t0 = old(self).threads@;
                assert forall|i: int| 0 <= i < self.threads@.len() implies thread_ok(
                    i,
                    #[trigger] self.threads@[i],
                ) by {
                    assert(thread_ok(i, t0[i]));
                }
                assert(self.pending_ok()) by {
                    assert(forall|i: int|
                        0 <= i < self.threads@.len() ==> ((#[trigger] self.threads@[i].state)
                            is Parked <==> t0[i].state is Parked));
                }
            }
        }
    }

    /// One burst of the current fiber: the execution slice between the
    /// switch into it and its next suspension point (yield, return, or
    /// park), applied to the scheduler's state.  A parking fiber records
    /// its identity in the pending set before control moves on.
    fn burst_current(&mut self)
        requires
            old(self).wf(),
            old(self).threads@[old(self).current as int].state is Running,
        ensures
            final(self).wf(),
            final(self).current == old(self).current,
            final(self).threads@ == old(self).threads@.update(
                old(self).current as int,
                after_burst(old(self).threads@[old(self).current as int]),
            ),
            final(self).pending@ == if burst_parks(
                old(self).threads@[old(self).current as int],
            ) {
                old(self).pending@.push(old(self).current)
            } else {
                old(self).pending@
            },
    {
        let cur = self.current;
        let pl = self.threads[cur].payload;
        match pl {
            Option::None => {
                proof {
                    assert(self.threads@ =~= old(self).threads@.update(
                        cur as int,
                        after_burst(old(self).threads@[cur as int]),
                    ));
                }
            },
            Option::Some(Payload::Call { yields_left, bursts }) => {
                assert(cur != 0);
                assert(yields_left + bursts < u64::MAX);
                if yields_left > 0 {
                    let t = &mut self.threads[cur];
                    t.payload = Option::Some(
                        Payload::Call { yields_left: yields_left - 1, bursts: bursts + 1 },
                    );
                    t.ctx.resume = Resume::Suspended;
                    proof {
                        let t0 = old(self).threads@;
                        assert(self.threads@[cur as int] == after_burst(t0[cur as int]));
                        assert forall|i: int| 0 <= i < self.threads@.len() implies thread_ok(
                            i,
                            #[trigger] self.threads@[i],
                        ) by {
                            assert(thread_ok(i, t0[i]));
                        }
                        assert(self.pending_ok()) by {
                            assert(forall|i: int|
                                0 <= i < self.threads@.len() ==> ((
                                #[trigger] self.threads@[i].state) is Parked <==> t0[i].state
                                    is Parked));
                        }
                    }
                } else {
                    self.t_return();
                    let t = &mut self.threads[cur];
                    t.payload = Option::Some(Payload::Call { yields_left: 0, bursts: bursts + 1 });
                    t.ctx.resume = Resume::Suspended;
                    proof {
                        let t0 = old(self).threads@;
                        assert(self.threads@[cur as int] == after_burst(t0[cur as int]));
                        assert(self.threads@ =~= t0.update(
                            cur as int,
                            after_burst(t0[cur as int]),
                        ));
                        assert forall|i: int| 0 <= i < self.threads@.len() implies thread_ok(
                            i,
                            #[trigger] self.threads@[i],
                        ) by {
                            assert(thread_ok(i, t0[i]));
                        }
                        assert(self.pending_ok()) by {
                            assert(forall|i: int|
                                0 <= i < self.threads@.len() ==> ((
                                #[trigger] self.threads@[i].state) is Parked <==> t0[i].state
                                    is Parked));
                        }
                    }
                }
            },
            Option::Some(Payload::Task { pending_polls, polls }) => {
                assert(cur != 0);
                assert(pending_polls + polls < u64::MAX);
                if pending_polls > 0 {
                    let t = &mut self.threads[cur];
                    t.state = State::Parked;
                    t.payload = Option::Some(
                        Payload::Task { pending_polls: pending_polls - 1, polls: polls + 1 },
                    );
                    t.ctx.resume = Resume::Suspended;
                    self.pending.push(cur);
                    proof {
                        let t0 = old(self).threads@;
                        assert(self.threads@[cur as int] == after_burst(t0[cur as int]));
                        assert forall|i: int| 0 <= i < self.threads@.len() implies thread_ok(
                            i,
                            #[trigger] self.threads@[i],
                        ) by {
                            assert(thread_ok(i, t0[i]));
                        }
                        assert(self.pending_ok()) by {
                            assert(forall|x: usize|
                                old(self).pending@.contains(x) ==> #[trigger] self.pending@.contains(
                                    x,
                                )) by {
                                assert forall|x: usize|
                                    old(self).pending@.contains(x) implies #[trigger] self.pending@.contains(
                                    x,
                                ) by {
                                    let k = choose|k: int|
                                        0 <= k < old(self).pending@.len() && old(self).pending@[k]
                                            == x;
                                    assert(self.pending@[k] == x);
                                }
                            }
                            assert(self.pending@.contains(cur)) by {
                                assert(self.pending@[self.pending@.len() - 1] == cur);
                            }
                        }
                    }
                } else {
                    self.t_return();
                    let t = &mut self.threads[cur];
                    t.payload = Option::Some(
                        Payload::Task { pending_polls: 0, polls: polls + 1 },
                    );
                    t.ctx.resume = Resume::Suspended;
                    proof {
                        let t0 = old(self).threads@;
                        assert(self.threads@[cur as int] == after_burst(t0[cur as int]));
                        assert(self.threads@ =~= t0.update(
                            cur as int,
                            after_burst(t0[cur as int]),
                        ));
                        assert forall|i: int| 0 <= i < self.threads@.len() implies thread_ok(
                            i,
                            #[trigger] self.threads@[i],
                        ) by {
                            assert(thread_ok(i, t0[i]));
                        }
                        assert(self.pending_ok()) by {
                            assert(forall|i: int|
                                0 <= i < self.threads@.len() ==> ((
                                #[trigger] self.threads@[i].state) is Parked <==> t0[i].state
                                    is Parked));
                        }
                    }
                }
            },
        }
    }

    /// One complete scheduling step: hand control to the next `Ready`
    /// fiber in round-robin order and run one burst of it.  Reports the
    /// index of the fiber that ran, or `None` — with nothing changed —
    /// when no fiber is `Ready`.
    pub fn tick(&mut self) -> (r: Option<usize>)
        requires
            old(self).wf(),
        ensures
            final(self).wf(),
            final(self).threads@.len() == old(self).threads@.len(),
            match next_ready(old(self).threads@, old(self).current as int) {
                Option::None => r is None && *final(self) == *old(self),
                Option::Some(c) => {
                    &&& r matches Some(p) && p as int == c
                    &&& 0 <= c < old(self).threads@.len()
                    &&& old(self).threads@[c].state is Ready
                    &&& final(self).current as int == c
                    &&& final(self).threads@ == tick_threads(
                        old(self).threads@,
                        old(self).current as int,
                        c,
                    )
                    &&& final(self).pending@ == if burst_parks(old(self).threads@[c]) {
                        old(self).pending@.push(c as usize)
                    } else {
                        old(self).pending@
                    }
                },
            },
    {
        let switched = self.t_yield();
        if !switched {
            return Option::None;
        }
        let c = self.current;
        proof {
            let t0 = old(self).threads@;
            let ci = c as int;
            let s1 = switch_step(t0, old(self).current as int, ci);
            assert(s1[ci].payload == t0[ci].payload);
            assert(burst_parks(s1[ci]) == burst_parks(t0[ci]));
        }
        self.burst_current();
        Option::Some(c)
    }

    /// The top-level driver, run on the base fiber: perform round-robin
    /// scheduling steps until no fiber is `Ready`, then stop.  This is the
    /// only place that decides the runtime has no more work.
    ///
    /// The trace returned lists, in order, the pool index of every spawned
    /// fiber activation (the base fiber's own turns are not work and are
    /// not listed).  The contract pins down the whole outcome:
    ///
    /// - control is back at the base fiber and nothing is left `Ready`;
    ///   fibers that were `Available` or `Parked` at entry are untouched;
    /// - every plain callable that was runnable has executed its body
    ///   exactly once — all yields consumed, one activation per yield plus
    ///   the returning one — and its fiber is recycled;
    /// - every runnable pollable task has been polled exactly once: it
    ///   either parked (and its identity is recorded as pending) or
    ///   completed;
    /// - the trace counts each fiber exactly as many times as its payload
    ///   was activated, and never mentions the base fiber;
    /// - with nothing runnable at entry, the loop terminates immediately
    ///   and changes nothing.
    pub fn run(&mut self) -> (trace: Vec<usize>)
        requires
            old(self).wf(),
        ensures
            final(self).wf(),
            final(self).threads@.len() == old(self).threads@.len(),
            final(self).current == 0,
            final(self).threads@[0].state is Running,
            final(self).threads@[0].payload is None,
            forall|i: int|
                0 <= i < final(self).threads@.len() ==> !((
                #[trigger] final(self).threads@[i]).state is Ready),
            forall|i: int|
                0 <= i < final(self).threads@.len() ==> (#[trigger] final(self).threads@[i]).id
                    == old(self).threads@[i].id && final(self).threads@[i].stack == old(self).threads@[i].stack,
            forall|i: int|
                0 <= i < final(self).threads@.len() && ((old(self).threads@[i].state is Available)
                    || (old(self).threads@[i].state is Parked)) ==> final(self).threads@[i] == (
                #[trigger] old(self).threads@[i]),
            forall|i: int|
                0 <= i < final(self).threads@.len() && ((old(self).threads@[i].state is Ready) || (
                old(self).threads@[i].state is Running)) ==> ((
                #[trigger] old(self).threads@[i]).payload matches Option::Some(
                    Payload::Call { yields_left: y0, bursts: b0 },
                ) ==> final(self).threads@[i].state is Available && final(self).threads@[i].payload
                    == Option::Some(
                    Payload::Call { yields_left: 0u64, bursts: (b0 + y0 + 1) as u64 },
                )),
            forall|i: int|
                0 <= i < final(self).threads@.len() && ((old(self).threads@[i].state is Ready) || (
                old(self).threads@[i].state is Running)) ==> ((
                #[trigger] old(self).threads@[i]).payload matches Option::Some(
                    Payload::Task { pending_polls: p0, polls: q0 },
                ) ==> (p0 > 0 ==> final(self).threads@[i].state is Parked
                    && final(self).threads@[i].payload == Option::Some(
                    Payload::Task { pending_polls: (p0 - 1) as u64, polls: (q0 + 1) as u64 },
                ) && final(self).pending@.contains(i as usize))),
            forall|i: int|
                0 <= i < final(self).threads@.len() && ((old(self).threads@[i].state is Ready) || (
                old(self).threads@[i].state is Running)) ==> ((
                #[trigger] old(self).threads@[i]).payload matches Option::Some(
                    Payload::Task { pending_polls: p0, polls: q0 },
                ) ==> (p0 == 0 ==> final(self).threads@[i].state is Available && final(self).threads@[i].payload == Option::Some(
                    Payload::Task { pending_polls: 0u64, polls: (q0 + 1) as u64 },
                ))),
            forall|x: usize|
                #[trigger] count_of(trace@, x) == if (x as int) < final(self).threads@.len() {
                    bursts_of(final(self).threads@[x as int]) - bursts_of(
                        old(self).threads@[x as int],
                    )
                } else {
                    0int
                },
            forall|k: int|
                0 <= k < trace@.len() ==> 1 <= #[trigger] trace@[k] < final(self).threads@.len(),
            next_ready(old(self).threads@, old(self).current as int) is None ==> final(self).threads@ == old(self).threads@ && final(self).pending@ == old(self).pending@
                && trace@ == Seq::<usize>::empty(),
            trace@ == run_trace(old(self).threads@, old(self).current as int),
    {
        let ghost init = *old(self);
        let mut trace: Vec<usize> = Vec::new();
        let mut done = false;
        proof {
            assert(trace@ =~= Seq::<usize>::empty());
            assert(Seq::<usize>::empty() + run_trace(init.threads@, init.current as int)
                =~= run_trace(init.threads@, init.current as int));
        }
        while !done
            invariant
                self.wf(),
                self.threads@.len() == init.threads@.len(),
                forall|i: int|
                    0 <= i < self.threads@.len() ==> descendant_of(
                        #[trigger] self.threads@[i],
                        init.threads@[i],
                    ),
                forall|x: usize|
                    #[trigger] count_of(trace@, x) == if (x as int) < self.threads@.len() {
                        bursts_of(self.threads@[x as int]) - bursts_of(init.threads@[x as int])
                    } else {
                        0int
                    },
                forall|k: int|
                    0 <= k < trace@.len() ==> 1 <= #[trigger] trace@[k] < self.threads@.len(),
                next_ready(init.threads@, init.current as int) is None ==> self.threads@
                    == init.threads@ && self.current == init.current && self.pending@
                    == init.pending@ && trace@ == Seq::<usize>::empty(),
                init.wf(),
                init == *old(self),
                done ==> next_ready(self.threads@, self.current as int) is None,
                trace@ + run_trace(self.threads@, self.current as int) == run_trace(
                    init.threads@,
                    init.current as int,
                ),
            decreases
                    pool_measure(self.threads@, self.current as int),
                    (if done {
                        0int
                    } else {
                        1int
                    }),
        {
            let ghost pre = *self;
            let ghost trace0 = trace@;
            let r = self.tick();
            match r {
                Option::None => {
                    done = true;
                },
                Option::Some(cu) => {
                    if cu != 0 {
                        trace.push(cu);
                    }
                    proof {
                        let pv = pre.threads@;
                        let cur = pre.current as int;
                        let c = cu as int;
                        let s1 = switch_step(pv, cur, c);
                        assert(s1[c] == with_state(pv[c], State::Running));
                        // The per-fiber trajectory is preserved by the step.
                        assert forall|i: int| 0 <= i < self.threads@.len() implies descendant_of(
                            #[trigger] self.threads@[i],
                            init.threads@[i],
                        ) by {
                            assert(descendant_of(pv[i], init.threads@[i]));
                            if i == c {
                                assert(thread_ok(i, init.threads@[i]));
                                if init.threads@[i].state is Available || init.threads@[i].state
                                    is Parked {
                                    assert(pv[i] == init.threads@[i]);
                                }
                                lemma_descendant_burst(pv[c], init.threads@[c]);
                                assert(self.threads@[c] == after_burst(
                                    with_state(pv[c], State::Running),
                                ));
                            } else if i == cur && pv[cur].state is Running {
                                lemma_descendant_to_ready(pv[cur], init.threads@[cur]);
                                assert(self.threads@[i] == with_state(pv[cur], State::Ready));
                            } else {
                                assert(self.threads@[i] == pv[i]);
                            }
                        }
                        // Activation accounting.
                        assert(thread_ok(c, pv[c]));
                        assert forall|x: usize|
                            #[trigger] count_of(trace@, x) == if (x as int)
                                < self.threads@.len() {
                                bursts_of(self.threads@[x as int]) - bursts_of(
                                    init.threads@[x as int],
                                )
                            } else {
                                0int
                            } by {
                            if cu != 0 {
                                lemma_count_of_push(trace0, cu, x);
                            }
                            if (x as int) < self.threads@.len() {
                                if (x as int) == c {
                                    assert(bursts_of(self.threads@[c]) == bursts_of(pv[c])
                                        + if pv[c].payload is Some {
                                        1int
                                    } else {
                                        0int
                                    });
                                } else {
                                    assert(self.threads@[x as int].payload == pv[x as int].payload);
                                }
                            }
                        }
                        // The measure shrinks: a spawned fiber's burst burns one
                        // activation; a base turn moves control to index 0.
                        if pv[cur].state is Running && cur != c {
                            lemma_sum_work_update(pv, cur, with_state(pv[cur], State::Ready));
                        }
                        assert(sum_work(s1) == sum_work(pv)) by {
                            let afc = if pv[cur].state is Running {
                                pv.update(cur, with_state(pv[cur], State::Ready))
                            } else {
                                pv
                            };
                            if pv[cur].state is Running && cur != c {
                                assert(work_of(afc[cur]) == work_of(pv[cur]));
                            }
                            lemma_sum_work_update(afc, c, with_state(afc[c], State::Running));
                            assert(work_of(with_state(afc[c], State::Running)) == work_of(
                                afc[c],
                            ));
                        }
                        lemma_sum_work_update(s1, c, after_burst(s1[c]));
                        if c != 0 {
                            assert(work_of(after_burst(s1[c])) == work_of(s1[c]) - 1);
                        } else {
                            assert(work_of(after_burst(s1[c])) == work_of(s1[c]));
                            assert(pre.current != 0);
                        }
                        lemma_sum_work_nonneg(self.threads@);
                        assert(pool_measure(self.threads@, self.current as int) < pool_measure(pre.threads@, pre.current as int));
                        // One unfolding of the scheduling recursion matches
                        // the step just taken.
                        lemma_wf_step_enabled(pre);
                        assert(run_trace(pv, cur) == if c == 0 {
                            run_trace(self.threads@, c)
                        } else {
                            seq![cu] + run_trace(self.threads@, c)
                        });
                        if cu != 0 {
                            assert(trace@ =~= trace0.push(cu));
                            assert(trace0.push(cu) + run_trace(self.threads@, c) =~= trace0 + (
                            seq![cu] + run_trace(self.threads@, c)));
                        }
                    }
                },
            }
        }
        proof {
            lemma_next_ready_none_iff_no_ready(self.threads@, self.current as int);
            if self.current != 0 {
                assert(thread_ok(0, self.threads@[0]));
                assert(false);
            }
            lemma_wf_step_enabled(*self);
            assert(run_trace(self.threads@, self.current as int) == Seq::<usize>::empty());
            assert(trace@ + Seq::<usize>::empty() =~= trace@);
            assert forall|i: int|
                0 <= i < self.threads@.len() && ((init.threads@[i].state is Ready) || (
                init.threads@[i].state is Running)) implies {
                &&& (init.threads@[i].payload matches Option::Some(
                    Payload::Call { yields_left: y0, bursts: b0 },
                ) ==> self.threads@[i].state is Available && self.threads@[i].payload
                    == Option::Some(
                    Payload::Call { yields_left: 0u64, bursts: (b0 + y0 + 1) as u64 },
                ))
                &&& (init.threads@[i].payload matches Option::Some(
                    Payload::Task { pending_polls: p0, polls: q0 },
                ) ==> (p0 > 0 ==> self.threads@[i].state is Parked && self.threads@[i].payload
                    == Option::Some(
                    Payload::Task { pending_polls: (p0 - 1) as u64, polls: (q0 + 1) as u64 },
                ) && self.pending@.contains(i as usize)))
                &&& (init.threads@[i].payload matches Option::Some(
                    Payload::Task { pending_polls: p0, polls: q0 },
                ) ==> (p0 == 0 ==> self.threads@[i].state is Available && self.threads@[i].payload
                    == Option::Some(
                    Payload::Task { pending_polls: 0u64, polls: (q0 + 1) as u64 },
                )))
            } by {
                assert(descendant_of(self.threads@[i], init.threads@[i]));
                assert(thread_ok(0, init.threads@[0]));
                if init.threads@[i].payload is Some {
                    assert(i != 0);
                    if self.threads@[i].state is Running {
                        assert(i == self.current as int);
                        assert(false);
                    }
                }
            }
        }
        trace
    }

    /// Claim the first `Available` fiber in pool order for `payload`,
    /// bootstrap its stack and context record, and mark it `Ready`.  No
    /// execution happens during spawn.  When every slot is occupied the
    /// attempt reports capacity exhaustion and the pool is untouched — the
    /// fibers already spawned are not corrupted.
    ///
    /// The activation counter bounds are machine limits: the payload's
    /// counters must be able to account every activation without
    /// overflowing.
    pub fn spawn(&mut self, payload: Payload) -> (r: Result<usize, SpawnError>)
        requires
            old(self).wf(),
            payload matches Payload::Call { yields_left, bursts } ==> yields_left + bursts
                < u64::MAX,
            payload matches Payload::Task { pending_polls, polls } ==> pending_polls + polls
                < u64::MAX,
        ensures
            final(self).wf(),
            final(self).current == old(self).current,
            final(self).pending@ == old(self).pending@,
            final(self).threads@.len() == old(self).threads@.len(),
            match r {
                Result::Ok(idx) => {
                    &&& 1 <= idx < old(self).threads@.len()
                    &&& old(self).threads@[idx as int].state is Available
                    &&& forall|j: int|
                        0 <= j < idx ==> !((#[trigger] old(self).threads@[j]).state is Available)
                    &&& final(self).threads@ == old(self).threads@.update(
                        idx as int,
                        spawned(old(self).threads@[idx as int], payload),
                    )
                },
                Result::Err(e) => {
                    &&& e == SpawnError::CapacityExhausted
                    &&& *final(self) == *old(self)
                    &&& forall|j: int|
                        0 <= j < old(self).threads@.len() ==> !((
                        #[trigger] old(self).threads@[j]).state is Available)
                },
            },
    {
        let len = self.threads.len();
        let mut idx: usize = 0;
        while idx < len
            invariant
                self.wf(),
                *self == *old(self),
                len == self.threads@.len(),
                idx <= len,
                forall|j: int| 0 <= j < idx ==> !((#[trigger] self.threads@[j]).state is Available),
                payload matches Payload::Call { yields_left, bursts } ==> yields_left + bursts
                    < u64::MAX,
                payload matches Payload::Task { pending_polls, polls } ==> pending_polls + polls
                    < u64::MAX,
            decreases len - idx,
        {
            if self.threads[idx].state == State::Available {
                proof {
                    assert(thread_ok(0, self.threads@[0]));
                    assert(idx != 0);
                    assert(thread_ok(idx as int, self.threads@[idx as int]));
                }
                let t = &mut self.threads[idx];
                t.ctx.resume = Resume::Entry;
                t.ctx.owner = t.id;
                t.payload = Option::Some(payload);
                t.state = State::Ready;
                proof {
                    let t0 = old(self).threads@;
                    assert(self.threads@[idx as int] == spawned(t0[idx as int], payload));
                    assert forall|i: int| 0 <= i < self.threads@.len() implies thread_ok(
                        i,
                        #[trigger] self.threads@[i],
                    ) by {
                        assert(thread_ok(i, t0[i]));
                    }
                    assert(self.pending_ok()) by {
                        assert(forall|i: int|
                            0 <= i < self.threads@.len() ==> ((#[trigger] self.threads@[i].state)
                                is Parked <==> t0[i].state is Parked));
                    }
                }
                return Result::Ok(idx);
            }
            idx = idx + 1;
        }
        Result::Err(SpawnError::CapacityExhausted)
    }

    /// A wake capability bound to the fiber at pool index `id`: handed to a
    /// pollable task (via the reactor) when the fiber polls it, so that the
    /// completion of the asynchronous work can reactivate the fiber.
    pub fn waker(&self, id: usize) -> (w: Waker)
        requires
            id < self.threads@.len(),
        ensures
            w.id == id,
    {
        Waker { id }
    }

    /// The default pool: `MAX_THREADS` fibers.
    pub fn new() -> (rt: Runtime)
        ensures
            rt.wf(),
            rt.threads@.len() == MAX_THREADS,
            rt.current == 0,
            rt.pending@ == Seq::<usize>::empty(),
            rt.threads@[0].state is Running,
            rt.threads@[0].payload is None,
            forall|i: int|
                1 <= i < MAX_THREADS ==> (#[trigger] rt.threads@[i]).state is Available
                    && rt.threads@[i].payload is None,
            forall|i: int|
                0 <= i < MAX_THREADS ==> (#[trigger] rt.threads@[i]).id == i
                    && rt.threads@[i].stack@.len() == DEFAULT_STACK_SIZE,
    {
        Runtime::with_threads(MAX_THREADS)
    }
}

/// A capability that marks one parked fiber eligible for re-scheduling.  It
/// holds only the fiber's identity, a non-owning reference back into the
/// scheduler; the reactor that completes the asynchronous work invokes it.
pub struct Waker {
    /// Pool index of the fiber this capability reactivates.
    pub id: usize,
}

impl Waker {
    /// Reactivate the fiber: remove its identity from the pending set and
    /// mark it `Ready`, so that the next round-robin scan can reach it and
    /// re-enter it at the poll step — the task is re-polled, not restarted.
    ///
    /// A stale wake — the fiber already completed, or was never parked — is
    /// a harmless no-op, not an error: waking is idempotent, and a finished
    /// fiber is never re-scheduled by it.
    pub fn wake(&self, rt: &mut Runtime)
        requires
            old(rt).wf(),
            self.id < old(rt).threads@.len(),
        ensures
            final(rt).wf(),
            final(rt).current == old(rt).current,
            final(rt).threads@.len() == old(rt).threads@.len(),
            old(rt).threads@[self.id as int].state is Parked ==> {
                &&& final(rt).threads@ == old(rt).threads@.update(
                    self.id as int,
                    with_state(old(rt).threads@[self.id as int], State::Ready),
                )
                &&& final(rt).pending@.len() == old(rt).pending@.len() - 1
                &&& forall|x: usize|
                    #[trigger] final(rt).pending@.contains(x) <==> (old(rt).pending@.contains(x)
                        && x != self.id)
            },
            !(old(rt).threads@[self.id as int].state is Parked) ==> *final(rt) == *old(rt),
    {
        if !(self.threads_state_parked(rt)) {
            return ;
        }
        let mut k: usize = 0;
        let ghost pend0 = rt.pending@;
        loop
            invariant
                rt.wf(),
                *rt == *old(rt),
                pend0 == rt.pending@,
                self.id < rt.threads@.len(),
                rt.threads@[self.id as int].state is Parked,
                k <= pend0.len(),
                forall|j: int| 0 <= j < k ==> pend0[j] != self.id,
            decreases pend0.len() - k,
        {
            if k >= rt.pending.len() {
                proof {
                    assert(pend0.contains(self.id));
                    let j = choose|j: int| 0 <= j < pend0.len() && pend0[j] == self.id;
                    assert(false);
                }
                return ;
            }
            if rt.pending[k] == self.id {
                rt.pending.remove(k);
                let t = &mut rt.threads[self.id];
                t.state = State::Ready;
                proof {
                    let t0 = old(rt).threads@;
                    let ki = k as int;
                    pend0.remove_ensures(ki);
                    assert(rt.pending@ == pend0.remove(ki));
                    assert forall|i: int| 0 <= i < rt.threads@.len() implies thread_ok(
                        i,
                        #[trigger] rt.threads@[i],
                    ) by {
                        assert(thread_ok(i, t0[i]));
                    }
                    // the pending set still mirrors the parked states
                    assert forall|l: int|
                        0 <= l < rt.pending@.len() implies (#[trigger] rt.pending@[l])
                        < rt.threads@.len() && rt.threads@[rt.pending@[l] as int].state
                        is Parked by {
                        if l < ki {
                            assert(rt.pending@[l] == pend0[l]);
                        } else {
                            assert(rt.pending@[l] == pend0[l + 1]);
                        }
                    }
                    assert forall|i: int|
                        0 <= i < rt.threads@.len() && (#[trigger] rt.threads@[i].state)
                            is Parked implies rt.pending@.contains(i as usize) by {
                        assert(t0[i].state is Parked);
                        assert(pend0.contains(i as usize));
                        let j = choose|j: int| 0 <= j < pend0.len() && pend0[j] == i as usize;
                        assert(j != ki);
                        if j < ki {
                            assert(rt.pending@[j] == i as usize);
                        } else {
                            assert(rt.pending@[j - 1] == i as usize);
                        }
                    }
                    assert forall|l1: int, l2: int|
                        0 <= l1 < l2 < rt.pending@.len() implies rt.pending@[l1]
                        != rt.pending@[l2] by {
                        let m1 = if l1 < ki {
                            l1
                        } else {
                            l1 + 1
                        };
                        let m2 = if l2 < ki {
                            l2
                        } else {
                            l2 + 1
                        };
                        assert(rt.pending@[l1] == pend0[m1] && rt.pending@[l2] == pend0[m2]);
                    }
                    // the contains characterisation promised to the caller
                    assert forall|x: usize| #[trigger]
                        rt.pending@.contains(x) <==> (pend0.contains(x) && x != self.id) by {
                        if rt.pending@.contains(x) {
                            let l = choose|l: int|
                                0 <= l < rt.pending@.len() && rt.pending@[l] == x;
                            if l < ki {
                                assert(pend0[l] == x);
                            } else {
                                assert(pend0[l + 1] == x);
                                assert(l + 1 != ki);
                            }
                        }
                        if pend0.contains(x) && x != self.id {
                            let j = choose|j: int| 0 <= j < pend0.len() && pend0[j] == x;
                            assert(j != ki);
                            if j < ki {
                                assert(rt.pending@[j] == x);
                            } else {
                                assert(rt.pending@[j - 1] == x);
                            }
                        }
                    }
                }
                return ;
            }
            k = k + 1;
        }
    }

    /// Whether the fiber this capability is bound to is currently parked.
    fn threads_state_parked(&self, rt: &Runtime) -> (b: bool)
        requires
            self.id < rt.threads@.len(),
        ensures
            b == (rt.threads@[self.id as int].state is Parked),
    {
        rt.threads[self.id].state == State::Parked
    }
}

/// Voluntarily give up the processor: let another `Ready` fiber run, in
/// strict round-robin order, resuming the caller when its turn comes again.
/// Payload code reaches the scheduler through an explicit handle; when
/// nothing else is runnable the call is a no-op and the caller continues.
pub fn yield_thread(rt: &mut Runtime)
    requires
        old(rt).wf(),
    ensures
        final(rt).wf(),
        final(rt).pending@ == old(rt).pending@,
        final(rt).threads@.len() == old(rt).threads@.len(),
        match next_ready(old(rt).threads@, old(rt).current as int) {
            Option::None => *final(rt) == *old(rt),
            Option::Some(c) => {
                &&& final(rt).current == c
                &&& final(rt).threads@ == switch_step(
                    old(rt).threads@,
                    old(rt).current as int,
                    c,
                )
            },
        },
{
    rt.t_yield();
}

} // verus!
