use vstd::prelude::*;

verus! {

use crate::fiber::{after_burst, Payload, State, Thread};
use crate::measure::{lemma_sum_work_nonneg, lemma_sum_work_update, sum_work, work_of};
use crate::runtime::{switch_step, tick_threads, with_state};
use crate::select::{
    cyc, lemma_next_ready_hits, lemma_next_ready_none_iff_no_ready, lemma_next_ready_round_robin,
    next_ready,
};

/// Termination measure of the scheduling recursion: twice the total work
/// held in the pool, plus one while control is away from the base fiber.
/// Every step either burns one activation of a spawned payload, or is a
/// turn of the base fiber — which brings control back to index 0 and can
/// never happen twice in a row.
pub open spec fn pool_measure(threads: Seq<Thread>, current: int) -> int {
    2 * sum_work(threads) + if current != 0 {
        1int
    } else {
        0int
    }
}

/// The states from which a scheduling step makes sense, and in which the
/// scheduler provably makes progress: the current index is in range, the
/// base fiber is not simultaneously holding control and queued as `Ready`,
/// and every `Ready` spawned fiber actually carries a payload.  Every
/// well-formed `Runtime` satisfies this.
pub open spec fn step_enabled(threads: Seq<Thread>, current: int) -> bool {
    &&& 0 <= current < threads.len()
    &&& (current == 0 ==> !(threads[0].state is Ready))
    &&& forall|i: int|
        1 <= i < threads.len() && (#[trigger] threads[i].state) is Ready ==> threads[i].payload
            is Some
}

/// The exact sequence of fiber activations the scheduler performs, from the
/// given state, until no fiber is `Ready`: the round-robin selection, the
/// burst of the selected fiber, and so on.  Turns of the base fiber do no
/// work and are not listed.  `Runtime::run` returns precisely this
/// sequence.
pub open spec fn run_trace(threads: Seq<Thread>, current: int) -> Seq<usize>
    decreases pool_measure(threads, current),
        when step_enabled(threads, current)
        via run_trace_decreases
{
    match next_ready(threads, current) {
        Option::None => Seq::empty(),
        Option::Some(c) => {
            let after = tick_threads(threads, current, c);
            if c == 0 {
                run_trace(after, c)
            } else {
                seq![c as usize] + run_trace(after, c)
            }
        },
    }
}

#[via_fn]
proof fn run_trace_decreases(threads: Seq<Thread>, current: int) {
    match next_ready(threads, current) {
        Option::Some(c) => {
            lemma_next_ready_round_robin(threads, current);
            let after_cur = if threads[current].state is Running {
                threads.update(current, with_state(threads[current], State::Ready))
            } else {
                threads
            };
            let switched = switch_step(threads, current, c);
            let after = tick_threads(threads, current, c);
            if threads[current].state is Running {
                lemma_sum_work_update(threads, current, with_state(threads[current], State::Ready));
                assert(work_of(after_cur[current]) == work_of(threads[current]));
            }
            lemma_sum_work_update(after_cur, c, with_state(after_cur[c], State::Running));
            assert(work_of(with_state(after_cur[c], State::Running)) == work_of(after_cur[c]));
            lemma_sum_work_update(switched, c, after_burst(switched[c]));
            lemma_sum_work_nonneg(after);
            if c == 0 {
                assert(current != 0);
            } else {
                assert(threads[c].payload is Some);
                assert(work_of(after_burst(switched[c])) == work_of(switched[c]) - 1);
            }
            assert(pool_measure(after, c) < pool_measure(threads, current));
        },
        Option::None => {},
    }
}

/// How many more activations a fiber will take from the scheduler when its
/// payload is a plain callable: its remaining yields plus the activation
/// that returns; zero once it is no longer eligible to run.
pub open spec fn acts_left(t: Thread) -> int {
    if t.state is Ready {
        match t.payload {
            Option::Some(Payload::Call { yields_left, bursts: _ }) => yields_left + 1,
            _ => 0,
        }
    } else {
        0
    }
}

/// The perfect interleaving of two fibers' turns under strict round-robin:
/// while both have activations left they alternate, `a` first; when one
/// runs out, the other takes its remaining turns alone.
pub open spec fn pair_trace(a: usize, na: int, b: usize, nb: int) -> Seq<usize>
    decreases na + nb,
        when na >= 0 && nb >= 0
{
    if na > 0 && nb > 0 {
        seq![a, b] + pair_trace(a, na - 1, b, nb - 1)
    } else if na > 0 {
        seq![a] + pair_trace(a, na - 1, b, nb)
    } else if nb > 0 {
        seq![b] + pair_trace(a, na, b, nb - 1)
    } else {
        Seq::empty()
    }
}

/// One burst of a ready, yielding fiber consumes exactly one of its
/// remaining activations, and never leaves the fiber `Ready` on its own.
proof fn lemma_burst_step(t: Thread)
    requires
        t.state is Ready,
        t.payload matches Option::Some(Payload::Call { .. }),
    ensures
        ({
            let u = after_burst(with_state(t, State::Running));
            &&& u.payload matches Option::Some(Payload::Call { .. })
            &&& !(u.state is Ready)
            &&& (acts_left(t) > 1 ==> u.state is Running && acts_left(
                with_state(u, State::Ready),
            ) == acts_left(t) - 1)
            &&& (acts_left(t) == 1 ==> u.state is Available && acts_left(u) == 0)
        }),
{
}

/// Round-robin fairness: with two fibers runnable from the base fiber's
/// turn, each a plain callable performing interleaved yields, the
/// scheduler's activation sequence is the perfect interleaving of their
/// turns — they strictly alternate, the lower pool index first, until the
/// fiber with fewer yields finishes, and the other then runs its remaining
/// turns alone.
pub proof fn lemma_two_fibers_alternate(threads: Seq<Thread>, a: int, b: int)
    requires
        1 <= a < b < threads.len(),
        threads[0].state is Running,
        threads[0].payload is None,
        threads[a].state is Ready ==> threads[a].payload matches Option::Some(
            Payload::Call { .. },
        ),
        threads[b].state is Ready ==> threads[b].payload matches Option::Some(
            Payload::Call { .. },
        ),
        forall|i: int|
            1 <= i < threads.len() && i != a && i != b ==> !((#[trigger] threads[i]).state
                is Ready),
    ensures
        run_trace(threads, 0) == pair_trace(
            a as usize,
            acts_left(threads[a]),
            b as usize,
            acts_left(threads[b]),
        ),
    decreases acts_left(threads[a]) + acts_left(threads[b]),
{
    let len = threads.len() as int;
    let na = acts_left(threads[a]);
    let nb = acts_left(threads[b]);
    assert(step_enabled(threads, 0));
    if na == 0 && nb == 0 {
        assert(forall|i: int|
            0 <= i < len ==> !((#[trigger] threads[i]).state is Ready));
        lemma_next_ready_none_iff_no_ready(threads, 0);
        assert(run_trace(threads, 0) == Seq::<usize>::empty());
    } else if na > 0 {
        // Turn of fiber `a`.
        assert(threads[a].state is Ready);
        lemma_burst_step(threads[a]);
        assert(cyc(0, a, len) == a);
        assert forall|j2: int| 0 <= j2 < a implies !(threads[cyc(0, j2, len)].state is Ready) by {
            assert(cyc(0, j2, len) == j2);
        }
        lemma_next_ready_hits(threads, 0, a);
        let after1 = tick_threads(threads, 0, a);
        let ua = after_burst(with_state(threads[a], State::Running));
        assert(after1[0] == with_state(threads[0], State::Ready));
        assert(after1[a] == ua);
        assert(forall|i: int| 0 <= i < len && i != 0 && i != a ==> after1[i] == threads[i]);
        assert(step_enabled(after1, a));
        assert(run_trace(threads, 0) == seq![a as usize] + run_trace(after1, a));
        if nb > 0 {
            // Turn of fiber `b`.
            assert(after1[b].state is Ready);
            lemma_burst_step(after1[b]);
            assert(cyc(a, b - a, len) == b);
            assert forall|j2: int| 0 <= j2 < b - a implies !(after1[cyc(a, j2, len)].state
                is Ready) by {
                assert(cyc(a, j2, len) == a + j2);
            }
            lemma_next_ready_hits(after1, a, b - a);
            let after2 = tick_threads(after1, a, b);
            let ub = after_burst(with_state(threads[b], State::Running));
            assert(after2[b] == ub);
            assert(after2[0] == with_state(threads[0], State::Ready));
            assert(after2[a] == if ua.state is Running {
                with_state(ua, State::Ready)
            } else {
                ua
            });
            assert(forall|i: int|
                0 <= i < len && i != 0 && i != a && i != b ==> after2[i] == threads[i]);
            assert(step_enabled(after2, b));
            assert(run_trace(after1, a) == seq![b as usize] + run_trace(after2, b));
            // Turn of the base fiber, closing the round.
            assert(cyc(b, len - b, len) == 0);
            assert(after2[0].state is Ready);
            assert forall|j2: int| 0 <= j2 < len - b implies !(after2[cyc(b, j2, len)].state
                is Ready) by {
                assert(cyc(b, j2, len) == b + j2);
            }
            lemma_next_ready_hits(after2, b, len - b);
            let after3 = tick_threads(after2, b, 0);
            assert(after3[0] == after_burst(with_state(after2[0], State::Running)));
            assert(with_state(after2[0], State::Running) == threads[0]);
            assert(after3[0] == threads[0]);
            assert(after3[a] == after2[a]);
            assert(after3[b] == if ub.state is Running {
                with_state(ub, State::Ready)
            } else {
                ub
            });
            assert(forall|i: int|
                0 <= i < len && i != 0 && i != a && i != b ==> after3[i] == threads[i]);
            assert(run_trace(after2, b) == run_trace(after3, 0));
            assert(acts_left(after3[a]) == na - 1);
            assert(acts_left(after3[b]) == nb - 1);
            lemma_two_fibers_alternate(after3, a, b);
            assert(seq![a as usize] + (seq![b as usize] + pair_trace(
                a as usize,
                na - 1,
                b as usize,
                nb - 1,
            )) =~= seq![a as usize, b as usize] + pair_trace(
                a as usize,
                na - 1,
                b as usize,
                nb - 1,
            ));
            assert(pair_trace(a as usize, na, b as usize, nb) == seq![a as usize, b as usize]
                + pair_trace(a as usize, na - 1, b as usize, nb - 1));
        } else {
            // Fiber `b` has no turns left: `a` and the base fiber alone.
            assert(!(threads[b].state is Ready));
            assert(cyc(a, len - a, len) == 0);
            assert(after1[0].state is Ready);
            assert forall|j2: int| 0 <= j2 < len - a implies !(after1[cyc(a, j2, len)].state
                is Ready) by {
                assert(cyc(a, j2, len) == a + j2);
            }
            lemma_next_ready_hits(after1, a, len - a);
            let after2 = tick_threads(after1, a, 0);
            assert(after2[0] == after_burst(with_state(after1[0], State::Running)));
            assert(with_state(after1[0], State::Running) == threads[0]);
            assert(after2[0] == threads[0]);
            assert(after2[a] == if ua.state is Running {
                with_state(ua, State::Ready)
            } else {
                ua
            });
            assert(forall|i: int| 0 <= i < len && i != 0 && i != a ==> after2[i] == threads[i]);
            assert(run_trace(after1, a) == run_trace(after2, 0));
            assert(acts_left(after2[a]) == na - 1);
            assert(acts_left(after2[b]) == 0);
            lemma_two_fibers_alternate(after2, a, b);
            assert(pair_trace(a as usize, na, b as usize, 0) == seq![a as usize] + pair_trace(
                a as usize,
                na - 1,
                b as usize,
                0,
            ));
        }
    } else {
        // Fiber `a` has no turns left: `b` and the base fiber alone.
        assert(!(threads[a].state is Ready));
        assert(threads[b].state is Ready);
        lemma_burst_step(threads[b]);
        assert(cyc(0, b, len) == b);
        assert forall|j2: int| 0 <= j2 < b implies !(threads[cyc(0, j2, len)].state is Ready) by {
            assert(cyc(0, j2, len) == j2);
        }
        lemma_next_ready_hits(threads, 0, b);
        let after1 = tick_threads(threads, 0, b);
        let ub = after_burst(with_state(threads[b], State::Running));
        assert(after1[0] == with_state(threads[0], State::Ready));
        assert(after1[b] == ub);
        assert(forall|i: int| 0 <= i < len && i != 0 && i != b ==> after1[i] == threads[i]);
        assert(step_enabled(after1, b));
        assert(run_trace(threads, 0) == seq![b as usize] + run_trace(after1, b));
        assert(cyc(b, len - b, len) == 0);
        assert(after1[0].state is Ready);
        assert forall|j2: int| 0 <= j2 < len - b implies !(after1[cyc(b, j2, len)].state
            is Ready) by {
            assert(cyc(b, j2, len) == b + j2);
        }
        lemma_next_ready_hits(after1, b, len - b);
        let after2 = tick_threads(after1, b, 0);
        assert(after2[0] == after_burst(with_state(after1[0], State::Running)));
        assert(with_state(after1[0], State::Running) == threads[0]);
        assert(after2[0] == threads[0]);
        assert(after2[b] == if ub.state is Running {
            with_state(ub, State::Ready)
        } else {
            ub
        });
        assert(forall|i: int| 0 <= i < len && i != 0 && i != b ==> after2[i] == threads[i]);
        assert(run_trace(after1, b) == run_trace(after2, 0));
        assert(acts_left(after2[a]) == 0);
        assert(acts_left(after2[b]) == nb - 1);
        lemma_two_fibers_alternate(after2, a, b);
        assert(pair_trace(a as usize, 0, b as usize, nb) == seq![b as usize] + pair_trace(
            a as usize,
            0,
            b as usize,
            nb - 1,
        ));
    }
}

} // verus!
