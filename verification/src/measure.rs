use vstd::prelude::*;

verus! {

use crate::fiber::{is_live, Payload, Thread};

/// The scheduling work a fiber still holds: the number of activations left
/// in its payload, counted only while the scheduler still tracks the fiber
/// (ready, running or parked).  The run loop's termination measure is built
/// from it.
pub open spec fn work_of(t: Thread) -> int {
    if is_live(t.state) {
        match t.payload {
            Option::None => 0,
            Option::Some(Payload::Call { yields_left, bursts: _ }) => yields_left + 1,
            Option::Some(Payload::Task { pending_polls, polls: _ }) => pending_polls + 1,
        }
    } else {
        0
    }
}

/// Total work held across a pool.
pub open spec fn sum_work(threads: Seq<Thread>) -> int
    decreases threads.len(),
{
    if threads.len() == 0 {
        0
    } else {
        sum_work(threads.drop_last()) + work_of(threads.last())
    }
}

pub proof fn lemma_sum_work_nonneg(threads: Seq<Thread>)
    ensures
        sum_work(threads) >= 0,
    decreases threads.len(),
{
    if threads.len() > 0 {
        lemma_sum_work_nonneg(threads.drop_last());
    }
}

/// Replacing one fiber changes the total work by exactly the difference at
/// that slot.
pub proof fn lemma_sum_work_update(threads: Seq<Thread>, i: int, t: Thread)
    requires
        0 <= i < threads.len(),
    ensures
        sum_work(threads.update(i, t)) == sum_work(threads) - work_of(threads[i]) + work_of(t),
    decreases threads.len(),
{
    let upd = threads.update(i, t);
    if i == threads.len() - 1 {
        assert(upd.drop_last() =~= threads.drop_last());
        assert(upd.last() == t);
    } else {
        assert(upd.drop_last() =~= threads.drop_last().update(i, t));
        assert(upd.last() == threads.last());
        lemma_sum_work_update(threads.drop_last(), i, t);
    }
}

/// Number of occurrences of `x` in a trace.
pub open spec fn count_of(trace: Seq<usize>, x: usize) -> int
    decreases trace.len(),
{
    if trace.len() == 0 {
        0
    } else {
        count_of(trace.drop_last(), x) + if trace.last() == x {
            1int
        } else {
            0int
        }
    }
}

pub proof fn lemma_count_of_push(trace: Seq<usize>, e: usize, x: usize)
    ensures
        count_of(trace.push(e), x) == count_of(trace, x) + if x == e {
            1int
        } else {
            0int
        },
{
    assert(trace.push(e).drop_last() =~= trace);
    assert(trace.push(e).last() == e);
}

} // verus!
