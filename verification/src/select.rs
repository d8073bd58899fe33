use vstd::prelude::*;

verus! {

use crate::fiber::Thread;

/// The pool index reached after walking `k` slots forward from `current` in
/// a pool of `len` fibers, wrapping around the end of the pool.  The walk
/// never needs to wrap more than once, so the index is kept in linear form.
pub open spec fn cyc(current: int, k: int, len: int) -> int
    recommends
        0 <= current < len,
        0 <= k <= len,
{
    if current + k < len {
        current + k
    } else {
        current + k - len
    }
}

/// Round-robin scan: the first fiber in the cyclic order `current`,
/// `current + 1`, ... whose state is `Ready`, skipping the `k` slots already
/// examined; `None` once every slot has been examined without success.
pub open spec fn scan_from(threads: Seq<Thread>, current: int, k: int) -> Option<int>
    recommends
        0 <= current < threads.len(),
        0 <= k,
    decreases threads.len() - k,
{
    if k < 0 || k >= threads.len() {
        Option::None
    } else {
        let pos = cyc(current, k, threads.len() as int);
        if threads[pos].state is Ready {
            Option::Some(pos)
        } else {
            scan_from(threads, current, k + 1)
        }
    }
}

/// The fiber the scheduler switches to from `current`: the first `Ready`
/// fiber in cyclic pool order starting at `current` itself, or `None` when
/// no fiber is `Ready`.
pub open spec fn next_ready(threads: Seq<Thread>, current: int) -> Option<int> {
    scan_from(threads, current, 0)
}

/// Every pool index is reached by the cyclic walk within `len` steps.
proof fn lemma_cyc_covers(current: int, len: int, i: int)
    requires
        0 <= current < len,
        0 <= i < len,
    ensures
        exists|j: int| 0 <= j < len && cyc(current, j, len) == i,
{
    let j = if i >= current {
        i - current
    } else {
        i + len - current
    };
    assert(0 <= j < len && cyc(current, j, len) == i);
}

proof fn lemma_scan_from_props(threads: Seq<Thread>, current: int, k: int)
    requires
        0 <= current < threads.len(),
        0 <= k,
    ensures
        scan_from(threads, current, k) matches Some(pos) ==> {
            &&& 0 <= pos < threads.len()
            &&& threads[pos].state is Ready
            &&& exists|j: int|
                {
                    &&& k <= j < threads.len()
                    &&& pos == cyc(current, j, threads.len() as int)
                    &&& forall|j2: int|
                        k <= j2 < j ==> !(threads[cyc(
                            current,
                            j2,
                            threads.len() as int,
                        )].state is Ready)
                }
        },
        scan_from(threads, current, k) is None ==> forall|j: int|
            k <= j < threads.len() ==> !(threads[cyc(current, j, threads.len() as int)].state
                is Ready),
    decreases threads.len() - k,
{
    let len = threads.len() as int;
    if k >= len {
    } else {
        let pos = cyc(current, k, len);
        if threads[pos].state is Ready {
            assert(k <= k < len && pos == cyc(current, k, len) && (forall|j2: int|
                k <= j2 < k ==> !(threads[cyc(current, j2, len)].state is Ready)));
        } else {
            lemma_scan_from_props(threads, current, k + 1);
            match scan_from(threads, current, k + 1) {
                Option::Some(p) => {
                    let j = choose|j: int|
                        {
                            &&& k + 1 <= j < len
                            &&& p == cyc(current, j, len)
                            &&& forall|j2: int|
                                k + 1 <= j2 < j ==> !(threads[cyc(current, j2, len)].state
                                    is Ready)
                        };
                    assert(k <= j < len && p == cyc(current, j, len) && (forall|j2: int|
                        k <= j2 < j ==> !(threads[cyc(current, j2, len)].state is Ready)));
                },
                Option::None => {},
            }
        }
    }
}

proof fn lemma_scan_hits_from(threads: Seq<Thread>, current: int, j: int, k: int)
    requires
        0 <= current < threads.len(),
        0 <= k <= j < threads.len(),
        threads[cyc(current, j, threads.len() as int)].state is Ready,
        forall|j2: int|
            k <= j2 < j ==> !(threads[cyc(current, j2, threads.len() as int)].state is Ready),
    ensures
        scan_from(threads, current, k) == Option::Some(cyc(current, j, threads.len() as int)),
    decreases j - k,
{
    if k < j {
        lemma_scan_hits_from(threads, current, j, k + 1);
    }
}

/// When the first `Ready` fiber in cyclic order sits `j` slots beyond the
/// current one, the scan selects exactly it.
pub proof fn lemma_next_ready_hits(threads: Seq<Thread>, current: int, j: int)
    requires
        0 <= current < threads.len(),
        0 <= j < threads.len(),
        threads[cyc(current, j, threads.len() as int)].state is Ready,
        forall|j2: int|
            0 <= j2 < j ==> !(threads[cyc(current, j2, threads.len() as int)].state is Ready),
    ensures
        next_ready(threads, current) == Option::Some(cyc(current, j, threads.len() as int)),
{
    lemma_scan_hits_from(threads, current, j, 0);
}

/// The selection the round-robin scan makes is exact: when a fiber is
/// chosen it is `Ready`, and no `Ready` fiber sits between the current
/// fiber and the chosen one in cyclic pool order — no eligible fiber is
/// ever skipped, and there is no priority.
pub proof fn lemma_next_ready_round_robin(threads: Seq<Thread>, current: int)
    requires
        0 <= current < threads.len(),
    ensures
        next_ready(threads, current) matches Some(pos) ==> {
            &&& 0 <= pos < threads.len()
            &&& threads[pos].state is Ready
            &&& exists|j: int|
                {
                    &&& 0 <= j < threads.len()
                    &&& pos == cyc(current, j, threads.len() as int)
                    &&& forall|j2: int|
                        0 <= j2 < j ==> !(threads[cyc(
                            current,
                            j2,
                            threads.len() as int,
                        )].state is Ready)
                }
        },
{
    lemma_scan_from_props(threads, current, 0);
}

/// The scan reports "nothing runnable" exactly when no fiber in the pool is
/// `Ready`: the run loop's termination test is complete as well as sound.
pub proof fn lemma_next_ready_none_iff_no_ready(threads: Seq<Thread>, current: int)
    requires
        0 <= current < threads.len(),
    ensures
        next_ready(threads, current) is None <==> forall|i: int|
            0 <= i < threads.len() ==> !((#[trigger] threads[i]).state is Ready),
{
    lemma_scan_from_props(threads, current, 0);
    let len = threads.len() as int;
    if next_ready(threads, current) is None {
        assert forall|i: int| 0 <= i < len implies !((#[trigger] threads[i]).state is Ready) by {
            lemma_cyc_covers(current, len, i);
            let j = choose|j: int| 0 <= j < len && cyc(current, j, len) == i;
            assert(!(threads[cyc(current, j, len)].state is Ready));
        }
    }
}

} // verus!
