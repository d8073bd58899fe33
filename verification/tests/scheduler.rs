use green_threads::{Payload, Runtime, SpawnError, State, Thread, DEFAULT_STACK_SIZE, MAX_THREADS};

#[test]
fn new_pool_shape() {
    let rt = Runtime::new();
    assert_eq!(rt.threads.len(), MAX_THREADS);
    assert_eq!(rt.current, 0);
    assert!(rt.pending.is_empty());
    assert_eq!(rt.threads[0].state, State::Running);
    assert!(rt.threads[0].payload.is_none());
    for i in 1..MAX_THREADS {
        assert_eq!(rt.threads[i].state, State::Available);
        assert_eq!(rt.threads[i].id, i);
        assert!(rt.threads[i].payload.is_none());
    }
}

#[test]
fn thread_new_defaults() {
    let t = Thread::new(3);
    assert_eq!(t.id, 3);
    assert_eq!(t.state, State::Available);
    assert!(t.payload.is_none());
    assert_eq!(t.stack.len(), DEFAULT_STACK_SIZE);
    assert!(t.stack.iter().all(|&b| b == 0));
}

#[test]
fn spawn_claims_slots_in_pool_order() {
    let mut rt = Runtime::new();
    assert_eq!(rt.spawn(Payload::Call { yields_left: 1, bursts: 0 }), Ok(1));
    assert_eq!(rt.spawn(Payload::Call { yields_left: 2, bursts: 0 }), Ok(2));
    assert_eq!(rt.spawn(Payload::Call { yields_left: 3, bursts: 0 }), Ok(3));
    for i in 1..4 {
        assert_eq!(rt.threads[i].state, State::Ready);
    }
}

#[test]
fn spawn_beyond_capacity_reports_error_and_corrupts_nothing() {
    let mut rt = Runtime::new();
    for i in 1..MAX_THREADS {
        assert_eq!(
            rt.spawn(Payload::Call { yields_left: 2, bursts: 0 }),
            Ok(i)
        );
    }
    // The pool has three spawnable slots; the fourth spawn must fail.
    assert_eq!(
        rt.spawn(Payload::Call { yields_left: 7, bursts: 0 }),
        Err(SpawnError::CapacityExhausted)
    );
    // The fibers already spawned are untouched by the failed attempt...
    for i in 1..MAX_THREADS {
        assert_eq!(rt.threads[i].state, State::Ready);
        assert_eq!(
            rt.threads[i].payload,
            Some(Payload::Call { yields_left: 2, bursts: 0 })
        );
    }
    // ...and still run to completion, each body executed exactly once.
    rt.run();
    for i in 1..MAX_THREADS {
        assert_eq!(rt.threads[i].state, State::Available);
        assert_eq!(
            rt.threads[i].payload,
            Some(Payload::Call { yields_left: 0, bursts: 3 })
        );
    }
}

#[test]
fn run_with_no_work_terminates_immediately() {
    let mut rt = Runtime::new();
    let trace = rt.run();
    assert!(trace.is_empty());
    assert_eq!(rt.current, 0);
    assert_eq!(rt.threads[0].state, State::Running);
    for i in 1..MAX_THREADS {
        assert_eq!(rt.threads[i].state, State::Available);
    }
}

#[test]
fn single_fiber_runs_to_completion() {
    let mut rt = Runtime::new();
    rt.spawn(Payload::Call { yields_left: 5, bursts: 0 }).unwrap();
    let trace = rt.run();
    // Five yielding activations plus the returning one.
    assert_eq!(trace, vec![1, 1, 1, 1, 1, 1]);
    assert_eq!(rt.threads[1].state, State::Available);
    assert_eq!(
        rt.threads[1].payload,
        Some(Payload::Call { yields_left: 0, bursts: 6 })
    );
    assert_eq!(rt.current, 0);
}

#[test]
fn pool_of_n_each_yield_k() {
    // Every spawnable slot of a larger pool gets a payload that yields
    // exactly three times; each body must execute exactly once and control
    // must return to the base fiber after all of them complete.
    let mut rt = Runtime::with_threads(5);
    for i in 1..5 {
        assert_eq!(rt.spawn(Payload::Call { yields_left: 3, bursts: 0 }), Ok(i));
    }
    let trace = rt.run();
    assert_eq!(trace.len(), 16);
    for i in 1..5 {
        assert_eq!(trace.iter().filter(|&&x| x == i).count(), 4);
        assert_eq!(rt.threads[i].state, State::Available);
        assert_eq!(
            rt.threads[i].payload,
            Some(Payload::Call { yields_left: 0, bursts: 4 })
        );
    }
    assert_eq!(rt.current, 0);
    assert_eq!(rt.threads[0].state, State::Running);
}

#[test]
fn two_fibers_alternate_strictly() {
    let mut rt = Runtime::new();
    rt.spawn(Payload::Call { yields_left: 4, bursts: 0 }).unwrap();
    rt.spawn(Payload::Call { yields_left: 4, bursts: 0 }).unwrap();
    let trace = rt.run();
    // Both fibers stay live for five activations each; their turns must
    // alternate strictly, fiber 1 first.
    assert_eq!(trace, vec![1, 2, 1, 2, 1, 2, 1, 2, 1, 2]);
}

#[test]
fn example_scenario_ten_and_fifteen_yields() {
    // Fiber A loops ten times, fiber B fifteen, on a pool of four; the run
    // must interleave them in strict round-robin order until A finishes,
    // let B run out its remaining turns alone, and then terminate.
    let mut rt = Runtime::new();
    rt.spawn(Payload::Call { yields_left: 10, bursts: 0 }).unwrap();
    rt.spawn(Payload::Call { yields_left: 15, bursts: 0 }).unwrap();
    let trace = rt.run();
    let mut expected: Vec<usize> = Vec::new();
    for _ in 0..11 {
        expected.push(1);
        expected.push(2);
    }
    for _ in 0..5 {
        expected.push(2);
    }
    assert_eq!(trace, expected);
    // 10 + 15 yielding activations, plus one returning activation each.
    assert_eq!(trace.len(), 10 + 15 + 2);
    assert_eq!(rt.threads[1].state, State::Available);
    assert_eq!(rt.threads[2].state, State::Available);
    assert_eq!(
        rt.threads[1].payload,
        Some(Payload::Call { yields_left: 0, bursts: 11 })
    );
    assert_eq!(
        rt.threads[2].payload,
        Some(Payload::Call { yields_left: 0, bursts: 16 })
    );
    assert_eq!(rt.current, 0);
}

#[test]
fn spawn_reuses_recycled_slot() {
    let mut rt = Runtime::new();
    assert_eq!(rt.spawn(Payload::Call { yields_left: 0, bursts: 0 }), Ok(1));
    rt.run();
    assert_eq!(rt.threads[1].state, State::Available);
    // The first available slot is fiber 1 again: fibers are recycled.
    assert_eq!(
        rt.spawn(Payload::Task { pending_polls: 0, polls: 0 }),
        Ok(1)
    );
    assert_eq!(rt.threads[1].state, State::Ready);
    assert_eq!(
        rt.threads[1].payload,
        Some(Payload::Task { pending_polls: 0, polls: 0 })
    );
}

#[test]
fn tick_performs_one_activation() {
    let mut rt = Runtime::new();
    rt.spawn(Payload::Call { yields_left: 2, bursts: 0 }).unwrap();
    // First step: fiber 1 runs one activation and yields.
    assert_eq!(rt.tick(), Some(1));
    assert_eq!(rt.current, 1);
    assert_eq!(rt.threads[1].state, State::Running);
    assert_eq!(
        rt.threads[1].payload,
        Some(Payload::Call { yields_left: 1, bursts: 1 })
    );
    // Second step: nothing else is ready but the base fiber, which takes
    // its (idle) turn.
    assert_eq!(rt.tick(), Some(0));
    assert_eq!(rt.current, 0);
    assert_eq!(rt.threads[1].state, State::Ready);
    // Third step: fiber 1 again.
    assert_eq!(rt.tick(), Some(1));
    assert_eq!(
        rt.threads[1].payload,
        Some(Payload::Call { yields_left: 0, bursts: 2 })
    );
}

#[test]
fn spawn_accepts_the_largest_payload_counter() {
    let mut rt = Runtime::new();
    // The activation counter accounts every yield plus the returning
    // activation; the largest admissible yield count is one below the
    // counter's ceiling.
    assert_eq!(
        rt.spawn(Payload::Call { yields_left: u64::MAX - 1, bursts: 0 }),
        Ok(1)
    );
    assert_eq!(rt.tick(), Some(1));
    assert_eq!(
        rt.threads[1].payload,
        Some(Payload::Call { yields_left: u64::MAX - 2, bursts: 1 })
    );
}

#[test]
fn minimal_pool_has_no_spawn_capacity() {
    let mut rt = Runtime::with_threads(1);
    assert_eq!(
        rt.spawn(Payload::Call { yields_left: 1, bursts: 0 }),
        Err(SpawnError::CapacityExhausted)
    );
    let trace = rt.run();
    assert!(trace.is_empty());
    assert_eq!(rt.current, 0);
    assert_eq!(rt.threads[0].state, State::Running);
}
