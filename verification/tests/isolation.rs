use green_threads::{Payload, Runtime, State, Thread, DEFAULT_STACK_SIZE};

#[test]
fn stacks_of_live_fibers_never_touch_each_other() {
    let mut rt = Runtime::new();
    rt.spawn(Payload::Call { yields_left: 8, bursts: 0 }).unwrap();
    rt.spawn(Payload::Call { yields_left: 8, bursts: 0 }).unwrap();
    // Scribble a pattern into fiber 1's private stack, as its payload
    // would: deep frames at the bottom, locals near the top.
    rt.threads[1].stack[0] = 0xAB;
    rt.threads[1].stack[DEFAULT_STACK_SIZE / 2] = 0xCD;
    rt.threads[1].stack[DEFAULT_STACK_SIZE - 1] = 0xEF;
    let trace = rt.run();
    assert_eq!(trace.len(), 18);
    // Fiber 2's stack is untouched across all the interleaved switches...
    assert!(rt.threads[2].stack.iter().all(|&b| b == 0));
    // ...and fiber 1's pattern survives intact: the scheduler never writes
    // any fiber's stack, and distinct fibers' buffers never alias.
    assert_eq!(rt.threads[1].stack[0], 0xAB);
    assert_eq!(rt.threads[1].stack[DEFAULT_STACK_SIZE / 2], 0xCD);
    assert_eq!(rt.threads[1].stack[DEFAULT_STACK_SIZE - 1], 0xEF);
    assert!(rt.threads[0].stack.iter().all(|&b| b == 0));
}

#[test]
fn yield_thread_rotates_control() {
    let mut rt = Runtime::new();
    rt.spawn(Payload::Call { yields_left: 1, bursts: 0 }).unwrap();
    // The base fiber yields: control moves to the ready fiber.
    green_threads::yield_thread(&mut rt);
    assert_eq!(rt.current, 1);
    assert_eq!(rt.threads[0].state, State::Ready);
    assert_eq!(rt.threads[1].state, State::Running);
    // The fiber yields back: the scan wraps around to the base fiber.
    green_threads::yield_thread(&mut rt);
    assert_eq!(rt.current, 0);
    assert_eq!(rt.threads[0].state, State::Running);
    assert_eq!(rt.threads[1].state, State::Ready);
    // Switching alone performs no activation: the payload is untouched.
    assert_eq!(
        rt.threads[1].payload,
        Some(Payload::Call { yields_left: 1, bursts: 0 })
    );
}

#[test]
fn yield_thread_with_nothing_ready_is_noop() {
    let mut rt = Runtime::new();
    green_threads::yield_thread(&mut rt);
    assert_eq!(rt.current, 0);
    assert_eq!(rt.threads[0].state, State::Running);
}

#[test]
fn t_return_recycles_the_current_fiber() {
    let mut rt = Runtime::new();
    rt.spawn(Payload::Call { yields_left: 0, bursts: 0 }).unwrap();
    green_threads::yield_thread(&mut rt);
    assert_eq!(rt.current, 1);
    assert_eq!(rt.threads[1].state, State::Running);
    // The payload returns: the guard reports completion.
    rt.t_return();
    assert_eq!(rt.threads[1].state, State::Available);
    assert_eq!(rt.current, 1);
    // The run loop winds control back to the base fiber and stops.
    let trace = rt.run();
    assert!(trace.is_empty());
    assert_eq!(rt.current, 0);
    assert_eq!(rt.threads[0].state, State::Running);
}

#[test]
fn t_return_on_base_fiber_is_noop() {
    let mut rt = Runtime::new();
    rt.t_return();
    assert_eq!(rt.current, 0);
    assert_eq!(rt.threads[0].state, State::Running);
}

#[test]
fn context_record_is_primed_by_spawn_and_consumed_by_first_burst() {
    let mut rt = Runtime::new();
    let t = Thread::new(7);
    assert!(matches!(
        t.ctx.resume,
        green_threads::Resume::Unprimed
    ));
    rt.spawn(Payload::Call { yields_left: 1, bursts: 0 }).unwrap();
    // The bootstrap primed the record to land on the entry trampoline and
    // stored the fiber's own identity in the self-reference slot.
    assert!(matches!(rt.threads[1].ctx.resume, green_threads::Resume::Entry));
    assert_eq!(rt.threads[1].ctx.owner, 1);
    rt.tick();
    // After its first activation the fiber resumes mid-payload.
    assert!(matches!(
        rt.threads[1].ctx.resume,
        green_threads::Resume::Suspended
    ));
    assert_eq!(rt.threads[1].ctx.owner, 1);
}
