use green_threads::{Payload, Runtime, State};

#[test]
fn not_ready_once_then_ready_completes_exactly_once() {
    let mut rt = Runtime::new();
    rt.spawn(Payload::Task { pending_polls: 1, polls: 0 }).unwrap();
    // First run: the task is polled once, reports "not ready", and the
    // fiber parks; the scheduler then has nothing runnable.
    let trace = rt.run();
    assert_eq!(trace, vec![1]);
    assert_eq!(rt.threads[1].state, State::Parked);
    assert_eq!(
        rt.threads[1].payload,
        Some(Payload::Task { pending_polls: 0, polls: 1 })
    );
    assert_eq!(rt.pending, vec![1]);
    // The reactor completes the work and issues exactly one wake.
    let waker = rt.waker(1);
    waker.wake(&mut rt);
    assert_eq!(rt.threads[1].state, State::Ready);
    assert!(rt.pending.is_empty());
    // Second run: the fiber is re-entered at the poll step, the poll
    // reports ready, and the fiber completes.
    let trace = rt.run();
    assert_eq!(trace, vec![1]);
    assert_eq!(rt.threads[1].state, State::Available);
    assert_eq!(
        rt.threads[1].payload,
        Some(Payload::Task { pending_polls: 0, polls: 2 })
    );
    // A further run never polls the task a third time.
    let trace = rt.run();
    assert!(trace.is_empty());
    assert_eq!(
        rt.threads[1].payload,
        Some(Payload::Task { pending_polls: 0, polls: 2 })
    );
}

#[test]
fn wake_after_completion_is_idempotent_noop() {
    let mut rt = Runtime::new();
    rt.spawn(Payload::Task { pending_polls: 1, polls: 0 }).unwrap();
    rt.run();
    let waker = rt.waker(1);
    waker.wake(&mut rt);
    rt.run();
    assert_eq!(rt.threads[1].state, State::Available);
    // The fiber has completed; waking it twice more changes nothing and
    // never re-schedules it.
    waker.wake(&mut rt);
    waker.wake(&mut rt);
    assert_eq!(rt.threads[1].state, State::Available);
    assert_eq!(
        rt.threads[1].payload,
        Some(Payload::Task { pending_polls: 0, polls: 2 })
    );
    assert!(rt.pending.is_empty());
    let trace = rt.run();
    assert!(trace.is_empty());
    assert_eq!(
        rt.threads[1].payload,
        Some(Payload::Task { pending_polls: 0, polls: 2 })
    );
}

#[test]
fn wake_of_fiber_never_parked_is_noop() {
    let mut rt = Runtime::new();
    rt.spawn(Payload::Call { yields_left: 1, bursts: 0 }).unwrap();
    let waker = rt.waker(1);
    waker.wake(&mut rt);
    assert_eq!(rt.threads[1].state, State::Ready);
    assert_eq!(
        rt.threads[1].payload,
        Some(Payload::Call { yields_left: 1, bursts: 0 })
    );
    assert!(rt.pending.is_empty());
}

#[test]
fn parked_fiber_stays_parked_without_wake() {
    let mut rt = Runtime::new();
    rt.spawn(Payload::Task { pending_polls: 2, polls: 0 }).unwrap();
    rt.spawn(Payload::Call { yields_left: 2, bursts: 0 }).unwrap();
    let trace = rt.run();
    // The task is polled once and parks; the callable runs to completion;
    // the parked fiber is not polled again.
    assert_eq!(trace[0], 1);
    assert_eq!(trace.iter().filter(|&&x| x == 1).count(), 1);
    assert_eq!(trace.iter().filter(|&&x| x == 2).count(), 3);
    assert_eq!(rt.threads[1].state, State::Parked);
    assert_eq!(
        rt.threads[1].payload,
        Some(Payload::Task { pending_polls: 1, polls: 1 })
    );
    assert_eq!(rt.threads[2].state, State::Available);
    assert_eq!(rt.pending, vec![1]);
}

#[test]
fn task_with_two_pending_reports_parks_twice() {
    let mut rt = Runtime::new();
    rt.spawn(Payload::Task { pending_polls: 2, polls: 0 }).unwrap();
    rt.run();
    assert_eq!(rt.threads[1].state, State::Parked);
    rt.waker(1).wake(&mut rt);
    rt.run();
    assert_eq!(rt.threads[1].state, State::Parked);
    assert_eq!(
        rt.threads[1].payload,
        Some(Payload::Task { pending_polls: 0, polls: 2 })
    );
    rt.waker(1).wake(&mut rt);
    rt.run();
    assert_eq!(rt.threads[1].state, State::Available);
    assert_eq!(
        rt.threads[1].payload,
        Some(Payload::Task { pending_polls: 0, polls: 3 })
    );
}
