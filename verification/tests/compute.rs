use mill::compute::{round_robin_worker, WorkerStep};
use mill::{ComputePoolMetrics, ComputeQueue, TaskPriority};

/// Queue tasks with the given priorities (task i carries i) and return the
/// order in which the queue hands them out.
fn run_order(priorities: &[TaskPriority]) -> Vec<usize> {
    let mut q = ComputeQueue::new();
    for (i, &p) in priorities.iter().enumerate() {
        q.push(i, p);
    }
    let mut order = Vec::new();
    while let Some(t) = q.pop() {
        order.push(t.task);
    }
    order
}

#[test]
fn test_compute_pool_priority_high_before_low() {
    // Queue: Low, High, Normal. Expected dequeue: High, Normal, Low.
    assert_eq!(run_order(&[TaskPriority::Low, TaskPriority::High, TaskPriority::Normal]), vec![1, 2, 0]);
}

#[test]
fn test_compute_pool_priority_critical_first() {
    assert_eq!(
        run_order(&[TaskPriority::Normal, TaskPriority::Low, TaskPriority::Critical, TaskPriority::High]),
        vec![2, 3, 0, 1]
    );
}

#[test]
fn test_compute_pool_fifo_within_same_priority() {
    assert_eq!(
        run_order(&[TaskPriority::Normal, TaskPriority::Normal, TaskPriority::Normal]),
        vec![0, 1, 2]
    );
}

#[test]
fn test_compute_pool_all_levels_ordered() {
    assert_eq!(
        run_order(&[TaskPriority::Low, TaskPriority::Normal, TaskPriority::High, TaskPriority::Critical]),
        vec![3, 2, 1, 0]
    );
}

#[test]
fn test_compute_pool_fifo_with_mixed_duplicates() {
    assert_eq!(
        run_order(&[TaskPriority::High, TaskPriority::Low, TaskPriority::High, TaskPriority::Low]),
        vec![0, 2, 1, 3]
    );
}

#[test]
fn test_compute_pool_panic_is_caught() {
    let mut q = ComputeQueue::new();
    q.push("panics", TaskPriority::Normal);
    q.push("runs", TaskPriority::Normal);
    for outcome in [false, true] {
        let t = q.pop().unwrap();
        q.record_start();
        q.record_finish(outcome, 10);
        let _ = t;
    }
    let metrics = q.metrics();
    assert_eq!(metrics.tasks_failed(), 1);
    assert_eq!(metrics.tasks_completed(), 1);
}

#[test]
fn test_compute_pool_shutdown_drains_queue() {
    let mut q = ComputeQueue::new();
    for i in 0..5 {
        q.push(i, TaskPriority::Normal);
    }
    let mut res = Vec::new();
    loop {
        match q.next_step(true) {
            WorkerStep::Run(t) => res.push(t.task),
            WorkerStep::Wait => panic!("a shutting-down worker does not wait"),
            WorkerStep::Exit => break,
        }
    }
    assert_eq!(res.len(), 5);
    assert_eq!(res, vec![0, 1, 2, 3, 4]);
}

#[test]
fn test_compute_pool_metrics() {
    let mut q = ComputeQueue::new();
    q.push(0, TaskPriority::Normal);
    q.push(1, TaskPriority::Normal);
    // Both workers pick up the Normal tasks.
    for _ in 0..2 {
        q.pop().unwrap();
        q.record_start();
    }
    q.push(2, TaskPriority::Low);
    q.push(3, TaskPriority::High);
    q.push(4, TaskPriority::Critical);
    let metrics = q.metrics();
    assert_eq!(metrics.tasks_submitted(), 5);
    assert_eq!(metrics.active_workers(), 2);
    assert_eq!(metrics.queue_depth_low(), 1);
    assert_eq!(metrics.queue_depth_high(), 1);
    assert_eq!(metrics.queue_depth_critical(), 1);
    assert_eq!(metrics.queue_depth_normal(), 0);

    for _ in 0..2 {
        q.record_finish(true, 1_000);
    }
    while q.pop().is_some() {
        q.record_start();
        q.record_finish(true, 1_000);
    }
    let metrics = q.metrics();
    assert_eq!(metrics.tasks_completed(), 5);
    assert_eq!(metrics.active_workers(), 0);
    assert_eq!(metrics.queue_depth_low(), 0);
    assert_eq!(metrics.queue_depth_high(), 0);
    assert_eq!(metrics.queue_depth_critical(), 0);
    assert!(metrics.total_execution_time_ns() > 0);
}

#[test]
fn idle_worker_waits() {
    let mut q: ComputeQueue<u8> = ComputeQueue::new();
    assert!(q.is_empty());
    assert!(matches!(q.next_step(false), WorkerStep::Wait));
    assert!(matches!(q.next_step(true), WorkerStep::Exit));
}

#[test]
fn metrics_start_at_zero() {
    let m = ComputePoolMetrics::default();
    assert_eq!(m.tasks_submitted(), 0);
    assert_eq!(m.total_execution_time_ns(), 0);
    assert_eq!(TaskPriority::Critical.rank(), 3);
    assert!(TaskPriority::High > TaskPriority::Normal);
}

#[test]
fn round_robin_cycles_over_workers() {
    let picks: Vec<usize> = (0..6).map(|t| round_robin_worker(t, 4)).collect();
    assert_eq!(picks, vec![0, 1, 2, 3, 0, 1]);
}

#[test]
fn sequence_numbers_count_submissions() {
    let mut q = ComputeQueue::new();
    assert_eq!(q.push('a', TaskPriority::Low), 0);
    assert_eq!(q.push('b', TaskPriority::High), 1);
    let t = q.pop().unwrap();
    assert_eq!((t.task, t.priority, t.sequence), ('b', TaskPriority::High, 1));
}

#[test]
fn test_compute_pool_panic_preserves_priority_order() {
    // A blocker runs first; meanwhile a panicking High task, then Normal, then Low are queued.
    let mut q = ComputeQueue::new();
    q.push("blocker", TaskPriority::Low);
    let blocker = q.pop().unwrap();
    assert_eq!(blocker.task, "blocker");
    q.record_start();
    q.push("panic", TaskPriority::High);
    q.push("normal", TaskPriority::Normal);
    q.push("low", TaskPriority::Low);
    q.record_finish(true, 0);

    let mut ran = Vec::new();
    while let WorkerStep::Run(t) = q.next_step(false) {
        q.record_start();
        let succeeded = t.task != "panic";
        if succeeded {
            ran.push(t.task);
        }
        q.record_finish(succeeded, 0);
    }
    // The panic task ran first (High), then Normal, then Low.
    assert_eq!(ran, vec!["normal", "low"]);
    assert_eq!(q.metrics().tasks_failed, 1);
    assert_eq!(q.metrics().tasks_completed, 3);
}

#[test]
fn test_compute_pool_multi_worker_picks_highest_first() {
    // Two workers are busy with Low blockers; then Critical and Low are queued.
    let mut q = ComputeQueue::new();
    q.push("blocker1", TaskPriority::Low);
    q.push("blocker2", TaskPriority::Low);
    assert_eq!(q.pop().unwrap().task, "blocker1");
    assert_eq!(q.pop().unwrap().task, "blocker2");
    q.push("critical", TaskPriority::Critical);
    q.push("low", TaskPriority::Low);
    // Critical must be the first one popped.
    match q.next_step(false) {
        WorkerStep::Run(t) => assert_eq!(t.task, "critical"),
        _ => panic!("expected a task"),
    }
}

#[test]
fn finished_pool_counters_add_up() {
    let mut q = ComputeQueue::new();
    for i in 0..6 {
        q.push(i, if i % 2 == 0 { TaskPriority::High } else { TaskPriority::Low });
    }
    let mut n = 0;
    while let WorkerStep::Run(t) = q.next_step(false) {
        q.record_start();
        q.record_finish(t.task % 3 != 0, 1);
        n += 1;
    }
    assert_eq!(n, 6);
    let m = q.metrics();
    assert_eq!(m.tasks_completed() + m.tasks_failed(), m.tasks_submitted());
    assert_eq!(m.tasks_failed(), 2);
    assert_eq!(m.active_workers(), 0);
    assert_eq!(m.queue_depth_low() + m.queue_depth_normal() + m.queue_depth_high() + m.queue_depth_critical(), 0);
}

#[test]
fn handing_out_a_task_keeps_the_counters() {
    let mut q = ComputeQueue::new();
    q.push("fails", TaskPriority::Normal);
    q.push("a", TaskPriority::Normal);
    q.push("b", TaskPriority::High);
    match q.next_step(false) {
        WorkerStep::Run(t) => assert_eq!(t.task, "b"),
        _ => panic!("expected a task"),
    }
    q.record_start();
    q.record_finish(true, 7);
    match q.next_step(false) {
        WorkerStep::Run(t) => assert_eq!(t.task, "fails"),
        _ => panic!("expected a task"),
    }
    q.record_start();
    q.record_finish(false, 3);
    let before = q.metrics();
    match q.next_step(false) {
        WorkerStep::Run(t) => assert_eq!(t.task, "a"),
        _ => panic!("expected a task"),
    }
    let after = q.metrics();
    assert_eq!(after.tasks_failed(), 1);
    assert_eq!(after.tasks_completed(), 1);
    assert_eq!(after.total_execution_time_ns(), before.total_execution_time_ns());
    assert_eq!(after.queue_depth_normal(), before.queue_depth_normal() - 1);
    q.record_start();
    assert_eq!(q.metrics().active_workers(), 1);
}
