use frith::joinqueue::{Enqueued, JoinQueue, TaskKind};

fn started_id(e: Enqueued<u32>) -> Option<u64> {
    match e {
        Enqueued::Started(qt) => Some(qt.id),
        Enqueued::Queued(_) => None,
    }
}

#[test]
fn concurrency_never_exceeds_bound() {
    let mut q: JoinQueue<u32> = JoinQueue::new(2);
    let mut started: Vec<u64> = Vec::new();
    for task in 0..5u32 {
        assert!(q.num_running() <= 2);
        if let Some(id) = started_id(q.enqueue(task)) {
            started.push(id);
        }
        assert!(q.num_running() <= 2);
    }
    assert_eq!(q.num_running(), 2);
    assert_eq!(q.num_queued(), 3);
    while let Some(id) = started.pop() {
        let promoted = q.complete(id);
        assert!(q.num_running() <= 2);
        for qt in promoted {
            started.push(qt.id);
        }
    }
    assert!(q.is_exhausted());
}

#[test]
fn draining_yields_each_task_exactly_once() {
    // Five tasks through a scheduler of width two: every payload comes out
    // exactly once, however the completions interleave.
    let mut q: JoinQueue<u32> = JoinQueue::new(2);
    let mut live: Vec<(u64, u32)> = Vec::new();
    for task in 10..15u32 {
        match q.enqueue(task) {
            Enqueued::Started(qt) => live.push((qt.id, qt.task)),
            Enqueued::Queued(_) => {}
        }
    }
    let mut delivered: Vec<u32> = Vec::new();
    while let Some((id, task)) = live.pop() {
        delivered.push(task);
        for qt in q.complete(id) {
            live.push((qt.id, qt.task));
        }
    }
    assert!(q.is_exhausted());
    delivered.sort();
    assert_eq!(delivered, vec![10, 11, 12, 13, 14]);
}

#[test]
fn backlog_promotes_in_fifo_order() {
    let mut q: JoinQueue<u32> = JoinQueue::new(1);
    let first = match q.enqueue(0) {
        Enqueued::Started(qt) => qt,
        Enqueued::Queued(_) => panic!("capacity was free"),
    };
    for task in 1..4u32 {
        assert!(matches!(q.enqueue(task), Enqueued::Queued(_)));
    }
    let promoted = q.complete(first.id);
    assert_eq!(promoted.len(), 1);
    assert_eq!(promoted[0].task, 1);
    let promoted = q.complete(promoted[0].id);
    assert_eq!(promoted.len(), 1);
    assert_eq!(promoted[0].task, 2);
    let promoted = q.complete(promoted[0].id);
    assert_eq!(promoted.len(), 1);
    assert_eq!(promoted[0].task, 3);
    let promoted = q.complete(promoted[0].id);
    assert!(promoted.is_empty());
    assert!(q.is_exhausted());
}

#[test]
fn blocking_and_nonblocking_are_tagged() {
    let mut q: JoinQueue<u32> = JoinQueue::new(2);
    let a = match q.enqueue_blocking(1) {
        Enqueued::Started(qt) => qt,
        Enqueued::Queued(_) => panic!("capacity was free"),
    };
    let b = match q.enqueue(2) {
        Enqueued::Started(qt) => qt,
        Enqueued::Queued(_) => panic!("capacity was free"),
    };
    assert!(matches!(a.kind, TaskKind::Blocking));
    assert!(matches!(b.kind, TaskKind::NonBlocking));
}

#[test]
fn idle_drain_serves_backlog_front() {
    let mut q: JoinQueue<u32> = JoinQueue::new(1);
    let first = match q.enqueue(7) {
        Enqueued::Started(qt) => qt,
        Enqueued::Queued(_) => panic!("capacity was free"),
    };
    assert!(matches!(q.enqueue(8), Enqueued::Queued(_)));
    // While something runs there is no idle task to hand out.
    assert!(q.take_idle_task().is_none());
    // Completing the runner promotes the queued task; after both are done
    // the scheduler is exhausted.
    let promoted = q.complete(first.id);
    let promoted_id = promoted[0].id;
    let none_promoted = q.complete(promoted_id);
    assert!(none_promoted.is_empty());
    assert!(q.is_exhausted());
    // An exhausted scheduler has nothing to drain either.
    assert!(q.take_idle_task().is_none());
}

#[test]
fn is_running_tracks_outstanding_ids() {
    let mut q: JoinQueue<u32> = JoinQueue::new(1);
    let qt = match q.enqueue(3) {
        Enqueued::Started(qt) => qt,
        Enqueued::Queued(_) => panic!("capacity was free"),
    };
    assert!(q.is_running(qt.id));
    q.complete(qt.id);
    assert!(!q.is_running(qt.id));
}
