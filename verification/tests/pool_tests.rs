use chall_gate::pool::{PoolWorker, TaskStatus};

#[test]
fn pool_asks_for_more_until_pool_is_full() {
    let mut w: PoolWorker<u32> = PoolWorker::new(2, 5);
    // answer to the opening start
    assert!(w.on_spawned(Some(1)));
    assert_eq!((w.idle_count(), w.running_count()), (1, 1));
    // the second start fills the pool
    assert!(!w.on_spawned(Some(2)));
    assert_eq!((w.idle_count(), w.running_count()), (2, 2));
}

#[test]
fn pool_hands_out_last_started_task() {
    let mut w: PoolWorker<u32> = PoolWorker::new(2, 5);
    w.on_spawned(Some(1));
    w.on_spawned(Some(2));
    assert!(w.accepts_requests());
    let (t, signal) = w.on_request();
    assert_eq!(t, 2);
    assert!(signal);
    // a start is now in hand: no second request for one
    let (t, signal) = w.on_request();
    assert_eq!(t, 1);
    assert!(!signal);
    assert!(!w.accepts_requests());
}

#[test]
fn pool_respects_running_limit() {
    let mut w: PoolWorker<u32> = PoolWorker::new(5, 2);
    assert!(w.on_spawned(Some(1)));
    assert!(!w.on_spawned(Some(2)));
    assert_eq!(w.running_count(), 2);
    let (_, signal) = w.on_request();
    assert!(!signal);
    // a task comes back: room to start another
    assert!(w.on_drop());
    assert_eq!(w.running_count(), 1);
}

#[test]
fn pool_spawner_answering_nothing_frees_it() {
    let mut w: PoolWorker<u32> = PoolWorker::new(1, 1);
    assert!(w.on_spawned(None));
    assert_eq!((w.idle_count(), w.running_count()), (0, 0));
}

#[test]
fn pool_drop_without_room_does_not_signal() {
    let mut w: PoolWorker<u32> = PoolWorker::new(1, 3);
    w.on_spawned(Some(1));
    let (_, signal) = w.on_request();
    assert!(signal);
    // the spawner is busy: a drop asks for nothing more
    assert!(!w.on_drop());
}

#[test]
fn task_status_values_differ() {
    assert_ne!(TaskStatus::PENDING, TaskStatus::RUNNING);
    assert_eq!(TaskStatus::TERMINAL, TaskStatus::TERMINAL);
}

#[test]
fn pool_run_hands_each_task_out_once() {
    let mut w: PoolWorker<u32> = PoolWorker::new(2, 3);
    let mut next = 1u32;
    let mut handed = Vec::new();
    let mut outstanding = 1;
    for round in 0..10 {
        if outstanding > 0 {
            outstanding -= 1;
            if w.on_spawned(Some(next)) {
                outstanding += 1;
            }
            next += 1;
        }
        assert!(outstanding <= 1);
        if round % 2 == 0 && w.accepts_requests() {
            let (t, signal) = w.on_request();
            handed.push(t);
            if signal {
                outstanding += 1;
            }
        }
        if round % 3 == 2 && w.running_count() > w.idle_count() {
            if w.on_drop() {
                outstanding += 1;
            }
        }
        assert!(outstanding <= 1);
        assert!(w.idle_count() <= 2 && w.running_count() <= 3);
    }
    let mut sorted = handed.clone();
    sorted.sort();
    sorted.dedup();
    assert_eq!(sorted.len(), handed.len());
}
