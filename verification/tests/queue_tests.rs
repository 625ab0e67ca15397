use chall_gate::queue::ChallQueue;

#[test]
fn queue_admits_until_full_then_lines_up() {
    let mut q = ChallQueue::new(2);
    assert_eq!(q.queue_in(1), None);
    assert_eq!(q.queue_in(2), None);
    assert_eq!(q.working(), 2);
    assert_eq!(q.queue_in(3), Some(1));
    assert_eq!(q.queue_in(4), Some(2));
    assert_eq!(q.queue_in(5), Some(3));
    assert_eq!(q.waiting(), 3);
    assert_eq!(q.working(), 2);
}

#[test]
fn queue_out_hands_slot_to_oldest_and_renumbers() {
    let mut q = ChallQueue::new(1);
    assert_eq!(q.queue_in(10), None);
    assert_eq!(q.queue_in(11), Some(1));
    assert_eq!(q.queue_in(12), Some(2));
    assert_eq!(q.queue_in(13), Some(3));
    let notices = q.queue_out();
    assert_eq!(notices, vec![(11, 0), (12, 1), (13, 2)]);
    assert_eq!(q.working(), 1);
    assert_eq!(q.waiting(), 2);
    let notices = q.queue_out();
    assert_eq!(notices, vec![(12, 0), (13, 1)]);
}

#[test]
fn queue_out_frees_slot_when_nobody_waits() {
    let mut q = ChallQueue::new(3);
    q.queue_in(1);
    q.queue_in(2);
    let notices = q.queue_out();
    assert!(notices.is_empty());
    assert_eq!(q.working(), 1);
    assert_eq!(q.waiting(), 0);
}

#[test]
fn queue_round_trip_restores_state() {
    // with a free slot
    let mut q = ChallQueue::new(2);
    q.queue_in(1);
    assert_eq!(q.queue_in(2), None);
    assert!(q.queue_out().is_empty());
    assert_eq!((q.working(), q.waiting()), (1, 0));
    // when full: the newcomer waits and is the one told its turn has come
    let mut q = ChallQueue::new(1);
    q.queue_in(1);
    assert_eq!(q.queue_in(2), Some(1));
    assert_eq!(q.queue_out(), vec![(2, 0)]);
    assert_eq!((q.working(), q.waiting()), (1, 0));
}

#[test]
fn queue_can_queue_out_only_when_occupied() {
    let mut q = ChallQueue::new(1);
    assert!(!q.can_queue_out());
    q.queue_in(7);
    assert!(q.can_queue_out());
    q.queue_out();
    assert!(!q.can_queue_out());
}

#[test]
fn queue_with_no_slots_lines_everyone_up() {
    let mut q = ChallQueue::new(0);
    assert_eq!(q.queue_in(1), Some(1));
    assert_eq!(q.queue_in(2), Some(2));
    assert_eq!(q.working(), 0);
    assert_eq!(q.queue_out(), vec![(1, 0), (2, 1)]);
}

#[test]
fn queue_occupancy_changes_by_one() {
    let mut q = ChallQueue::new(2);
    for i in 0..5u64 {
        let before = q.working() + q.waiting();
        q.queue_in(i);
        assert_eq!(q.working() + q.waiting(), before + 1);
    }
    for _ in 0..5 {
        let before = q.working() + q.waiting();
        q.queue_out();
        assert_eq!(q.working() + q.waiting() + 1, before);
    }
}

#[test]
fn queue_run_counts_and_service_order() {
    let mut q = ChallQueue::new(2);
    let mut told_zero = Vec::new();
    for w in 1..=6u64 {
        q.queue_in(w);
    }
    // six requests, two slots: two work, four wait
    assert_eq!((q.working(), q.waiting()), (2, 4));
    for _ in 0..3 {
        for (w, word) in q.queue_out() {
            if word == 0 {
                told_zero.push(w);
            }
        }
    }
    // three given back: min(3, 2) work, 1 waits; waiters served in join order
    assert_eq!((q.working(), q.waiting()), (2, 1));
    assert_eq!(told_zero, vec![3, 4, 5]);
}
