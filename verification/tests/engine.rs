use optics_bench::scheduler::Scheduler;

#[test]
fn an_idle_worker_starts_at_once() {
    let mut s: Scheduler<u32> = Scheduler::new();
    assert!(!s.busy());
    assert_eq!(s.request(7), Some(7));
    assert!(s.busy());
}

#[test]
fn a_repeated_request_is_dropped() {
    let mut s: Scheduler<u32> = Scheduler::new();
    assert_eq!(s.request(7), Some(7));
    assert_eq!(s.request(7), None);
    assert_eq!(s.finished(), None);
    assert!(!s.busy());
    // the last computation had these parameters: nothing to do
    assert_eq!(s.request(7), None);
    assert!(!s.busy());
    assert_eq!(s.request(8), Some(8));
}

#[test]
fn only_the_newest_request_is_worked_on() {
    let mut s: Scheduler<u32> = Scheduler::new();
    assert_eq!(s.request(1), Some(1));
    assert_eq!(s.request(2), None);
    assert_eq!(s.request(3), None);
    assert_eq!(s.request(3), None);
    assert!(s.busy());
    assert_eq!(s.finished(), Some(3));
    assert!(s.busy());
    assert_eq!(s.finished(), None);
    assert!(!s.busy());
}

#[test]
fn a_request_equal_to_the_running_one_drops_the_waiting_one() {
    let mut s: Scheduler<u32> = Scheduler::new();
    assert_eq!(s.request(1), Some(1));
    assert_eq!(s.request(2), None);
    // back to the parameters being computed: they are the newest again
    assert_eq!(s.request(1), None);
    assert!(s.busy());
    assert_eq!(s.finished(), None);
    assert!(!s.busy());
}

#[test]
fn a_request_equal_to_the_queued_one_changes_nothing() {
    let mut s: Scheduler<(u32, bool)> = Scheduler::new();
    assert_eq!(s.request((1, true)), Some((1, true)));
    assert_eq!(s.request((2, false)), None);
    assert_eq!(s.request((2, false)), None);
    assert_eq!(s.finished(), Some((2, false)));
    assert_eq!(s.finished(), None);
}

#[test]
fn a_waiting_request_after_a_repeat_of_the_running_one_is_sent() {
    let mut s: Scheduler<u32> = Scheduler::new();
    assert_eq!(s.request(1), Some(1));
    assert_eq!(s.request(2), None);
    assert_eq!(s.request(1), None);
    assert_eq!(s.request(3), None);
    assert_eq!(s.finished(), Some(3));
}

#[test]
fn compared_requests_follow_the_comparisons_given() {
    let mut s: Scheduler<u32> = Scheduler::new();
    assert_eq!(s.request_compared(5, false, false), Some(5));
    assert_eq!(s.request_compared(6, false, false), None);
    // told that it equals the running computation: the waiting one is dropped
    assert_eq!(s.request_compared(9, true, false), None);
    assert_eq!(s.finished(), None);
    // told that it equals the last result: an idle worker does nothing
    assert_eq!(s.request_compared(9, true, false), None);
    assert!(!s.busy());
}

#[test]
fn many_requests_while_busy_leave_only_the_newest() {
    let mut s: Scheduler<u64> = Scheduler::new();
    assert_eq!(s.request(0), Some(0));
    for p in 1..100u64 {
        assert_eq!(s.request(p), None);
    }
    assert_eq!(s.finished(), Some(99));
    assert_eq!(s.finished(), None);
    assert!(!s.busy());
}
