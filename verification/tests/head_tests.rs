use chain_indexer::head::{
    BackoffPolicy, ChainHead, ChainHeadTracker, HeadWait, Recovery, TrackerStatus,
};

fn policy(max_attempts: Option<u32>) -> BackoffPolicy {
    BackoffPolicy { base_ms: 100, cap_ms: 1500, max_attempts }
}

#[test]
fn head_is_the_largest_number_announced() {
    let mut tracker = ChainHeadTracker::start(105, policy(None));
    assert_eq!(tracker.current(), 105);
    assert!(tracker.observe(106));
    assert_eq!(tracker.current(), 106);
    assert!(!tracker.observe(106));
    assert!(!tracker.observe(90));
    assert_eq!(tracker.current(), 106);
    assert!(tracker.observe(200));
    assert_eq!(tracker.current(), 200);
}

#[test]
fn wait_returns_at_once_when_the_head_is_beyond() {
    let tracker = ChainHeadTracker::start(105, policy(None));
    assert_eq!(tracker.wait_for_advance(104), HeadWait::Ready(105));
    assert_eq!(tracker.wait_for_advance(0), HeadWait::Ready(105));
    // asking again gives the same answer
    assert_eq!(tracker.wait_for_advance(104), HeadWait::Ready(105));
}

#[test]
fn wait_is_pending_until_the_head_strictly_exceeds() {
    let mut tracker = ChainHeadTracker::start(105, policy(None));
    assert_eq!(tracker.wait_for_advance(105), HeadWait::Pending);
    assert_eq!(tracker.wait_for_advance(300), HeadWait::Pending);
    tracker.observe(105);
    assert_eq!(tracker.wait_for_advance(105), HeadWait::Pending);
    tracker.observe(106);
    assert_eq!(tracker.wait_for_advance(105), HeadWait::Ready(106));
}

#[test]
fn backoff_doubles_up_to_the_cap() {
    let p = policy(None);
    assert_eq!(p.delay_ms(0), 100);
    assert_eq!(p.delay_ms(1), 200);
    assert_eq!(p.delay_ms(2), 400);
    assert_eq!(p.delay_ms(3), 800);
    assert_eq!(p.delay_ms(4), 1500);
    assert_eq!(p.delay_ms(5), 1500);
    assert_eq!(p.delay_ms(64), 1500);
    assert_eq!(p.delay_ms(u32::MAX), 1500);
}

#[test]
fn backoff_edge_cases() {
    let zero = BackoffPolicy { base_ms: 0, cap_ms: 1000, max_attempts: None };
    assert_eq!(zero.delay_ms(0), 0);
    assert_eq!(zero.delay_ms(40), 0);
    let above = BackoffPolicy { base_ms: 5000, cap_ms: 1000, max_attempts: None };
    assert_eq!(above.delay_ms(0), 1000);
    assert_eq!(above.delay_ms(3), 1000);
    let wide = BackoffPolicy { base_ms: 1, cap_ms: u64::MAX, max_attempts: None };
    assert_eq!(wide.delay_ms(63), 1u64 << 63);
    assert_eq!(wide.delay_ms(64), u64::MAX);
    let exact = BackoffPolicy { base_ms: 3, cap_ms: 12, max_attempts: None };
    assert_eq!(exact.delay_ms(2), 12);
    assert_eq!(exact.delay_ms(1), 6);
}

#[test]
fn attempts_are_bounded_by_the_policy() {
    let bounded = policy(Some(3));
    assert!(bounded.permits(0));
    assert!(bounded.permits(2));
    assert!(!bounded.permits(3));
    assert!(!bounded.permits(u32::MAX));
    let unbounded = policy(None);
    assert!(unbounded.permits(u32::MAX));
    assert!(!policy(Some(0)).permits(0));
}

#[test]
fn lost_stream_is_restored_with_backoff() {
    let mut tracker = ChainHeadTracker::start(10, policy(Some(3)));
    assert_eq!(tracker.status(), TrackerStatus::Live);
    assert_eq!(tracker.stream_lost(), Recovery::Reconnect { delay_ms: 100 });
    assert_eq!(tracker.status(), TrackerStatus::Reconnecting { failures: 1 });
    assert_eq!(tracker.stream_lost(), Recovery::Reconnect { delay_ms: 200 });
    assert_eq!(tracker.stream_lost(), Recovery::Reconnect { delay_ms: 400 });
    assert_eq!(tracker.status(), TrackerStatus::Reconnecting { failures: 3 });
    // a waiter still waits while attempts are left
    assert_eq!(tracker.wait_for_advance(10), HeadWait::Pending);
    assert_eq!(tracker.stream_lost(), Recovery::GiveUp);
    assert_eq!(tracker.status(), TrackerStatus::Failed);
    assert_eq!(tracker.wait_for_advance(10), HeadWait::Failed);
    // the head that was known stays known
    assert_eq!(tracker.wait_for_advance(9), HeadWait::Ready(10));
    assert_eq!(tracker.current(), 10);
}

#[test]
fn resubscription_resets_the_attempts() {
    let mut tracker = ChainHeadTracker::start(10, policy(Some(2)));
    assert_eq!(tracker.stream_lost(), Recovery::Reconnect { delay_ms: 100 });
    assert_eq!(tracker.stream_lost(), Recovery::Reconnect { delay_ms: 200 });
    tracker.resubscribed();
    assert_eq!(tracker.status(), TrackerStatus::Live);
    assert_eq!(tracker.stream_lost(), Recovery::Reconnect { delay_ms: 100 });
    // an announcement shows that the stream is up, too
    assert!(tracker.observe(11));
    assert_eq!(tracker.status(), TrackerStatus::Live);
    assert_eq!(tracker.stream_lost(), Recovery::Reconnect { delay_ms: 100 });
}

#[test]
fn failed_tracker_never_changes() {
    let mut tracker = ChainHeadTracker::start(10, policy(Some(0)));
    assert_eq!(tracker.stream_lost(), Recovery::GiveUp);
    assert!(!tracker.observe(50));
    assert_eq!(tracker.current(), 10);
    tracker.resubscribed();
    assert_eq!(tracker.status(), TrackerStatus::Failed);
    assert_eq!(tracker.stream_lost(), Recovery::GiveUp);
}

#[test]
fn unbounded_policy_never_gives_up() {
    let mut tracker = ChainHeadTracker::start(10, policy(None));
    for _ in 0..50 {
        assert!(matches!(tracker.stream_lost(), Recovery::Reconnect { .. }));
    }
    assert_eq!(tracker.stream_lost(), Recovery::Reconnect { delay_ms: 1500 });
    assert_eq!(tracker.status(), TrackerStatus::Reconnecting { failures: 51 });
}

#[test]
fn chain_head_is_a_plain_number() {
    let head = ChainHead { number: 7 };
    assert_eq!(head, ChainHead { number: 7 });
    assert_eq!(head.number, 7);
}
