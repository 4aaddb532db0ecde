use timezoned::tracker::{recent, ClientIp, ClientTracker};

const A: ClientIp = ClientIp::V4(0xC0A8_0001);
const B: ClientIp = ClientIp::V4(0xC0A8_0002);
const A6: ClientIp = ClientIp::V6(0xC0A8_0001);

#[test]
fn recent_is_younger_than_the_window() {
    assert!(recent(100, 100, 10));
    assert!(recent(100, 109, 10));
    assert!(!recent(100, 110, 10));
    assert!(!recent(100, 500, 10));
    assert!(recent(100, 50, 10));
    assert!(!recent(100, 100, 0));
    assert!(!recent(100, 50, 0));
    assert!(recent(0, u64::MAX - 1, u64::MAX));
    assert!(!recent(0, u64::MAX, u64::MAX));
}

#[test]
fn first_request_is_accepted_and_recorded() {
    let mut t = ClientTracker::new(3000);
    assert_eq!(t.rate_limit(), 3000);
    assert_eq!(t.last_seen(A), None);
    assert!(t.should_accept(A, 1000));
    assert_eq!(t.last_seen(A), Some(1000));
    assert_eq!(t.last_seen(B), None);
}

#[test]
fn second_request_inside_the_window_is_turned_away() {
    let mut t = ClientTracker::new(3000);
    assert!(t.should_accept(A, 1000));
    assert!(!t.should_accept(A, 2500));
    assert_eq!(t.last_seen(A), Some(1000));
    assert!(!t.should_accept(A, 3999));
    assert_eq!(t.last_seen(A), Some(1000));
}

#[test]
fn request_after_the_window_is_accepted() {
    let mut t = ClientTracker::new(3000);
    assert!(t.should_accept(A, 1000));
    assert!(t.should_accept(A, 4001));
    assert_eq!(t.last_seen(A), Some(4001));
    assert!(!t.should_accept(A, 4002));
}

#[test]
fn request_at_the_end_of_the_window_is_accepted() {
    let mut t = ClientTracker::new(3000);
    assert!(t.should_accept(A, 1000));
    assert!(t.should_accept(A, 4000));
    assert_eq!(t.last_seen(A), Some(4000));
}

#[test]
fn turned_away_requests_do_not_move_the_window() {
    let mut t = ClientTracker::new(100);
    assert!(t.should_accept(A, 0));
    for now in [10, 30, 50, 70, 90, 99] {
        assert!(!t.should_accept(A, now));
    }
    assert!(t.should_accept(A, 100));
}

#[test]
fn clients_are_limited_one_by_one() {
    let mut t = ClientTracker::new(3000);
    assert!(t.should_accept(A, 1000));
    assert!(t.should_accept(B, 1001));
    assert!(t.should_accept(A6, 1002));
    assert!(!t.should_accept(A, 1003));
    assert!(!t.should_accept(B, 1003));
    assert!(!t.should_accept(A6, 1003));
    assert_eq!(t.last_seen(A), Some(1000));
    assert_eq!(t.last_seen(A6), Some(1002));
}

#[test]
fn window_of_nothing_limits_nobody() {
    let mut t = ClientTracker::new(0);
    assert!(t.should_accept(A, 5));
    assert!(t.should_accept(A, 5));
    assert!(t.should_accept(A, 4));
}

#[test]
fn clock_that_ran_backwards_counts_as_no_time_passed() {
    let mut t = ClientTracker::new(10);
    assert!(t.should_accept(A, 100));
    assert!(!t.should_accept(A, 50));
    assert_eq!(t.last_seen(A), Some(100));
}

#[test]
fn prune_drops_what_is_as_old_as_the_window() {
    let mut t = ClientTracker::new(3000);
    assert!(t.should_accept(A, 1000));
    assert!(t.should_accept(B, 2000));
    assert!(t.should_accept(A6, 1000));
    t.prune(4000);
    assert_eq!(t.last_seen(A), None);
    assert_eq!(t.last_seen(A6), None);
    assert_eq!(t.last_seen(B), Some(2000));
    t.prune(4999);
    assert_eq!(t.last_seen(B), Some(2000));
    t.prune(5000);
    assert_eq!(t.last_seen(B), None);
}

#[test]
fn pruned_client_is_accepted_as_new() {
    let mut t = ClientTracker::new(3000);
    assert!(t.should_accept(A, 1000));
    t.prune(10_000);
    assert_eq!(t.last_seen(A), None);
    assert!(t.should_accept(A, 10_000));
    assert_eq!(t.last_seen(A), Some(10_000));
}

#[test]
fn prune_keeps_many_and_drops_many() {
    let mut t = ClientTracker::new(100);
    for i in 0..200u32 {
        assert!(t.should_accept(ClientIp::V4(i), i as u64));
        assert!(t.should_accept(ClientIp::V6(i as u128), i as u64));
    }
    t.prune(250);
    for i in 0..200u32 {
        let want = if 250 - (i as u64) < 100 { Some(i as u64) } else { None };
        assert_eq!(t.last_seen(ClientIp::V4(i)), want);
        assert_eq!(t.last_seen(ClientIp::V6(i as u128)), want);
    }
}

#[test]
fn prune_with_a_window_of_nothing_drops_all() {
    let mut t = ClientTracker::new(0);
    assert!(t.should_accept(A, 7));
    t.prune(7);
    assert_eq!(t.last_seen(A), None);
}
