use timezoned::schedule::{capped_sum, interval, Refresh, Timer};

const DAY: u64 = 86_400;

#[test]
fn capped_sum_stops_at_the_largest_count() {
    assert_eq!(capped_sum(1, 2), 3);
    assert_eq!(capped_sum(u64::MAX, 0), u64::MAX);
    assert_eq!(capped_sum(u64::MAX - 1, 1), u64::MAX);
    assert_eq!(capped_sum(u64::MAX - 1, 2), u64::MAX);
    assert_eq!(capped_sum(u64::MAX, u64::MAX), u64::MAX);
}

#[test]
fn source_half_a_period_old_is_due_in_half_a_period() {
    let period = 7 * DAY;
    let wall_now = 1_700_000_000;
    let timer = interval(Some(wall_now - period / 2), wall_now, 500, period);
    assert_eq!(timer.period, period);
    assert_eq!(timer.due, 500 + period / 2);
}

#[test]
fn source_two_periods_old_is_due_at_once() {
    let period = 7 * DAY;
    let wall_now = 1_700_000_000;
    let timer = interval(Some(wall_now - 2 * period), wall_now, 500, period);
    assert_eq!(timer.due, 500);
}

#[test]
fn source_exactly_a_period_old_is_due_at_once() {
    let timer = interval(Some(1000), 1000 + DAY, 42, DAY);
    assert_eq!(timer.due, 42);
    let timer = interval(Some(1000), 1000 + DAY - 1, 42, DAY);
    assert_eq!(timer.due, 43);
}

#[test]
fn missing_source_is_due_at_once() {
    let timer = interval(None, 1_700_000_000, 500, 7 * DAY);
    assert_eq!(timer.due, 500);
}

#[test]
fn source_from_the_future_is_due_a_period_after_it() {
    let timer = interval(Some(2000), 1000, 500, DAY);
    assert_eq!(timer.period, DAY);
    assert_eq!(timer.due, 500 + 1000 + DAY);
    let timer = interval(Some(1001), 1000, 0, 10);
    assert_eq!(timer.due, 11);
}

#[test]
fn source_from_the_far_future_stops_at_the_largest_count() {
    let timer = interval(Some(u64::MAX), 1000, 500, DAY);
    assert_eq!(timer.due, u64::MAX);
    let timer = interval(Some(u64::MAX - 5), u64::MAX - 6, 0, u64::MAX);
    assert_eq!(timer.due, u64::MAX);
}

#[test]
fn source_of_any_age_with_no_period_is_due_at_once() {
    assert_eq!(interval(Some(1000), 1000, 500, 0).due, 500);
    assert_eq!(interval(Some(10), 1000, 500, 0).due, 500);
}

#[test]
fn source_from_the_future_with_no_period_is_due_when_its_time_comes() {
    assert_eq!(interval(Some(1500), 1000, 500, 0).due, 1000);
}

#[test]
fn work_that_just_ran_is_due_a_period_later() {
    let timer = interval(Some(1000), 1000, 77, 10);
    assert_eq!(timer.due, 87);
}

#[test]
fn first_due_time_stops_at_the_largest_count() {
    let timer = interval(Some(1000), 1000, u64::MAX - 3, 10);
    assert_eq!(timer.due, u64::MAX);
}

#[test]
fn timer_does_not_fire_before_it_is_due() {
    let mut timer = Timer { period: 10, due: 100 };
    assert!(!timer.fire(0));
    assert!(!timer.fire(99));
    assert_eq!(timer.due, 100);
    assert_eq!(timer.period, 10);
}

#[test]
fn timer_on_time_keeps_its_step() {
    let mut timer = Timer { period: 10, due: 100 };
    assert!(timer.fire(100));
    assert_eq!(timer.due, 110);
    assert!(timer.fire(113));
    assert_eq!(timer.due, 120);
    assert!(!timer.fire(119));
    assert!(timer.fire(120));
    assert_eq!(timer.due, 130);
}

#[test]
fn timer_that_missed_periods_fires_once() {
    let mut timer = Timer { period: 10, due: 100 };
    assert!(timer.fire(157));
    assert_eq!(timer.due, 167);
    assert!(!timer.fire(157));
    assert!(!timer.fire(166));
    assert!(timer.fire(167));
    assert_eq!(timer.due, 177);
}

#[test]
fn timer_a_whole_period_late_counts_from_now() {
    let mut timer = Timer { period: 10, due: 100 };
    assert!(timer.fire(110));
    assert_eq!(timer.due, 120);
}

#[test]
fn timer_stops_at_the_largest_count() {
    let mut timer = Timer { period: 10, due: u64::MAX - 5 };
    assert!(timer.fire(u64::MAX - 5));
    assert_eq!(timer.due, u64::MAX);
}

#[test]
fn refresh_starts_one_job_at_a_time() {
    let mut refresh = Refresh::new(Timer { period: 10, due: 100 }, true);
    assert!(!refresh.running);
    assert_eq!(refresh.wakeup(), Some(100));
    assert!(!refresh.poll(99));
    assert!(refresh.poll(100));
    assert!(refresh.running);
    assert_eq!(refresh.timer.due, 110);
    assert_eq!(refresh.wakeup(), None);
    assert!(!refresh.poll(110));
    assert!(!refresh.poll(500));
    assert_eq!(refresh.timer.due, 110);
    assert!(refresh.running);
}

#[test]
fn refresh_that_ran_long_starts_again_at_once_and_once() {
    let mut refresh = Refresh::new(Timer { period: 10, due: 100 }, true);
    assert!(refresh.poll(100));
    assert!(refresh.job_finished(true));
    assert!(!refresh.running);
    assert_eq!(refresh.wakeup(), Some(110));
    assert!(refresh.poll(145));
    assert_eq!(refresh.timer.due, 155);
    assert!(refresh.job_finished(false) == false);
    assert!(!refresh.poll(145));
    assert!(refresh.poll(155));
}

#[test]
fn refresh_reports_whether_the_job_succeeded() {
    let mut refresh = Refresh::new(Timer { period: 10, due: 0 }, true);
    assert!(!refresh.job_finished(true));
    assert!(refresh.poll(0));
    assert!(!refresh.job_finished(false));
    assert!(!refresh.running);
    assert!(refresh.poll(10));
    assert!(refresh.job_finished(true));
    assert!(!refresh.running);
}

#[test]
fn refresh_that_is_off_never_starts() {
    let mut refresh = Refresh::new(Timer { period: 10, due: 0 }, false);
    assert_eq!(refresh.wakeup(), None);
    for now in [0, 10, 1000, u64::MAX] {
        assert!(!refresh.poll(now));
    }
    assert_eq!(refresh.timer.due, 0);
    assert!(!refresh.running);
}

#[test]
fn refresh_without_a_source_is_off() {
    let timer = Timer { period: 10, due: 0 };
    let mut off = Refresh::from_source(timer, "");
    assert!(!off.enabled && !off.running);
    assert!(!off.poll(100));
    let mut on = Refresh::from_source(timer, "https://example.org/db.tar.gz");
    assert!(on.enabled && !on.running);
    assert_eq!(on.timer.due, 0);
    assert!(on.poll(100));
}
