use mta_core::schedule::{local_retry_delay, QueueConfig, LOCAL_ATTEMPTS, LOCAL_BACKOFF_LIMIT};

fn config(max_age: u64, retry_interval: u64, cap: Option<u64>) -> QueueConfig {
    QueueConfig::new(max_age, retry_interval, cap).unwrap()
}

#[test]
fn a_schedule_needs_delays_of_at_least_a_second() {
    assert!(QueueConfig::new(3600, 0, None).is_none());
    assert!(QueueConfig::new(3600, 60, Some(0)).is_none());
    assert!(QueueConfig::new(0, 1, Some(1)).is_some());
    let c = config(3600, 60, Some(600));
    assert_eq!(c.get_max_age(), 3600);
    assert_eq!(c.get_limit(), 600);
    assert_eq!(config(1, 1, None).get_limit(), u64::MAX);
}

#[test]
fn delays_double_up_to_the_limit() {
    let c = config(3600, 60, None);
    assert_eq!(c.delay_for_attempt(0), 60);
    assert_eq!(c.delay_for_attempt(1), 120);
    assert_eq!(c.delay_for_attempt(2), 240);
    assert_eq!(c.delay_for_attempt(3), 480);
    assert_eq!(c.delay_for_attempt(10), 61440);
    assert_eq!(c.delay_for_attempt(63), u64::MAX);
    assert_eq!(c.delay_for_attempt(u64::MAX), u64::MAX);
    let capped = config(3600, 60, Some(100));
    assert_eq!(capped.delay_for_attempt(0), 60);
    assert_eq!(capped.delay_for_attempt(1), 100);
    assert_eq!(capped.delay_for_attempt(2), 100);
    assert_eq!(capped.delay_for_attempt(u64::MAX), 100);
    let low = config(3600, 60, Some(10));
    assert_eq!(low.delay_for_attempt(0), 10);
}

#[test]
fn cumulative_delay() {
    let c = config(3600, 60, None);
    assert_eq!(c.elapsed_through(0), 0);
    assert_eq!(c.elapsed_through(1), 60);
    assert_eq!(c.elapsed_through(2), 180);
    assert_eq!(c.elapsed_through(5), 1860);
    assert_eq!(c.elapsed_through(200), u64::MAX);
    let capped = config(3600, 60, Some(100));
    assert_eq!(capped.elapsed_through(3), 260);
    assert_eq!(capped.elapsed_through(11), 1060);
    assert_eq!(capped.elapsed_through(1_000_000_001), 60 + 100 * 1_000_000_000);
    assert_eq!(capped.elapsed_through(u64::MAX), u64::MAX);
}

#[test]
fn attempts_are_the_first_to_reach_the_age() {
    let c = config(3600, 60, None);
    assert_eq!(c.infer_num_attempts(0), 0);
    assert_eq!(c.infer_num_attempts(1), 1);
    assert_eq!(c.infer_num_attempts(60), 1);
    assert_eq!(c.infer_num_attempts(61), 2);
    assert_eq!(c.infer_num_attempts(180), 2);
    assert_eq!(c.infer_num_attempts(181), 3);
    assert_eq!(c.infer_num_attempts(1800), 5);
    assert_eq!(c.infer_num_attempts(u64::MAX), 59);
    let capped = config(3600, 60, Some(100));
    assert_eq!(capped.infer_num_attempts(1000), 11);
    assert_eq!(capped.infer_num_attempts(960), 10);
    assert_eq!(capped.infer_num_attempts(961), 11);
    assert_eq!(capped.infer_num_attempts(1060), 11);
    assert_eq!(capped.infer_num_attempts(1061), 12);
    let every_second = config(3600, 1, Some(1));
    assert_eq!(every_second.infer_num_attempts(1_000_000_000_000), 1_000_000_000_000);
    assert_eq!(every_second.infer_num_attempts(u64::MAX), u64::MAX);
    // the inferred number is the first whose cumulative delay reaches the age
    for age in [0u64, 1, 59, 60, 61, 500, 1859, 1860, 1861, 100_000] {
        let n = c.infer_num_attempts(age);
        assert!(c.elapsed_through(n) >= age);
        if n > 0 {
            assert!(c.elapsed_through(n - 1) < age);
        }
    }
}

#[test]
fn a_message_expires_at_the_maximum_age() {
    let c = config(3600, 60, None);
    assert_eq!(c.compute_delay_based_on_age(0, 3600), None);
    assert_eq!(c.compute_delay_based_on_age(0, 7200), None);
    assert_eq!(c.compute_delay_based_on_age(100, 3600), None);
    assert_eq!(c.compute_delay_based_on_age(0, 3599), Some(0));
    assert_eq!(c.compute_delay_based_on_age(0, 0), Some(0));
}

#[test]
fn the_delay_is_what_is_left_of_the_schedule() {
    let c = config(3600, 60, None);
    assert_eq!(c.compute_delay_based_on_age(5, 1800), Some(60));
    assert_eq!(c.compute_delay_based_on_age(1, 0), Some(60));
    assert_eq!(c.compute_delay_based_on_age(1, 10), Some(50));
    assert_eq!(c.compute_delay_based_on_age(1, 60), Some(0));
    assert_eq!(c.compute_delay_based_on_age(1, 61), Some(0));
    assert_eq!(c.compute_delay_based_on_age(2, 61), Some(119));
    assert_eq!(c.compute_delay_based_on_age(200, 100), Some(u64::MAX - 100));
}

#[test]
fn a_local_failure_is_retried_twice_with_a_capped_backoff() {
    assert_eq!(LOCAL_ATTEMPTS, 3);
    assert_eq!(LOCAL_BACKOFF_LIMIT, 2000);
    assert_eq!(local_retry_delay(500, 0), Some(500));
    assert_eq!(local_retry_delay(500, 1), Some(1000));
    assert_eq!(local_retry_delay(500, 2), None);
    assert_eq!(local_retry_delay(500, u64::MAX), None);
    assert_eq!(local_retry_delay(1500, 0), Some(1500));
    assert_eq!(local_retry_delay(1500, 1), Some(2000));
    assert_eq!(local_retry_delay(5000, 0), Some(2000));
    assert_eq!(local_retry_delay(0, 1), Some(0));
    assert_eq!(local_retry_delay(u64::MAX, 1), Some(2000));
}
