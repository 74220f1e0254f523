use ferres_db_core::time::{duration_or, millis_or_zero, secs_or_zero, unix_duration, unix_now, unix_now_millis};
use std::time::Duration;

#[test]
fn clock_before_the_epoch_reads_as_zero() {
    assert_eq!(secs_or_zero(None), 0);
    assert_eq!(secs_or_zero(Some(1_700_000_000)), 1_700_000_000);
    assert_eq!(millis_or_zero(None), 0);
    assert_eq!(millis_or_zero(Some(5)), 5);
    assert_eq!(duration_or(None, Duration::ZERO), Duration::ZERO);
    assert_eq!(duration_or(Some(Duration::from_secs(3)), Duration::ZERO), Duration::from_secs(3));
}

#[test]
fn clock_after_the_epoch_is_positive() {
    assert!(unix_now() > 0);
    assert!(unix_now_millis() > 0);
    assert!(unix_duration() > Duration::ZERO);
}
