use std::time::{Duration, UNIX_EPOCH};

use suno_core::clock::{millis_of, seconds_of};

#[test]
fn time_is_cut_to_whole_units() {
    let time = Ok(Duration::new(1_700_000_001, 999_999_999));
    assert_eq!(seconds_of(&time), 1_700_000_001);
    assert_eq!(millis_of(&time), 1_700_000_001_999);
    assert_eq!(seconds_of(&Ok(Duration::MAX)), u64::MAX);
}

#[test]
fn time_before_the_epoch_is_zero() {
    let early = UNIX_EPOCH.duration_since(UNIX_EPOCH + Duration::from_secs(5));
    assert!(early.is_err());
    assert_eq!(seconds_of(&early), 0);
    assert_eq!(millis_of(&early), 0);
}
