use kenkoterminal::tunnel::{
    backoff_delay, backoff_delay_jittered, backoff_delay_secs, enabled_default, forward_mode,
    health_interval_secs, keep_serving,
    jitter_cap_millis, jittered_delay_millis, local_host_default, mode_default, next_attempt,
    ForwardMode,
};
use std::time::Duration;

#[test]
fn backoff_is_capped_and_monotonic() {
    assert_eq!(backoff_delay(0), Duration::from_secs(1));
    assert_eq!(backoff_delay(1), Duration::from_secs(2));
    assert_eq!(backoff_delay(3), Duration::from_secs(8));
    assert!(backoff_delay(50) <= Duration::from_secs(30));
}

#[test]
fn backoff_sequence() {
    let secs: Vec<u64> = (0..8).map(backoff_delay_secs).collect();
    assert_eq!(secs, vec![1, 2, 4, 8, 16, 30, 30, 30]);
    assert_eq!(backoff_delay_secs(u32::MAX), 30);
}

#[test]
fn jitter_stays_within_a_quarter() {
    assert_eq!(jitter_cap_millis(0), 250);
    assert_eq!(jitter_cap_millis(9), 7500);
    assert_eq!(jittered_delay_millis(2, 100), 4100);
    for attempt in 0..10 {
        let d = backoff_delay_jittered(attempt);
        let base = backoff_delay(attempt);
        assert!(d >= base);
        assert!(d <= base + Duration::from_millis(jitter_cap_millis(attempt)));
    }
}

#[test]
fn attempts_reset_on_clean_disconnect() {
    assert_eq!(next_attempt(7, true), 0);
    assert_eq!(next_attempt(7, false), 8);
    assert_eq!(next_attempt(u32::MAX, false), u32::MAX);
}

#[test]
fn rule_defaults_and_modes() {
    assert_eq!(local_host_default(), "127.0.0.1");
    assert!(enabled_default());
    assert_eq!(mode_default(), "local");
    assert!(forward_mode("remote") == ForwardMode::Remote);
    assert!(forward_mode("dynamic") == ForwardMode::Dynamic);
    assert!(forward_mode("local") == ForwardMode::Local);
    assert!(forward_mode("Remote") == ForwardMode::Local);
}

#[test]
fn health_probe_policy() {
    assert_eq!(health_interval_secs(), 15);
    assert!(keep_serving(true));
    assert!(!keep_serving(false));
}
