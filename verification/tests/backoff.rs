use keel::backoff::BackoffState;

const START: u64 = 5_000_000_000_000;

fn secs(n: u64) -> u64 {
    n * 1_000_000_000
}

fn millis(n: u64) -> u64 {
    n * 1_000_000
}

#[test]
fn fresh_state_can_retry_immediately() {
    let state = BackoffState::new();
    assert!(state.can_retry(START));
}

#[test]
fn cannot_retry_until_delay_passes() {
    let mut state = BackoffState::new();
    let t0 = START;
    state.record_attempt(t0);
    assert!(!state.can_retry(t0));
    assert!(!state.can_retry(t0 + millis(500)));
    assert!(state.can_retry(t0 + secs(1)));
}

#[test]
fn backoff_escalates_on_rapid_repeated_failures() {
    let mut state = BackoffState::new();
    let t0 = START;
    state.record_attempt(t0); // next_retry_at = t0 + 1s, current_delay becomes 2s
    let t1 = t0 + secs(1);
    state.record_attempt(t1); // next_retry_at = t1 + 2s, current_delay becomes 4s
    assert!(!state.can_retry(t1 + secs(1)));
    assert!(state.can_retry(t1 + secs(2)));
}

#[test]
fn backoff_resets_after_confirmed_running_uptime() {
    let mut state = BackoffState::new();
    let t0 = START;
    state.record_attempt(t0); // current_delay becomes 2s after this

    // The jail is actually observed running (reconcile_one's "exists &&
    // running" happy path) continuously for 60+ seconds since the
    // attempt above -- the only genuine signal of real uptime.
    let t1 = t0 + secs(61);
    state.note_running(t1);

    // It then crashes again: the escalated delay must have been reset
    // by the confirmed uptime, not still be climbing from the earlier
    // failure.
    state.record_attempt(t1); // should reset to 1s (not escalate to 4s) before doubling to 2s
    assert!(!state.can_retry(t1 + millis(500)));
    assert!(state.can_retry(t1 + secs(1)));
}

#[test]
fn note_running_before_sixty_seconds_of_uptime_does_not_reset_the_escalation() {
    let mut state = BackoffState::new();
    let t0 = START;
    state.record_attempt(t0); // current_delay becomes 2s after this
    state.record_attempt(t0 + secs(1)); // current_delay becomes 4s

    // Only 30s of confirmed uptime -- must not reset yet.
    state.note_running(t0 + secs(31));
    state.record_attempt(t0 + secs(31));
    assert!(!state.can_retry(t0 + secs(31) + secs(3)));
    assert!(state.can_retry(t0 + secs(31) + secs(4)));
}

#[test]
fn backoff_escalates_to_the_cap_under_a_realistic_retry_cadence_without_spuriously_resetting() {
    // Reproduces a real bug: a reconciler never retries before its own
    // armed cooldown, so the gap between successive `record_attempt`
    // calls is mechanically >= the delay just armed. If `record_attempt`
    // itself treated "long gap since the last attempt" as proof of
    // stable uptime (rather than requiring an explicit `note_running`
    // observation), escalation would never survive past ~60s of delay --
    // oscillating between short delays forever instead of ever reaching
    // the 5-minute cap, for a jail that never actually ran successfully
    // even once.
    let mut state = BackoffState::new();
    let mut now = START;
    for _ in 0..12 {
        let delay = state.status(now).current_delay_secs.unwrap_or(1);
        now += secs(delay);
        state.record_attempt(now);
    }
    assert!(!state.can_retry(now + secs(299)));
    assert!(state.can_retry(now + secs(300)));
}

#[test]
fn backoff_caps_at_five_minutes() {
    let mut state = BackoffState::new();
    let mut now = START;
    for _ in 0..20 {
        now += secs(1); // always retrying immediately, never resetting
        state.record_attempt(now);
    }
    // After enough rapid escalations, the delay should be capped at 300s.
    assert!(!state.can_retry(now + secs(299)));
    assert!(state.can_retry(now + secs(300)));
}

#[test]
fn status_reports_no_cooldown_for_a_fresh_state() {
    let state = BackoffState::new();
    let status = state.status(START);
    assert_eq!(status.retry_in_secs, None);
    assert_eq!(status.current_delay_secs, None);
}

#[test]
fn status_reports_retry_in_secs_and_current_delay_after_an_attempt() {
    let mut state = BackoffState::new();
    let t0 = START;
    state.record_attempt(t0); // next_retry_at = t0 + 1s, current_delay becomes 2s

    let status = state.status(t0);
    assert_eq!(status.retry_in_secs, Some(1));
    assert_eq!(status.current_delay_secs, Some(2));

    let later = state.status(t0 + millis(500));
    assert_eq!(
        later.retry_in_secs,
        Some(0),
        "500ms remaining rounds down to 0 whole seconds"
    );
}
