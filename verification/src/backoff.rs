//! How long an agent waits before it acts on a failing jail again.
//!
//! Times are nanoseconds on a clock that only moves forward.

use vstd::arithmetic::power2::{lemma2_to64, lemma_pow2_strictly_increases, lemma_pow2_unfold, pow2};
use vstd::prelude::*;

verus! {

pub const NANOS_PER_SEC: u64 = 1_000_000_000;

/// The first delay: one second.
pub const INITIAL_DELAY: u64 = 1_000_000_000;

/// The longest delay: five minutes.
pub const MAX_DELAY: u64 = 300_000_000_000;

/// How long a jail must have been up for the delay to start over: a minute.
pub const RESET_UPTIME_THRESHOLD: u64 = 60_000_000_000;

/// What the cooldown of a jail looks like from outside, in whole seconds.
#[derive(Debug, Clone, Copy, PartialEq, Eq)]
pub struct BackoffStatus {
    pub retry_in_secs: Option<u64>,
    pub current_delay_secs: Option<u64>,
}

impl Default for BackoffStatus {
    fn default() -> (r: Self)
        ensures
            r.retry_in_secs is None,
            r.current_delay_secs is None,
    {
        BackoffStatus { retry_in_secs: None, current_delay_secs: None }
    }
}

/// The cooldown of one jail.
#[derive(Debug, Clone)]
pub struct BackoffState {
    current_delay: u64,
    next_retry_at: Option<u64>,
    last_started_at: Option<u64>,
}

/// What a [`BackoffState`] holds.
pub struct BackoffView {
    /// The delay that the next attempt will arm.
    pub delay: int,
    pub next_retry_at: Option<u64>,
    pub last_started_at: Option<u64>,
}

impl View for BackoffState {
    type V = BackoffView;

    closed spec fn view(&self) -> BackoffView {
        BackoffView {
            delay: self.current_delay as int,
            next_retry_at: self.next_retry_at,
            last_started_at: self.last_started_at,
        }
    }
}

impl BackoffView {
    /// A jail on which nothing was attempted yet.
    pub open spec fn fresh() -> BackoffView {
        BackoffView { delay: INITIAL_DELAY as int, next_retry_at: None, last_started_at: None }
    }

    /// Whether an attempt may be made.
    pub open spec fn can_retry(self, now: u64) -> bool {
        self.next_retry_at matches Some(t) ==> now >= t
    }

    /// An attempt arms the current delay, and doubles it up to the longest.
    pub open spec fn attempted(self, now: u64) -> BackoffView {
        BackoffView {
            delay: if 2 * self.delay <= MAX_DELAY {
                2 * self.delay
            } else {
                MAX_DELAY as int
            },
            next_retry_at: Some((now + self.delay) as u64),
            last_started_at: Some(now),
        }
    }

    /// Enough uptime since the last attempt starts the delay over.
    pub open spec fn seen_running(self, now: u64) -> BackoffView {
        if self.last_started_at matches Some(last) && now - last >= RESET_UPTIME_THRESHOLD {
            BackoffView { delay: INITIAL_DELAY as int, ..self }
        } else {
            self
        }
    }

    /// The state after attempts at the given times, with no uptime seen between them.
    pub open spec fn attempted_at(self, times: Seq<u64>) -> BackoffView
        decreases times.len(),
    {
        if times.len() == 0 {
            self
        } else {
            self.attempted_at(times.drop_last()).attempted(times.last())
        }
    }
}

impl Default for BackoffState {
    fn default() -> (r: Self)
        ensures
            r.wf(),
            r@ == BackoffView::fresh(),
    {
        BackoffState { current_delay: INITIAL_DELAY, next_retry_at: None, last_started_at: None }
    }
}

impl BackoffState {
    /// The delay is never below the first nor above the longest one.
    pub open spec fn wf(&self) -> bool {
        INITIAL_DELAY <= self@.delay <= MAX_DELAY
    }

    pub fn new() -> (r: Self)
        ensures
            r.wf(),
            r@ == BackoffView::fresh(),
    {
        Self::default()
    }

    /// True if there is no active cooldown, or the cooldown has passed.
    pub fn can_retry(&self, now: u64) -> (r: bool)
        ensures
            r == self@.can_retry(now),
    {
        match self.next_retry_at {
            Some(t) => now >= t,
            None => true,
        }
    }

    /// Records that an action was taken for this jail, whether or not it succeeded: a successful
    /// start says nothing about whether the process keeps running, so the cooldown is armed anyway.
    pub fn record_attempt(&mut self, now: u64)
        requires
            old(self).wf(),
            now + old(self)@.delay <= u64::MAX,
        ensures
            final(self).wf(),
            final(self)@ == old(self)@.attempted(now),
    {
        self.last_started_at = Some(now);
        self.next_retry_at = Some(now + self.current_delay);
        let doubled: u64 = self.current_delay * 2;
        self.current_delay = if doubled <= MAX_DELAY {
            doubled
        } else {
            MAX_DELAY
        };
    }

    /// Records that the jail was observed running. Once it has been up for
    /// [`RESET_UPTIME_THRESHOLD`] since the last attempt, the delay starts over.
    pub fn note_running(&mut self, now: u64)
        requires
            old(self).wf(),
        ensures
            final(self).wf(),
            final(self)@ == old(self)@.seen_running(now),
    {
        if let Some(last) = self.last_started_at {
            if now.saturating_sub(last) >= RESET_UPTIME_THRESHOLD {
                self.current_delay = INITIAL_DELAY;
            }
        }
    }

    /// The cooldown in whole seconds relative to `now`.
    pub fn status(&self, now: u64) -> (r: BackoffStatus)
        ensures
            self@.next_retry_at is None ==> r.retry_in_secs is None && r.current_delay_secs is None,
            self@.next_retry_at matches Some(next) ==> {
                &&& r.retry_in_secs == Some(
                    (if next > now {
                        (next - now) / NANOS_PER_SEC as int
                    } else {
                        0
                    }) as u64,
                )
                &&& r.current_delay_secs == Some((self@.delay / NANOS_PER_SEC as int) as u64)
            },
    {
        match self.next_retry_at {
            Some(next) => BackoffStatus {
                retry_in_secs: Some(next.saturating_sub(now) / NANOS_PER_SEC),
                current_delay_secs: Some(self.current_delay / NANOS_PER_SEC),
            },
            None => BackoffStatus::default(),
        }
    }
}

/// The delay after `n` attempts on a fresh state: one second doubled `n` times, at most five minutes.
pub open spec fn escalated(n: nat) -> int {
    if pow2(n) * INITIAL_DELAY <= MAX_DELAY {
        pow2(n) * INITIAL_DELAY
    } else {
        MAX_DELAY as int
    }
}

/// Without uptime seen in between, the delay depends on the number of attempts alone, whatever
/// the gaps between them: a long gap is no proof of uptime.
pub proof fn law_escalation(times: Seq<u64>)
    ensures
        BackoffView::fresh().attempted_at(times).delay == escalated(times.len()),
    decreases times.len(),
{
    lemma2_to64();
    if times.len() > 0 {
        law_escalation(times.drop_last());
        lemma_pow2_unfold(times.len());
        assert(pow2(times.len()) * INITIAL_DELAY == 2 * (pow2((times.len() - 1) as nat) * INITIAL_DELAY))
            by (nonlinear_arith)
            requires
                pow2(times.len()) == 2 * pow2((times.len() - 1) as nat),
        ;
    }
}

/// From the ninth attempt on, every further attempt arms the longest delay, until uptime is seen.
pub proof fn law_escalation_reaches_the_cap(times: Seq<u64>, now: u64)
    requires
        times.len() >= 9,
        now + MAX_DELAY <= u64::MAX,
    ensures
        forall|t: u64|
            BackoffView::fresh().attempted_at(times).attempted(now).can_retry(t) <==> t >= now + MAX_DELAY,
{
    law_escalation(times);
    lemma2_to64();
    if times.len() > 9 {
        lemma_pow2_strictly_increases(9, times.len());
    }
    assert(pow2(times.len()) * INITIAL_DELAY > MAX_DELAY) by (nonlinear_arith)
        requires
            pow2(times.len()) >= 512,
            INITIAL_DELAY == 1_000_000_000,
            MAX_DELAY == 300_000_000_000,
    ;
}

/// After an attempt no retry is allowed until the delay that was current has passed, and then it is.
pub proof fn law_cooldown(state: BackoffView, now: u64, t: u64)
    requires
        now + state.delay <= u64::MAX,
        state.delay >= 0,
    ensures
        state.attempted(now).can_retry(t) <==> t >= now + state.delay,
{
}

/// A minute of uptime since the last attempt undoes the escalation: the next attempt arms one second.
pub proof fn law_uptime_resets(state: BackoffView, started: u64, seen: u64, crashed: u64)
    requires
        started + RESET_UPTIME_THRESHOLD <= seen,
        crashed + INITIAL_DELAY <= u64::MAX,
    ensures
        forall|t: u64|
            state.attempted(started).seen_running(seen).attempted(crashed).can_retry(t) <==> t >= crashed
                + INITIAL_DELAY,
{
}

/// To be seen running changes nothing but the delay that the next attempt arms, and that only after a minute of
/// uptime since the last attempt: then it is one second. Whether a retry is allowed stays as it is.
pub proof fn law_only_uptime_resets(state: BackoffView, seen: u64, next: u64)
    ensures
        forall|t: u64| #[trigger] state.seen_running(seen).can_retry(t) == state.can_retry(t),
        match state.last_started_at {
            Some(last) if last + RESET_UPTIME_THRESHOLD <= seen => next + INITIAL_DELAY <= u64::MAX
                ==> state.seen_running(seen).attempted(next).next_retry_at == Some((next + INITIAL_DELAY) as u64),
            _ => state.seen_running(seen).attempted(next) == state.attempted(next),
        },
{
}

} // verus!
