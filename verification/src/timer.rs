use vstd::prelude::*;
use vstd::arithmetic::div_mod::{
    lemma_div_by_multiple, lemma_div_is_ordered, lemma_div_plus_one,
};

verus! {

/// Number of milliseconds in one timer tick (approximately 60 Hz).
pub const TICK_MS: u64 = 17;

/// Observed value of the countdown timer: the value it was set to,
/// less one for every whole tick elapsed since it was set, floored at zero.
/// The clock reading at the set instant and the reading now are both in
/// milliseconds; a reading that went backwards counts as no time elapsed.
pub open spec fn timer_observed(value: u8, set_ms: u64, now_ms: u64) -> u8 {
    let elapsed = if now_ms >= set_ms { now_ms - set_ms } else { 0 };
    let ticks = elapsed / (TICK_MS as int);
    if ticks >= value { 0u8 } else { (value - ticks) as u8 }
}

/// Mathematical view of a countdown timer: the value it was last set to and
/// the clock reading, in milliseconds, at that instant.
pub ghost struct TimerView {
    pub value: u8,
    pub set_ms: u64,
}

/// A countdown byte that decays lazily: its observed value is recomputed from
/// the wall-clock time elapsed since it was last set, at one decrement per tick.
#[derive(Debug)]
pub struct Timer {
    value: u8,
    set_at_ms: u64,
}

impl View for Timer {
    type V = TimerView;

    closed spec fn view(&self) -> TimerView {
        TimerView { value: self.value, set_ms: self.set_at_ms }
    }
}

/// Relies on std::time::SystemTime::now for a wall-clock reading; nothing is
/// assumed of the value returned.
#[verifier::external_body]
fn now_millis() -> u64 {
    std::time::SystemTime::now()
        .duration_since(std::time::UNIX_EPOCH)
        .map(|d| d.as_millis() as u64)
        .unwrap_or(0)
}

/// The observed timer value computed from a concrete clock reading.
fn observed_value(value: u8, set_ms: u64, now_ms: u64) -> (r: u8)
    ensures
        r == timer_observed(value, set_ms, now_ms),
{
    let elapsed: u64 = if now_ms >= set_ms { now_ms - set_ms } else { 0 };
    let ticks: u64 = elapsed / TICK_MS;
    if ticks >= value as u64 {
        0
    } else {
        value - (ticks as u8)
    }
}

impl Timer {
    pub fn new() -> (r: Timer)
        ensures
            r@.value == 0,
    {
        Timer { value: 0, set_at_ms: now_millis() }
    }

    /// Store a fresh countdown value; the reference instant becomes now.
    pub fn set(&mut self, value: u8)
        ensures
            final(self)@.value == value,
    {
        self.value = value;
        self.set_at_ms = now_millis();
    }

    /// The current observed value: derived from the set value and the
    /// wall-clock time elapsed since it was set, never above the set value.
    pub fn observed(&self) -> (r: u8)
        ensures
            exists|now_ms: u64| r == timer_observed(self@.value, self@.set_ms, now_ms),
            r <= self@.value,
            self@.value == 0 ==> r == 0,
    {
        let now = now_millis();
        let r = observed_value(self.value, self.set_at_ms, now);
        proof {
            assert(r == timer_observed(self@.value, self@.set_ms, now));
        }
        r
    }
}

/// The observed value never rises as wall-clock time passes.
pub proof fn lemma_timer_monotonic(value: u8, set_ms: u64, now1: u64, now2: u64)
    requires
        now1 <= now2,
    ensures
        timer_observed(value, set_ms, now2) <= timer_observed(value, set_ms, now1),
{
    let e1 = if now1 >= set_ms { now1 - set_ms } else { 0 };
    let e2 = if now2 >= set_ms { now2 - set_ms } else { 0 };
    lemma_div_is_ordered(e1 as int, e2 as int, TICK_MS as int);
}

/// After at least one further whole tick, a positive observed value strictly
/// decreases.
pub proof fn lemma_timer_strictly_decreases(value: u8, set_ms: u64, now1: u64, now2: u64)
    requires
        set_ms <= now1,
        now1 + TICK_MS <= now2,
        timer_observed(value, set_ms, now1) > 0,
    ensures
        timer_observed(value, set_ms, now2) < timer_observed(value, set_ms, now1),
{
    let e1 = if now1 >= set_ms { now1 - set_ms } else { 0 };
    let e2 = if now2 >= set_ms { now2 - set_ms } else { 0 };
    assert(e2 >= e1 + TICK_MS);
    lemma_div_is_ordered(e1 + TICK_MS as int, e2 as int, TICK_MS as int);
    lemma_div_plus_one(e1 as int, TICK_MS as int);
}

/// Once the whole countdown has elapsed the observed value is zero, and by
/// monotonicity it stays there.
pub proof fn lemma_timer_expires(value: u8, set_ms: u64, now_ms: u64)
    requires
        now_ms >= set_ms + value as u64 * TICK_MS,
    ensures
        timer_observed(value, set_ms, now_ms) == 0,
{
    let e = if now_ms >= set_ms { now_ms - set_ms } else { 0 };
    lemma_div_by_multiple(value as int, TICK_MS as int);
    lemma_div_is_ordered(value as int * TICK_MS as int, e as int, TICK_MS as int);
}

/// The observed value never exceeds the value the timer was set to.
pub proof fn lemma_timer_at_most_set(value: u8, set_ms: u64, now_ms: u64)
    ensures
        timer_observed(value, set_ms, now_ms) <= value,
{
}

} // verus!
