//! Reconnecting forever — the decisions of the dial loop.
//!
//! A node keeps retrying until the hub answers, and re-dials whenever an
//! established connection drops. A hub restart, a sleeping hub host, a crash
//! or a deploy all reduce to the same transient — the hub blinked — and the
//! node recovers on its own. The loop never gives up; it only backs off.
//!
//! The loop itself (dialing, sleeping, waiting for a drop) is transport work
//! done by the caller; what is decided between those steps lives here.
use std::time::Duration;

use vstd::arithmetic::power2::{lemma2_to64, lemma_pow2_pos, lemma_pow2_strictly_increases, lemma_pow2_unfold, pow2};
use vstd::prelude::*;

use crate::node::dial::DialError;

verus! {

/// Nanoseconds in a second.
pub const NANOS_PER_SEC: u128 = 1_000_000_000u128;

/// The longest span a [`Duration`] can hold, in nanoseconds.
pub const MAX_DURATION_NANOS: u128 = 18_446_744_073_709_551_615_999_999_999u128;

/// The whole nanoseconds in `d`: what `Duration::as_nanos` returns for it.
pub uninterp spec fn nanos_in(d: Duration) -> u128;

/// The total length of `d` in whole nanoseconds.
///
/// Calls `Duration::as_nanos`. Claimed: the result is [`nanos_in`] of `d`,
/// and it is at most [`MAX_DURATION_NANOS`], the length of `Duration::MAX`
/// (`u64::MAX` seconds plus a second less one nanosecond).
#[verifier::external_body]
fn duration_as_nanos(d: &Duration) -> (n: u128)
    ensures
        n == nanos_in(*d),
        n <= MAX_DURATION_NANOS,
{
    d.as_nanos()
}

/// A duration of `secs` seconds and `nanos` nanoseconds.
///
/// Calls `Duration::new`, which panics only when the nanoseconds carry into
/// an overflowing seconds count; `nanos` below a second rules that out.
/// Claimed: the duration holds `secs` seconds and `nanos` nanoseconds, so
/// `as_nanos` gives `secs * 1_000_000_000 + nanos` for it.
#[verifier::external_body]
fn duration_new(secs: u64, nanos: u32) -> (d: Duration)
    requires
        nanos < 1_000_000_000,
    ensures
        nanos_in(d) == secs * NANOS_PER_SEC + nanos,
{
    Duration::new(secs, nanos)
}

/// The duration `n` nanoseconds long.
fn duration_from_nanos(n: u128) -> (d: Duration)
    requires
        n <= MAX_DURATION_NANOS,
    ensures
        nanos_in(d) == n,
{
    let secs = (n / NANOS_PER_SEC) as u64;
    let sub = (n % NANOS_PER_SEC) as u32;
    assert(n == (n / NANOS_PER_SEC) * NANOS_PER_SEC + n % NANOS_PER_SEC);
    duration_new(secs, sub)
}

/// The smaller of two numbers.
pub open spec fn min_of(a: nat, b: nat) -> nat {
    if a <= b {
        a
    } else {
        b
    }
}

/// `initial` doubled `failures - 1` times, saturating at the longest
/// duration.
pub open spec fn scaled_nanos(initial: nat, failures: nat) -> nat {
    min_of(initial * pow2((failures - 1) as nat), MAX_DURATION_NANOS as nat)
}

/// The delay in nanoseconds after `failures` consecutive failed attempts:
/// none before the first retry, then `initial` doubled for each further
/// failure — saturating at the longest duration — and never above `max`.
pub open spec fn backoff_nanos(initial: nat, max: nat, failures: nat) -> nat {
    if failures == 0 {
        0
    } else {
        min_of(scaled_nanos(initial, failures), max)
    }
}

/// Powers of two grow with the exponent.
proof fn lemma_pow2_monotone(a: nat, b: nat)
    requires
        a <= b,
    ensures
        pow2(a) <= pow2(b),
{
    if a < b {
        lemma_pow2_strictly_increases(a, b);
    }
}

/// `initial` scaled by a larger power of two is no smaller.
proof fn lemma_scaled_monotone(initial: nat, f1: nat, f2: nat)
    requires
        1 <= f1 <= f2,
    ensures
        scaled_nanos(initial, f1) <= scaled_nanos(initial, f2),
{
    lemma_pow2_monotone((f1 - 1) as nat, (f2 - 1) as nat);
    let a = pow2((f1 - 1) as nat);
    let b = pow2((f2 - 1) as nat);
    assert(initial * a <= initial * b) by (nonlinear_arith)
        requires
            a <= b,
    ;
}

/// One more failure doubles the scaled delay, up to the saturation point.
proof fn lemma_scaled_step(initial: nat, failures: nat)
    requires
        failures >= 1,
    ensures
        scaled_nanos(initial, failures + 1) == min_of(
            2 * scaled_nanos(initial, failures),
            MAX_DURATION_NANOS as nat,
        ),
{
    let p = pow2((failures - 1) as nat);
    lemma_pow2_unfold(failures);
    assert(pow2(failures) == 2 * p);
    assert(initial * pow2(failures) == 2 * (initial * p)) by (nonlinear_arith)
        requires
            pow2(failures) == 2 * p,
    ;
}

/// `initial` doubled `failures - 1` times, saturating at the longest
/// duration.
fn scaled_delay_nanos(initial: u128, failures: u32) -> (r: u128)
    requires
        failures >= 1,
        initial <= MAX_DURATION_NANOS,
    ensures
        r == scaled_nanos(initial as nat, failures as nat),
{
    proof {
        lemma_pow2_monotone(0, (failures - 1) as nat);
        lemma2_to64();
    }
    if initial == 0 {
        assert(0 * pow2((failures - 1) as nat) == 0) by (nonlinear_arith);
        return 0;
    }
    let mut value: u128 = initial;
    let mut k: u32 = 1;
    assert(initial * pow2(0) == initial) by {
        lemma2_to64();
    }
    while k < failures && value < MAX_DURATION_NANOS
        invariant
            1 <= k <= failures,
            value <= MAX_DURATION_NANOS,
            value == scaled_nanos(initial as nat, k as nat),
        decreases failures - k,
    {
        proof {
            lemma_scaled_step(initial as nat, k as nat);
        }
        value = if value <= MAX_DURATION_NANOS / 2 {
            value * 2
        } else {
            MAX_DURATION_NANOS
        };
        k = k + 1;
    }
    if k < failures {
        proof {
            lemma_scaled_monotone(initial as nat, k as nat, failures as nat);
        }
    }
    value
}

/// The delay in nanoseconds after `failures` consecutive failed attempts,
/// for a backoff starting at `initial` and capped at `max` nanoseconds.
pub fn backoff_delay_nanos(initial: u128, max: u128, failures: u32) -> (r: u128)
    requires
        initial <= MAX_DURATION_NANOS,
    ensures
        r == backoff_nanos(initial as nat, max as nat, failures as nat),
{
    if failures == 0 {
        return 0;
    }
    let scaled = scaled_delay_nanos(initial, failures);
    if scaled <= max {
        scaled
    } else {
        max
    }
}

/// The first attempt is immediate.
pub proof fn lemma_first_attempt_is_immediate(initial: nat, max: nat)
    ensures
        backoff_nanos(initial, max, 0) == 0,
{
}

/// The delay never exceeds the cap.
pub proof fn lemma_delay_is_capped(initial: nat, max: nat, failures: nat)
    ensures
        backoff_nanos(initial, max, failures) <= max,
{
}

/// More failures never mean a shorter wait.
pub proof fn lemma_delay_never_shrinks(initial: nat, max: nat, f1: nat, f2: nat)
    requires
        f1 <= f2,
    ensures
        backoff_nanos(initial, max, f1) <= backoff_nanos(initial, max, f2),
{
    if f1 >= 1 {
        lemma_scaled_monotone(initial, f1, f2);
    }
}

/// Each further failure doubles the wait, until it reaches the cap: the
/// next delay is twice this one, or the cap if that is less.
pub proof fn lemma_delay_doubles(initial: nat, max: nat, failures: nat)
    requires
        1 <= failures,
        max <= MAX_DURATION_NANOS,
    ensures
        backoff_nanos(initial, max, failures + 1) == min_of(
            2 * backoff_nanos(initial, max, failures),
            max,
        ),
{
    lemma_scaled_step(initial, failures);
}

/// With a positive start, enough failures always bring the delay up to
/// the cap.
pub proof fn lemma_delay_reaches_the_cap(initial: nat, max: nat)
    requires
        initial >= 1,
        max <= MAX_DURATION_NANOS,
    ensures
        backoff_nanos(initial, max, max + 1) == max,
{
    lemma_pow2_at_least_exponent(max);
    assert(initial * pow2(max) >= pow2(max)) by (nonlinear_arith)
        requires
            initial >= 1,
    ;
}

/// A power of two is larger than its exponent.
proof fn lemma_pow2_at_least_exponent(n: nat)
    ensures
        pow2(n) > n,
    decreases n,
{
    if n == 0 {
        lemma2_to64();
    } else {
        lemma_pow2_at_least_exponent((n - 1) as nat);
        lemma_pow2_unfold(n);
        lemma_pow2_pos((n - 1) as nat);
    }
}

/// Bounded exponential backoff between dial attempts.
///
/// "Forever" is patient, not a hot loop: the delay doubles up to `max`, and
/// resets once a connection is established.
#[derive(Debug, PartialEq, Eq)]
pub struct Backoff {
    pub initial: Duration,
    pub max: Duration,
}

impl Clone for Backoff {
    fn clone(&self) -> (r: Self)
        ensures
            r == *self,
    {
        Backoff { initial: self.initial, max: self.max }
    }
}

impl Backoff {
    /// The delay after `failures` consecutive failed attempts, capped at
    /// `max`: the duration [`backoff_delay_nanos`] computes from the lengths
    /// of `initial` and `max`.
    pub fn delay(&self, failures: u32) -> (r: Duration)
        ensures
            nanos_in(r) == backoff_nanos(
                nanos_in(self.initial) as nat,
                nanos_in(self.max) as nat,
                failures as nat,
            ),
    {
        let initial = duration_as_nanos(&self.initial);
        let max = duration_as_nanos(&self.max);
        let nanos = backoff_delay_nanos(initial, max, failures);
        proof {
            lemma_delay_is_capped(initial as nat, max as nat, failures as nat);
        }
        duration_from_nanos(nanos)
    }
}

impl Default for Backoff {
    /// A quarter of a second, doubling up to thirty seconds.
    fn default() -> (r: Self)
        ensures
            nanos_in(r.initial) == 250_000_000,
            nanos_in(r.max) == 30_000_000_000,
    {
        Backoff { initial: duration_new(0, 250_000_000), max: duration_new(30, 0) }
    }
}

/// What happened on one pass of the reconnect loop.
#[derive(Debug, PartialEq, Eq)]
pub enum DialOutcome {
    /// Dialed, served, and registered; the connection then dropped.
    ConnectedThenDropped,
    /// The attempt failed before a connection was established.
    Failed(DialError),
}

impl Clone for DialOutcome {
    fn clone(&self) -> (r: Self)
        ensures
            r == *self,
    {
        match self {
            DialOutcome::ConnectedThenDropped => DialOutcome::ConnectedThenDropped,
            DialOutcome::Failed(e) => DialOutcome::Failed(e.clone()),
        }
    }
}

/// The count of consecutive failures after `outcome`.
pub open spec fn failures_after(failures: u32, outcome: DialOutcome) -> u32 {
    match outcome {
        DialOutcome::ConnectedThenDropped => 0,
        DialOutcome::Failed(_) => if failures == u32::MAX {
            u32::MAX
        } else {
            (failures + 1) as u32
        },
    }
}

/// Every failed attempt counts, whatever went wrong: after a failure the
/// count is one more than before, held at the largest count.
pub proof fn lemma_every_failure_counts(failures: u32, error: DialError)
    ensures
        failures_after(failures, DialOutcome::Failed(error)) as int == min_of(
            failures as nat + 1,
            u32::MAX as nat,
        ),
        failures < u32::MAX ==> failures_after(failures, DialOutcome::Failed(error)) == failures + 1,
{
}

/// A connection that was established starts the count afresh, so the next
/// attempt goes at once.
pub proof fn lemma_connection_resets_the_count(failures: u32, initial: nat, max: nat)
    ensures
        failures_after(failures, DialOutcome::ConnectedThenDropped) == 0,
        backoff_nanos(
            initial,
            max,
            failures_after(failures, DialOutcome::ConnectedThenDropped) as nat,
        ) == 0,
{
}

/// After one failure from a fresh start the wait is the initial delay
/// (capped at `max`), whatever the failure was.
pub proof fn lemma_first_failure_waits_the_initial_delay(initial: nat, max: nat, error: DialError)
    ensures
        backoff_nanos(initial, max, failures_after(0, DialOutcome::Failed(error)) as nat) == min_of(
            min_of(initial, MAX_DURATION_NANOS as nat),
            max,
        ),
{
    assert(pow2(0) == 1) by {
        lemma2_to64();
    }
    assert(initial * pow2(0) == initial);
}

/// The reconnect loop's state between passes: how many attempts in a row
/// have failed.
#[derive(Debug, PartialEq, Eq)]
pub struct ReconnectState {
    pub failures: u32,
}

impl ReconnectState {
    /// Nothing has failed yet, so the first attempt goes at once.
    pub fn new() -> (r: Self)
        ensures
            r.failures == 0,
    {
        ReconnectState { failures: 0 }
    }

    /// How long to wait before the next attempt: the backoff's delay after
    /// the failures counted so far.
    pub fn next_delay(&self, backoff: &Backoff) -> (r: Duration)
        ensures
            nanos_in(r) == backoff_nanos(
                nanos_in(backoff.initial) as nat,
                nanos_in(backoff.max) as nat,
                self.failures as nat,
            ),
    {
        backoff.delay(self.failures)
    }

    /// Take in how the last pass went: a connection that was established
    /// resets the count, a failure adds one (saturating).
    pub fn record(&mut self, outcome: &DialOutcome)
        ensures
            final(self).failures == failures_after(old(self).failures, *outcome),
            outcome is ConnectedThenDropped ==> final(self).failures == 0,
            outcome is Failed ==> final(self).failures as int == min_of(
                old(self).failures as nat + 1,
                u32::MAX as nat,
            ),
    {
        match outcome {
            DialOutcome::ConnectedThenDropped => {
                self.failures = 0;
            },
            DialOutcome::Failed(_) => {
                self.failures = self.failures.saturating_add(1);
            },
        }
    }
}

} // verus!
