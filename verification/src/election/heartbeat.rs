//! Heartbeats: the leader numbers the heartbeats it sends, and the other
//! nodes watch the time since the last one to detect a failed leader.

use std::time::Duration;
use std::time::Instant;
use vstd::prelude::*;

verus! {

#[verifier::external_type_specification]
#[verifier::external_body]
pub struct ExInstant(Instant);

/// `Instant::now` (std): the current reading of the monotonic clock. It
/// depends on the time; nothing is claimed of it.
#[verifier::external_body]
pub(crate) fn instant_now() -> Instant {
    Instant::now()
}

/// What `Instant::saturating_duration_since` (std) returns: the time from
/// `earlier` to `later`, or zero where `earlier` is the later one. It depends
/// on the two readings alone.
pub uninterp spec fn saturating_gap(later: Instant, earlier: Instant) -> Duration;

/// `Instant::saturating_duration_since` (std): the time from `earlier` to
/// `later`; it does not panic.
#[verifier::external_body]
fn instant_gap(later: &Instant, earlier: &Instant) -> (d: Duration)
    ensures
        d == saturating_gap(*later, *earlier),
{
    later.saturating_duration_since(*earlier)
}

/// What `Duration::as_secs` (std) returns for `d`: its whole seconds.
pub uninterp spec fn duration_secs(d: Duration) -> u64;

/// What `Duration::subsec_nanos` (std) returns for `d`: the part of `d`
/// below one second, in nanoseconds.
pub uninterp spec fn duration_nanos(d: Duration) -> u32;

/// What `Duration::subsec_millis` (std) returns for `d`: the part of `d`
/// below one second, in whole milliseconds.
pub uninterp spec fn duration_millis(d: Duration) -> u32;

/// `Duration::subsec_millis` (std): the fractional part of `d` in whole
/// milliseconds, which the documentation bounds below one thousand.
#[verifier::external_body]
pub(crate) fn duration_subsec_millis(d: &Duration) -> (m: u32)
    ensures
        m == duration_millis(*d),
        m < 1000,
{
    d.subsec_millis()
}

/// `Duration::as_secs` (std): the whole seconds of `d`.
#[verifier::external_body]
pub(crate) fn duration_whole_secs(d: &Duration) -> (s: u64)
    ensures
        s == duration_secs(*d),
{
    d.as_secs()
}

/// `Duration::subsec_nanos` (std): the fractional part of `d` in
/// nanoseconds, which the documentation bounds below one second.
#[verifier::external_body]
fn duration_subsec_nanos(d: &Duration) -> (n: u32)
    ensures
        n == duration_nanos(*d),
        n < 1_000_000_000,
{
    d.subsec_nanos()
}

/// `Duration::from_secs` (std): a span of exactly `secs` whole seconds, so
/// `as_secs` gives `secs` back and `subsec_nanos` gives 0.
#[verifier::external_body]
fn duration_from_secs(secs: u64) -> (d: Duration)
    ensures
        duration_secs(d) == secs,
        duration_nanos(d) == 0,
{
    Duration::from_secs(secs)
}

/// A span of `secs` seconds and `nanos` nanoseconds is longer than
/// `limit_secs` whole seconds.
pub open spec fn longer_than(secs: u64, nanos: u32, limit_secs: u64) -> bool {
    secs as int * 1_000_000_000 + nanos > limit_secs as int * 1_000_000_000
}

/// Whether a span of `secs` s and `nanos` ns (`nanos` below one second)
/// exceeds `limit_secs` seconds.
pub fn exceeds_secs(secs: u64, nanos: u32, limit_secs: u64) -> (r: bool)
    requires
        nanos < 1_000_000_000,
    ensures
        r == longer_than(secs, nanos, limit_secs),
{
    assert(secs > limit_secs ==> longer_than(secs, nanos, limit_secs)) by (nonlinear_arith)
        requires
            nanos < 1_000_000_000,
    ;
    assert(secs < limit_secs ==> !longer_than(secs, nanos, limit_secs)) by (nonlinear_arith)
        requires
            nanos < 1_000_000_000,
    ;
    secs > limit_secs || (secs == limit_secs && nanos > 0)
}

/// Watches the leader's health by the time of the last heartbeat received.
pub struct HeartbeatMonitor {
    last_heartbeat: Instant,
    running: bool,
    timeout_secs: u64,
    /// How many clock readings have been stored since the monitor was made.
    refreshes: Ghost<nat>,
}

impl View for HeartbeatMonitor {
    /// `(running, timeout_secs)`; the time of the last heartbeat is a clock
    /// reading and has no abstract value.
    type V = (bool, u64);

    closed spec fn view(&self) -> (bool, u64) {
        (self.running, self.timeout_secs)
    }
}

impl HeartbeatMonitor {
    /// A running monitor, counting from now, that reports a timeout after
    /// `timeout_secs` seconds without heartbeat.
    pub fn new(timeout_secs: u64) -> (m: Self)
        ensures
            m@ == (true, timeout_secs),
            m.refreshes() == 0,
    {
        HeartbeatMonitor {
            last_heartbeat: instant_now(),
            running: true,
            timeout_secs,
            refreshes: Ghost(0),
        }
    }

    /// How many times a heartbeat was recorded (`update`) since the monitor
    /// was made; each time the last heartbeat became a new reading of the
    /// clock.
    pub closed spec fn refreshes(&self) -> nat {
        self.refreshes@
    }

    /// The clock reading of the last heartbeat (or of the creation).
    pub closed spec fn last_heartbeat(&self) -> Instant {
        self.last_heartbeat
    }

    /// Records that a heartbeat arrived at the clock reading `now`: the last
    /// heartbeat becomes `now`.
    pub fn update_at(&mut self, now: Instant)
        ensures
            final(self)@ == old(self)@,
            final(self).last_heartbeat() == now,
            final(self).refreshes() == old(self).refreshes() + 1,
    {
        self.last_heartbeat = now;
        self.refreshes = Ghost(self.refreshes@ + 1);
    }

    /// Records that a heartbeat arrived now: the last heartbeat becomes the
    /// reading of the clock taken here (which the clock alone decides).
    pub fn update(&mut self)
        ensures
            final(self)@ == old(self)@,
            final(self).refreshes() == old(self).refreshes() + 1,
    {
        let now = instant_now();
        self.update_at(now);
    }

    /// The time from the last heartbeat to the clock reading `now` (zero if
    /// `now` is the earlier one).
    pub fn elapsed_at(&self, now: &Instant) -> (d: Duration)
        ensures
            d == saturating_gap(*now, self.last_heartbeat()),
    {
        instant_gap(now, &self.last_heartbeat)
    }

    /// More than the timeout separates the last heartbeat from the clock
    /// reading `now`.
    pub open spec fn timed_out_at(&self, now: Instant) -> bool {
        let d = saturating_gap(now, self.last_heartbeat());
        longer_than(duration_secs(d), duration_nanos(d), self@.1)
    }

    /// Whether more than the timeout separates the last heartbeat from the
    /// clock reading `now`.
    pub fn is_timeout_at(&self, now: &Instant) -> (r: bool)
        ensures
            r == self.timed_out_at(*now),
    {
        let elapsed = self.elapsed_at(now);
        let secs = duration_whole_secs(&elapsed);
        let nanos = duration_subsec_nanos(&elapsed);
        exceeds_secs(secs, nanos, self.timeout_secs)
    }

    /// The time since the last heartbeat: `elapsed_at` a reading of the
    /// clock taken now (which the clock alone decides).
    pub fn elapsed_since_last_heartbeat(&self) -> (d: Duration)
        ensures
            exists|now: Instant| d == #[trigger] saturating_gap(now, self.last_heartbeat()),
    {
        let now = instant_now();
        self.elapsed_at(&now)
    }

    /// Whether more than the timeout has passed since the last heartbeat:
    /// `is_timeout_at` a reading of the clock taken now.
    pub fn is_timeout(&self) -> (r: bool)
        ensures
            exists|now: Instant| r == #[trigger] self.timed_out_at(now),
    {
        let now = instant_now();
        self.is_timeout_at(&now)
    }

    /// Whether the monitor is running.
    pub fn is_running(&self) -> (r: bool)
        ensures
            r == self@.0,
    {
        self.running
    }
}

/// Numbers the heartbeats that the leader sends.
pub struct HeartbeatSender {
    sequence: u64,
    interval_secs: u64,
}

impl View for HeartbeatSender {
    /// `(next sequence number, interval in seconds)`.
    type V = (u64, u64);

    closed spec fn view(&self) -> (u64, u64) {
        (self.sequence, self.interval_secs)
    }
}

impl HeartbeatSender {
    /// A sender whose first heartbeat has number 0, sending every
    /// `interval_secs` seconds.
    pub fn new(interval_secs: u64) -> (s: Self)
        ensures
            s@ == (0u64, interval_secs),
    {
        HeartbeatSender { sequence: 0, interval_secs }
    }

    /// The next sequence number; the counter wraps around at `u64::MAX`.
    pub fn next_sequence(&mut self) -> (n: u64)
        ensures
            n == old(self)@.0,
            final(self)@ == (old(self)@.0.wrapping_add(1), old(self)@.1),
    {
        let n = self.sequence;
        self.sequence = self.sequence.wrapping_add(1);
        n
    }

    /// The interval between heartbeats, in seconds.
    pub fn interval_secs(&self) -> (r: u64)
        ensures
            r == self@.1,
    {
        self.interval_secs
    }

    /// The interval between heartbeats: exactly the configured whole seconds.
    pub fn interval(&self) -> (d: Duration)
        ensures
            duration_secs(d) == self@.1,
            duration_nanos(d) == 0,
    {
        duration_from_secs(self.interval_secs)
    }
}

} // verus!
