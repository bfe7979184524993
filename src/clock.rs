use std::time::{Duration, Instant};
use vstd::arithmetic::div_mod::{lemma_fundamental_div_mod, lemma_fundamental_div_mod_converse};
use vstd::prelude::*;

verus! {

/// Nanoseconds in one second.
pub const NANOS_PER_SECOND: u128 = 1_000_000_000;

/// Shortest target tick that a `u8` rate allows: one second over 255 updates.
pub const MIN_AIM: u128 = 3_921_568;

/// Declares std's `Instant`, carried opaque: the clock keeps the moment of its last
/// tick and reads nothing inside it.
#[verifier::external_type_specification]
#[verifier::external_body]
pub struct ExInstant(Instant);

/// Relies on `Instant::now`: the current instant of a monotonic clock. Nothing is
/// known of its value.
pub assume_specification[ Instant::now ]() -> Instant;

/// Relies on `Instant::elapsed`: the time gone by since the instant. Nothing is known of
/// its value.
pub assume_specification[ Instant::elapsed ](t: &Instant) -> Duration;

/// Relies on `Duration::as_nanos`: the whole number of nanoseconds in the duration.
pub assume_specification[ Duration::as_nanos ](d: &Duration) -> u128;

/// Relies on `Duration::from_nanos`: the duration of that many nanoseconds.
pub assume_specification[ Duration::from_nanos ](nanos: u64) -> Duration;

/// Target length of a tick, in nanoseconds, for `ups` updates per second.
pub open spec fn aim_for(ups: int) -> int {
    NANOS_PER_SECOND as int / ups
}

/// Incremental mean: the mean of `count - 1` ticks was `average`; `elapsed` is the
/// length of the newest one.
pub open spec fn next_average(average: int, count: int, elapsed: int) -> int {
    (average * (count - 1) + elapsed) / count
}

/// How long to wait before the next update: twice the aim less the average, never
/// below zero.
pub open spec fn wait_nanos(aim: int, average: int) -> int {
    if 2 * aim >= average {
        2 * aim - average
    } else {
        0
    }
}

/// Count of ticks after one more; it stops at the largest value.
pub open spec fn next_count(count: int) -> int {
    if count < u128::MAX {
        count + 1
    } else {
        count
    }
}

/// Paces the update loop so that ticks last, on average, the targeted time.
///
/// The clock waits less after a slow tick and more after a fast one. A pause makes
/// the next tick start afresh instead of catching up.
#[derive(Debug)]
pub struct Clock {
    aim: u128,
    average: u128,
    update_count: u128,
    last_time: Option<Instant>,
}

impl Clock {
    /// A target between one second and one 255th of a second.
    pub open spec fn wf(&self) -> bool {
        MIN_AIM <= self.spec_aim() <= NANOS_PER_SECOND
    }

    pub closed spec fn spec_aim(&self) -> int {
        self.aim as int
    }

    pub closed spec fn spec_average(&self) -> int {
        self.average as int
    }

    pub closed spec fn spec_count(&self) -> int {
        self.update_count as int
    }

    pub closed spec fn running(&self) -> bool {
        self.last_time is Some
    }

    /// A clock set to `ups` updates per second.
    pub fn new(ups: u8) -> (c: Clock)
        requires
            ups > 0,
        ensures
            c.wf(),
            c.spec_aim() == aim_for(ups as int),
            c.spec_average() == 0,
            c.spec_count() == 0,
            !c.running(),
    {
        let mut c = Clock { aim: NANOS_PER_SECOND, average: 0, update_count: 0, last_time: None };
        c.set_ups(ups);
        c
    }

    /// Sets the target rate and starts afresh: the clock does not catch up on the
    /// ticks before.
    pub fn set_ups(&mut self, ups: u8)
        requires
            ups > 0,
        ensures
            final(self).wf(),
            final(self).spec_aim() == aim_for(ups as int),
            final(self).spec_average() == 0,
            final(self).spec_count() == 0,
            !final(self).running(),
    {
        self.reset();
        proof {
            vstd::arithmetic::div_mod::lemma_div_is_ordered_by_denominator(
                NANOS_PER_SECOND as int,
                ups as int,
                255,
            );
            vstd::arithmetic::div_mod::lemma_div_is_ordered_by_denominator(
                NANOS_PER_SECOND as int,
                1,
                ups as int,
            );
        }
        self.aim = NANOS_PER_SECOND / (ups as u128);
    }

    /// The rate that the target tick length stands for.
    pub fn get_ups(&self) -> (r: u8)
        requires
            self.wf(),
        ensures
            r as int == NANOS_PER_SECOND as int / self.spec_aim(),
    {
        proof {
            assert(NANOS_PER_SECOND / self.aim <= NANOS_PER_SECOND / MIN_AIM) by {
                vstd::arithmetic::div_mod::lemma_div_is_ordered_by_denominator(
                    NANOS_PER_SECOND as int,
                    MIN_AIM as int,
                    self.aim as int,
                );
            }
        }
        (NANOS_PER_SECOND / self.aim) as u8
    }

    /// The target length of a tick, in nanoseconds.
    pub fn aim(&self) -> (r: u128)
        ensures
            r as int == self.spec_aim(),
    {
        self.aim
    }

    fn reset(&mut self)
        ensures
            final(self).aim == old(self).aim,
            final(self).average == 0,
            final(self).update_count == 0,
            final(self).last_time is None,
    {
        self.average = 0;
        self.update_count = 0;
        self.last_time = None;
    }

    /// Records one tick that took `elapsed` nanoseconds since the previous one
    /// (`None` when there was none to measure) and returns how many nanoseconds to
    /// wait before the next update.
    pub fn record_tick(&mut self, elapsed: Option<u128>) -> (wait: u64)
        requires
            old(self).wf(),
        ensures
            final(self).wf(),
            final(self).spec_aim() == old(self).spec_aim(),
            final(self).spec_count() == next_count(old(self).spec_count()),
            final(self).running() == old(self).running(),
            elapsed is None ==> final(self).spec_average() == old(self).spec_aim(),
            elapsed is Some ==> final(self).spec_average() == next_average(
                old(self).spec_average(),
                final(self).spec_count(),
                elapsed->0 as int,
            ),
            wait as int == wait_nanos(final(self).spec_aim(), final(self).spec_average()),
    {
        if self.update_count < u128::MAX {
            self.update_count = self.update_count + 1;
        }
        let n = self.update_count;
        let avg = self.average;
        match elapsed {
            None => {
                self.average = self.aim;
            },
            Some(e) => {
                if e >= avg {
                    let r = avg + (e - avg) / n;
                    proof {
                        lemma_mean_step_up(avg as int, n as int, e as int);
                    }
                    self.average = r;
                } else {
                    let d = avg - e;
                    let q = d / n;
                    proof {
                        lemma_mean_step_down(avg as int, n as int, e as int);
                    }
                    if d % n == 0 {
                        self.average = avg - q;
                    } else {
                        self.average = avg - q - 1;
                    }
                }
            },
        }
        let twice = 2 * self.aim;
        if twice >= self.average {
            (twice - self.average) as u64
        } else {
            0
        }
    }

    /// Gives how long the game should wait before its next update, measuring the
    /// time since the previous tick on the wall clock.
    pub fn tick(&mut self) -> (r: Duration)
        requires
            old(self).wf(),
        ensures
            final(self).wf(),
            final(self).spec_aim() == old(self).spec_aim(),
            final(self).spec_count() == next_count(old(self).spec_count()),
            final(self).running(),
            !old(self).running() ==> final(self).spec_average() == old(self).spec_aim(),
            old(self).running() ==> exists|elapsed: int|
                0 <= elapsed <= u128::MAX && final(self).spec_average() == #[trigger] next_average(
                    old(self).spec_average(),
                    final(self).spec_count(),
                    elapsed,
                ),
    {
        let elapsed = match &self.last_time {
            Some(t) => {
                let d = t.elapsed();
                Some(d.as_nanos())
            },
            None => None,
        };
        let wait = self.record_tick(elapsed);
        self.last_time = Some(Instant::now());
        proof {
            match elapsed {
                Some(e) => {
                    assert(self.spec_average() == next_average(
                        old(self).spec_average(),
                        self.spec_count(),
                        e as int,
                    ));
                },
                None => {},
            }
        }
        Duration::from_nanos(wait)
    }

    /// Stops measuring: the next tick does not count the paused time.
    pub fn pause(&mut self)
        ensures
            final(self).spec_aim() == old(self).spec_aim(),
            final(self).spec_average() == old(self).spec_average(),
            final(self).spec_count() == old(self).spec_count(),
            !final(self).running(),
    {
        self.last_time = None;
    }
}

proof fn lemma_mean_step_up(avg: int, n: int, e: int)
    requires
        n >= 1,
        e >= avg >= 0,
    ensures
        avg + (e - avg) / n == next_average(avg, n, e),
        avg + (e - avg) / n <= e,
{
    let x = e - avg;
    let q = x / n;
    let r = x % n;
    lemma_fundamental_div_mod(x, n);
    assert(avg * (n - 1) + e == (avg + q) * n + r) by (nonlinear_arith)
        requires
            x == n * q + r,
            x == e - avg,
    ;
    lemma_fundamental_div_mod_converse(avg * (n - 1) + e, n, avg + q, r);
    assert(q <= x) by {
        vstd::arithmetic::div_mod::lemma_div_is_ordered_by_denominator(x, 1, n);
    }
}

proof fn lemma_mean_step_down(avg: int, n: int, e: int)
    requires
        n >= 1,
        avg > e >= 0,
    ensures
        (avg - e) % n == 0 ==> avg - (avg - e) / n == next_average(avg, n, e),
        (avg - e) % n != 0 ==> avg - (avg - e) / n - 1 == next_average(avg, n, e),
        (avg - e) / n <= avg - e,
        (avg - e) % n != 0 ==> (avg - e) / n < avg - e,
{
    let d = avg - e;
    let q = d / n;
    let r = d % n;
    lemma_fundamental_div_mod(d, n);
    if r == 0 {
        assert(avg * (n - 1) + e == (avg - q) * n) by (nonlinear_arith)
            requires
                d == n * q,
                d == avg - e,
        ;
        lemma_fundamental_div_mod_converse(avg * (n - 1) + e, n, avg - q, 0);
    } else {
        assert(avg * (n - 1) + e == (avg - q - 1) * n + (n - r)) by (nonlinear_arith)
            requires
                d == n * q + r,
                d == avg - e,
        ;
        lemma_fundamental_div_mod_converse(avg * (n - 1) + e, n, avg - q - 1, n - r);
        assert(q < d) by (nonlinear_arith)
            requires
                d == n * q + r,
                r > 0,
                n >= 1,
                q >= 0,
        ;
    }
    assert(q <= d) by {
        vstd::arithmetic::div_mod::lemma_div_is_ordered_by_denominator(d, 1, n);
    }
}

} // verus!
