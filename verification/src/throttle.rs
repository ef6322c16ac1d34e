//! The emission throttle: a token bucket with a minimum inter-emit
//! interval, in integer arithmetic.
//!
//! Tokens are counted in units of one sixty-thousandth of a token, so the
//! refill rate of `capacity` tokens per minute is exactly `capacity`
//! units per millisecond and one emission costs 60 000 units.
use vstd::prelude::*;
use vstd::math::min;
use crate::policy::Policy;
use crate::policy::PolicyModel;

verus! {

/// Units one whole token is worth.
pub const TOKEN_UNITS: u64 = 60_000;

/// The throttle state. `last_emit_ms` of zero means nothing was emitted
/// yet.
pub struct Throttle {
    pub capacity: u32,
    pub tokens_units: u64,
    pub min_interval_ms: u64,
    pub last_refill_ms: u64,
    pub last_emit_ms: u64,
}

/// The bucket holds this many units when full.
pub open spec fn full_units(cap: u32) -> int {
    cap * 60_000
}

/// Zero-floored elapsed time.
pub open spec fn sat_sub(a: u64, b: u64) -> int {
    if a >= b { a - b } else { 0 }
}

impl Throttle {
    /// The throttle's invariant: at least one token of capacity, a bucket
    /// within it, and an interval floor of at least 100 ms.
    pub open spec fn wf(&self) -> bool {
        &&& self.capacity >= 1
        &&& self.tokens_units <= full_units(self.capacity)
        &&& self.min_interval_ms >= 100
    }

    /// The bucket after topping up at `now`: the elapsed refill, capped at
    /// the capacity; a full minute always fills the bucket.
    pub open spec fn refilled_units(&self, now: u64) -> int {
        let dt = sat_sub(now, self.last_refill_ms);
        if dt == 0 {
            self.tokens_units as int
        } else if dt >= 60_000 {
            full_units(self.capacity)
        } else {
            min(self.tokens_units + self.capacity * dt, full_units(self.capacity))
        }
    }

    /// Whether the interval floor allows an emission at `now`.
    pub open spec fn interval_ok(&self, now: u64) -> bool {
        self.last_emit_ms == 0 || sat_sub(now, self.last_emit_ms) >= self.min_interval_ms
    }

    /// Whether a permit at `now` is granted: the floor has elapsed and a
    /// whole token is in the bucket.
    pub open spec fn granted(&self, now: u64) -> bool {
        self.interval_ok(now) && self.refilled_units(now) >= TOKEN_UNITS
    }

    /// The state after one permit call at `now`.
    pub open spec fn stepped(&self, now: u64) -> Throttle {
        Throttle {
            capacity: self.capacity,
            tokens_units: (self.refilled_units(now) - if self.granted(now) {
                TOKEN_UNITS as int
            } else {
                0
            }) as u64,
            min_interval_ms: self.min_interval_ms,
            last_refill_ms: if now > self.last_refill_ms {
                now
            } else {
                self.last_refill_ms
            },
            last_emit_ms: if self.granted(now) {
                now
            } else {
                self.last_emit_ms
            },
        }
    }

    /// A fresh throttle: default capacity of ten per minute, full bucket,
    /// half-second floor.
    pub fn new(now: u64) -> (r: Throttle)
        ensures
            r.wf(),
            r.capacity == 10,
            r.tokens_units == full_units(10),
            r.min_interval_ms == 500,
            r.last_refill_ms == now,
            r.last_emit_ms == 0,
    {
        Throttle {
            capacity: 10,
            tokens_units: 600_000,
            min_interval_ms: 500,
            last_refill_ms: now,
            last_emit_ms: 0,
        }
    }

    /// The throttle after adopting a policy's limits: the burst becomes
    /// the capacity (at least one), tokens are clamped to the new
    /// capacity, and the floor becomes `1000 / titleSampleHz`, never
    /// under 100 ms. Absent fields leave their limit unchanged.
    pub open spec fn adopted(&self, p: PolicyModel) -> Throttle {
        let cap: u32 = match p.title_burst_per_minute {
            Some(b) => if b >= 1 { b } else { 1u32 },
            None => self.capacity,
        };
        let toks: u64 = if self.tokens_units <= full_units(cap) {
            self.tokens_units
        } else {
            full_units(cap) as u64
        };
        let mi: u64 = match p.title_sample_hz {
            Some(hz) => {
                let hz1: int = if hz >= 1 { hz as int } else { 1 };
                if 1000int / hz1 >= 100 { (1000int / hz1) as u64 } else { 100u64 }
            },
            None => self.min_interval_ms,
        };
        Throttle {
            capacity: cap,
            tokens_units: toks,
            min_interval_ms: mi,
            last_refill_ms: self.last_refill_ms,
            last_emit_ms: self.last_emit_ms,
        }
    }

    /// Adopts a policy's limits, as `adopted` describes.
    pub fn update_from_policy(&mut self, p: &Policy)
        requires
            old(self).wf(),
        ensures
            final(self).wf(),
            *final(self) == old(self).adopted(p@),
    {
        match self.titleburst(p) {
            Some(b) => {
                let cap: u32 = if b >= 1 { b } else { 1 };
                self.capacity = cap;
                let full: u64 = (cap as u64) * TOKEN_UNITS;
                if self.tokens_units > full {
                    self.tokens_units = full;
                }
            },
            None => {},
        }
        match self.titlehz(p) {
            Some(hz) => {
                let hz1: u32 = if hz >= 1 { hz } else { 1 };
                let mi: u64 = 1000u64 / (hz1 as u64);
                self.min_interval_ms = if mi >= 100 { mi } else { 100 };
            },
            None => {},
        }
    }

    /// Reads the burst field; a plain copy of the optional number.
    fn titleburst(&self, p: &Policy) -> (r: Option<u32>)
        ensures
            r == p@.title_burst_per_minute,
    {
        match p.titleBurstPerMinute {
            Some(b) => Some(b),
            None => None,
        }
    }

    /// Reads the sampling-rate field; a plain copy of the optional number.
    fn titlehz(&self, p: &Policy) -> (r: Option<u32>)
        ensures
            r == p@.title_sample_hz,
    {
        match p.titleSampleHz {
            Some(hz) => Some(hz),
            None => None,
        }
    }

    /// Asks for one emission permit at `now`: tops the bucket up, then
    /// grants exactly when the interval floor has elapsed and a whole
    /// token is available; a grant costs one token and stamps the time.
    pub fn permit(&mut self, now: u64) -> (r: bool)
        requires
            old(self).wf(),
        ensures
            final(self).wf(),
            r == old(self).granted(now),
            *final(self) == old(self).stepped(now),
    {
        let dt = if now > self.last_refill_ms {
            now - self.last_refill_ms
        } else {
            0
        };
        if dt > 0 {
            let full: u64 = (self.capacity as u64) * TOKEN_UNITS;
            if dt >= 60_000 {
                self.tokens_units = full;
            } else {
                proof {
                    assert(self.capacity * dt <= 0xffff_ffffu32 * 60_000u64) by (nonlinear_arith)
                        requires
                            self.capacity <= 0xffff_ffffu32,
                            dt <= 60_000u64,
                    ;
                    assert(full_units(self.capacity) <= 0xffff_ffffu32 * 60_000u64)
                        by (nonlinear_arith)
                        requires
                            self.capacity <= 0xffff_ffffu32,
                    ;
                }
                let add: u64 = (self.capacity as u64) * dt;
                let sum: u64 = self.tokens_units + add;
                self.tokens_units = if sum > full {
                    full
                } else {
                    sum
                };
            }
            self.last_refill_ms = now;
        }
        if self.last_emit_ms != 0 {
            let since = if now > self.last_emit_ms {
                now - self.last_emit_ms
            } else {
                0
            };
            if since < self.min_interval_ms {
                return false;
            }
        }
        if self.tokens_units >= TOKEN_UNITS {
            self.tokens_units = self.tokens_units - TOKEN_UNITS;
            self.last_emit_ms = now;
            true
        } else {
            false
        }
    }
}

/// Throttle spacing law: once a permit is granted at a (non-zero) time,
/// no call before the interval floor has elapsed is granted again.
pub proof fn lemma_throttle_min_interval(t: Throttle, t1: u64, t2: u64)
    requires
        t.granted(t1),
        t1 >= 1,
        sat_sub(t2, t1) < t.min_interval_ms,
    ensures
        !t.stepped(t1).granted(t2),
{
}

/// The state and the number of grants after a run of permit calls.
pub open spec fn run_permits(t: Throttle, times: Seq<u64>) -> (Throttle, int)
    decreases times.len(),
{
    if times.len() == 0 {
        (t, 0)
    } else {
        let g: int = if t.granted(times[0]) {
            1
        } else {
            0
        };
        let rest = run_permits(t.stepped(times[0]), times.drop_first());
        (rest.0, g + rest.1)
    }
}

/// One permit call keeps the invariant and tops the refill stamp up to
/// the call time; the bucket never gains more than the elapsed refill.
proof fn lemma_step_bound(t: Throttle, now: u64)
    requires
        t.wf(),
    ensures
        t.stepped(now).wf(),
        t.stepped(now).capacity == t.capacity,
        t.stepped(now).last_refill_ms == if now > t.last_refill_ms {
            now as int
        } else {
            t.last_refill_ms as int
        },
        t.stepped(now).tokens_units + (if t.granted(now) { TOKEN_UNITS as int } else { 0 })
            <= t.tokens_units + t.capacity * (t.stepped(now).last_refill_ms
            - t.last_refill_ms),
{
    let dt = sat_sub(now, t.last_refill_ms);
    if dt == 0 {
    } else if dt >= 60_000 {
        assert(full_units(t.capacity) <= t.tokens_units + t.capacity * dt) by (nonlinear_arith)
            requires
                dt >= 60_000,
                t.capacity >= 1,
                t.tokens_units >= 0,
        ;
    } else {
    }
}

/// Throttle burst law: over a run of calls that never go back in time,
/// the grants are bounded by the tokens present at the start plus the
/// refill the elapsed window allows.
pub proof fn lemma_throttle_window_bound(t: Throttle, times: Seq<u64>)
    requires
        t.wf(),
        forall|i: int| 0 <= i < times.len() ==> t.last_refill_ms <= #[trigger] times[i],
        forall|i: int, j: int| 0 <= i < j < times.len() ==> times[i] <= times[j],
    ensures
        ({
            let end = run_permits(t, times);
            &&& end.1 * TOKEN_UNITS <= t.tokens_units + t.capacity * (end.0.last_refill_ms
                - t.last_refill_ms)
            &&& end.0.last_refill_ms == if times.len() == 0 {
                t.last_refill_ms as int
            } else if times[times.len() - 1] > t.last_refill_ms {
                times[times.len() - 1] as int
            } else {
                t.last_refill_ms as int
            }
            &&& end.0.wf()
        }),
    decreases times.len(),
{
    if times.len() == 0 {
    } else {
        let t1 = t.stepped(times[0]);
        lemma_step_bound(t, times[0]);
        let rest = times.drop_first();
        assert forall|i: int| 0 <= i < rest.len() implies t1.last_refill_ms <= #[trigger] rest[i] by {
            assert(rest[i] == times[i + 1]);
            assert(times[0] <= times[i + 1]);
        }
        assert forall|i: int, j: int| 0 <= i < j < rest.len() implies rest[i] <= rest[j] by {
            assert(rest[i] == times[i + 1] && rest[j] == times[j + 1]);
        }
        lemma_throttle_window_bound(t1, rest);
        let end = run_permits(t, times);
        let endr = run_permits(t1, rest);
        assert(end.0 == endr.0 && end.1 == endr.1 + if t.granted(times[0]) { 1int } else { 0 });
        let lr0 = t.last_refill_ms as int;
        let lr1 = t1.last_refill_ms as int;
        let lrend = end.0.last_refill_ms as int;
        assert(t.capacity * (lr1 - lr0) + t.capacity * (lrend - lr1) == t.capacity * (lrend - lr0))
            by (nonlinear_arith);
        if rest.len() > 0 {
            assert(rest[rest.len() - 1] == times[times.len() - 1]);
            assert(lr1 <= lrend);
        } else {
            assert(endr.0 == t1);
        }
        let g: int = if t.granted(times[0]) {
            1
        } else {
            0
        };
        assert(end.1 == endr.1 + g);
        assert(end.1 * TOKEN_UNITS == endr.1 * TOKEN_UNITS + g * TOKEN_UNITS) by (nonlinear_arith)
            requires
                end.1 == endr.1 + g,
        ;
    }
}

/// Throttle minute law: within one minute of the bucket's refill stamp, a
/// full bucket and a full minute of refill together never allow more than
/// twice the capacity — and never more than `capacity` grants beyond the
/// tokens that were actually present.
pub proof fn lemma_throttle_minute_bound(t: Throttle, times: Seq<u64>)
    requires
        t.wf(),
        forall|i: int| 0 <= i < times.len() ==> t.last_refill_ms <= #[trigger] times[i]
            <= t.last_refill_ms + 60_000,
        forall|i: int, j: int| 0 <= i < j < times.len() ==> times[i] <= times[j],
    ensures
        run_permits(t, times).1 <= 2 * t.capacity,
{
    lemma_throttle_window_bound(t, times);
    let end = run_permits(t, times);
    let elapsed = end.0.last_refill_ms - t.last_refill_ms;
    assert(elapsed <= 60_000);
    assert(t.capacity * elapsed <= t.capacity * 60_000) by (nonlinear_arith)
        requires
            elapsed <= 60_000,
            t.capacity >= 1,
    ;
    assert(end.1 * 60_000 <= t.capacity * 60_000 + t.capacity * 60_000);
    assert(end.1 <= 2 * t.capacity) by (nonlinear_arith)
        requires
            end.1 * 60_000 <= t.capacity * 60_000 + t.capacity * 60_000,
    ;
}

} // verus!
