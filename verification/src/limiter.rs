//! Token-bucket rate limiter.
//!
//! The bucket holds up to `rate` tokens (the burst capacity), accrues
//! `rate` tokens per second continuously, and admission consumes one token.
//! Token levels are kept scaled by `NANOS_PER_SEC`, so accrual over a span
//! of `d` nanoseconds is exactly `d * rate` scaled units and no fractions
//! are lost.

use vstd::prelude::*;

verus! {

/// Nanoseconds per second; also the scaled size of one token.
pub const NANOS_PER_SEC: u64 = 1_000_000_000;

/// Token-bucket state. `level` is the token level scaled by
/// `NANOS_PER_SEC`; `stamp` is the nanosecond timestamp of the last update.
pub struct TokenBucket {
    /// Tokens accrued per second; also the burst capacity in tokens.
    pub rate: u32,
    /// Current level, in scaled units (one token = `NANOS_PER_SEC` units).
    pub level: u64,
    /// Time of the last update, in nanoseconds.
    pub stamp: u64,
}

/// The bucket's capacity in scaled units: `rate` whole tokens.
pub open spec fn capacity(rate: int) -> int {
    rate * (NANOS_PER_SEC as int)
}

/// Level after accruing from `stamp` to `now` and capping at capacity.
pub open spec fn refilled_level(rate: int, level: int, stamp: int, now: int) -> int {
    vstd::math::min(capacity(rate), level + (now - stamp) * rate)
}

/// Whether a request at `now` is admitted: a whole token is available
/// after accrual.
pub open spec fn step_admits(rate: int, level: int, stamp: int, now: int) -> bool {
    refilled_level(rate, level, stamp, now) >= NANOS_PER_SEC
}

/// Level after a request at `now`: accrue, then consume one token if one
/// whole token is available.
pub open spec fn step_level(rate: int, level: int, stamp: int, now: int) -> int {
    let l = refilled_level(rate, level, stamp, now);
    if l >= NANOS_PER_SEC {
        l - NANOS_PER_SEC
    } else {
        l
    }
}

impl TokenBucket {
    /// The bucket is well formed: a positive rate, and a level at or
    /// below capacity.
    pub open spec fn wf(self) -> bool {
        &&& 1 <= self.rate
        &&& self.level <= capacity(self.rate as int)
    }

    /// A fresh bucket starts full, so a burst of up to `rate` jobs is
    /// admitted immediately.
    pub fn new(rate: u32, now: u64) -> (b: TokenBucket)
        requires
            rate >= 1,
        ensures
            b.wf(),
            b.rate == rate,
            b.stamp == now,
            b.level == capacity(rate as int),
    {
        proof {
            assert((rate as int) * (NANOS_PER_SEC as int) <= (u32::MAX as int) * (NANOS_PER_SEC
                as int)) by (nonlinear_arith)
                requires
                    rate <= u32::MAX,
            ;
        }
        TokenBucket { rate, level: rate as u64 * NANOS_PER_SEC, stamp: now }
    }

    /// Accrues tokens up to `now` and caps the level at capacity.
    pub fn refill(&mut self, now: u64)
        requires
            old(self).wf(),
            old(self).stamp <= now,
        ensures
            final(self).wf(),
            final(self).rate == old(self).rate,
            final(self).stamp == now,
            final(self).level == refilled_level(
                old(self).rate as int,
                old(self).level as int,
                old(self).stamp as int,
                now as int,
            ),
    {
        let rate64: u64 = self.rate as u64;
        proof {
            assert((rate64 as int) * (NANOS_PER_SEC as int) <= (u32::MAX as int) * (NANOS_PER_SEC
                as int)) by (nonlinear_arith)
                requires
                    rate64 <= u32::MAX,
            ;
        }
        let cap: u64 = rate64 * NANOS_PER_SEC;
        let delta: u64 = now - self.stamp;
        if delta >= NANOS_PER_SEC {
            proof {
                assert((delta as int) * (rate64 as int) >= (NANOS_PER_SEC as int) * (rate64
                    as int)) by (nonlinear_arith)
                    requires
                        delta >= NANOS_PER_SEC,
                        rate64 >= 1,
                ;
            }
            self.level = cap;
        } else {
            proof {
                assert((delta as int) * (rate64 as int) + (rate64 as int) <= (rate64 as int) * (
                NANOS_PER_SEC as int)) by (nonlinear_arith)
                    requires
                        delta < NANOS_PER_SEC,
                        rate64 >= 1,
                ;
            }
            let accrued: u64 = delta * rate64;
            let sum: u64 = if self.level > cap - accrued {
                cap
            } else {
                self.level + accrued
            };
            self.level = sum;
        }
        self.stamp = now;
    }

    /// Admits a request at `now` when a whole token is available after
    /// accrual, consuming the token; otherwise leaves the level as accrued.
    pub fn try_admit(&mut self, now: u64) -> (admitted: bool)
        requires
            old(self).wf(),
            old(self).stamp <= now,
        ensures
            final(self).wf(),
            final(self).rate == old(self).rate,
            final(self).stamp == now,
            admitted == step_admits(
                old(self).rate as int,
                old(self).level as int,
                old(self).stamp as int,
                now as int,
            ),
            final(self).level == step_level(
                old(self).rate as int,
                old(self).level as int,
                old(self).stamp as int,
                now as int,
            ),
    {
        self.refill(now);
        if self.level >= NANOS_PER_SEC {
            self.level = self.level - NANOS_PER_SEC;
            true
        } else {
            false
        }
    }

    /// Nanoseconds to wait from `stamp` until one whole token is available:
    /// zero when one already is, else the least span whose accrual reaches
    /// a token.
    pub fn wait_nanos(&self) -> (w: u64)
        requires
            self.wf(),
        ensures
            step_admits(self.rate as int, self.level as int, self.stamp as int, self.stamp + w),
            w > 0 ==> !step_admits(
                self.rate as int,
                self.level as int,
                self.stamp as int,
                self.stamp + w - 1,
            ),
            w <= NANOS_PER_SEC,
    {
        if self.level >= NANOS_PER_SEC {
            proof {
                assert(refilled_level(
                    self.rate as int,
                    self.level as int,
                    self.stamp as int,
                    self.stamp as int,
                ) == self.level) by {
                    assert(capacity(self.rate as int) >= self.level);
                }
            }
            0
        } else {
            let rate64: u64 = self.rate as u64;
            let missing: u64 = NANOS_PER_SEC - self.level;
            let w: u64 = (missing + rate64 - 1) / rate64;
            proof {
                let r = self.rate as int;
                let m = missing as int;
                let n = m + r - 1;
                let wi = w as int;
                vstd::arithmetic::div_mod::lemma_fundamental_div_mod(n, r);
                vstd::arithmetic::div_mod::lemma_mod_bound(n, r);
                assert(wi * r == r * (n / r)) by (nonlinear_arith)
                    requires
                        wi == n / r,
                ;
                assert(wi * r >= m);
                assert((wi - 1) * r == wi * r - r) by (nonlinear_arith);
                assert((wi - 1) * r < m);
                assert(wi <= NANOS_PER_SEC) by (nonlinear_arith)
                    requires
                        wi * r >= m,
                        (wi - 1) * r < m,
                        1 <= m <= NANOS_PER_SEC,
                        r >= 1,
                ;
                assert(capacity(r) >= NANOS_PER_SEC) by (nonlinear_arith)
                    requires
                        r >= 1,
                ;
                assert(self.level + wi * r >= NANOS_PER_SEC);
                assert(self.level + (wi - 1) * r < NANOS_PER_SEC);
            }
            w
        }
    }
}

/// Runs the bucket over a trace of request times: the resulting
/// `(level, stamp, admitted)` after all requests, in order.
pub open spec fn run_requests(rate: int, level: int, stamp: int, times: Seq<int>) -> (int, int, nat)
    decreases times.len(),
{
    if times.len() == 0 {
        (level, stamp, 0)
    } else {
        let prev = run_requests(rate, level, stamp, times.drop_last());
        let t = times.last();
        (
            step_level(rate, prev.0, prev.1, t),
            t,
            prev.2 + if step_admits(rate, prev.0, prev.1, t) {
                1nat
            } else {
                0nat
            },
        )
    }
}

/// The times are nondecreasing and none precedes `stamp`.
pub open spec fn times_ordered(stamp: int, times: Seq<int>) -> bool {
    &&& forall|i: int| 0 <= i < times.len() ==> stamp <= #[trigger] times[i]
    &&& forall|i: int, j: int| 0 <= i <= j < times.len() ==> #[trigger] times[i] <= #[trigger] times[j]
}

/// Token-bucket admission bound: over any trace of requests, the tokens
/// spent plus the tokens left never exceed the starting level plus the
/// accrual over the elapsed span. With a full starting bucket this is the
/// classic bound `admitted <= burst + rate * elapsed-seconds`.
pub proof fn lemma_admission_bound(rate: int, level: int, stamp: int, times: Seq<int>)
    requires
        rate >= 1,
        0 <= level <= capacity(rate),
        times_ordered(stamp, times),
    ensures
        ({
            let end = run_requests(rate, level, stamp, times);
            &&& 0 <= end.0 <= capacity(rate)
            &&& end.1 == if times.len() == 0 { stamp } else { times.last() }
            &&& end.2 * (NANOS_PER_SEC as int) + end.0 <= level + (end.1 - stamp) * rate
        }),
    decreases times.len(),
{
    if times.len() > 0 {
        let prefix = times.drop_last();
        assert(times_ordered(stamp, prefix)) by {
            assert(forall|i: int| 0 <= i < prefix.len() ==> prefix[i] == #[trigger] times[i]);
        }
        lemma_admission_bound(rate, level, stamp, prefix);
        let prev = run_requests(rate, level, stamp, prefix);
        let t = times.last();
        assert(prev.1 <= t) by {
            if prefix.len() > 0 {
                assert(times[prefix.len() - 1] <= times[times.len() - 1]);
            }
        }
        let accrued = refilled_level(rate, prev.0, prev.1, t);
        assert((t - prev.1) * rate >= 0) by (nonlinear_arith)
            requires
                t >= prev.1,
                rate >= 1,
        ;
        assert(accrued <= prev.0 + (t - prev.1) * rate);
        let end = run_requests(rate, level, stamp, times);
        assert(end.2 * (NANOS_PER_SEC as int) + end.0 <= prev.2 * (NANOS_PER_SEC as int) + prev.0
            + (t - prev.1) * rate);
        assert((prev.1 - stamp) * rate + (t - prev.1) * rate == (t - stamp) * rate)
            by (nonlinear_arith);
    }
}

/// Running the bucket over a concatenated trace is running it over the
/// first part, then over the second from the state the first part left.
pub proof fn lemma_run_requests_concat(rate: int, level: int, stamp: int, a: Seq<int>, b: Seq<int>)
    ensures
        ({
            let mid = run_requests(rate, level, stamp, a);
            let end = run_requests(rate, mid.0, mid.1, b);
            run_requests(rate, level, stamp, a + b) == (end.0, end.1, (mid.2 + end.2) as nat)
        }),
    decreases b.len(),
{
    let mid = run_requests(rate, level, stamp, a);
    if b.len() == 0 {
        assert(a + b =~= a);
    } else {
        lemma_run_requests_concat(rate, level, stamp, a, b.drop_last());
        assert((a + b).drop_last() =~= a + b.drop_last());
        assert((a + b).last() == b.last());
    }
}

/// Rate-limit over any window: whatever requests came before, of the
/// requests inside the window at most `burst + rate * span` are admitted,
/// where the span runs from the state the earlier requests left to the
/// window's last request.
pub proof fn lemma_window_admissions_bounded(
    rate: int,
    level: int,
    stamp: int,
    before: Seq<int>,
    window: Seq<int>,
)
    requires
        rate >= 1,
        0 <= level <= capacity(rate),
        times_ordered(stamp, before + window),
        window.len() > 0,
    ensures
        ({
            let mid = run_requests(rate, level, stamp, before);
            let all = run_requests(rate, level, stamp, before + window);
            (all.2 - mid.2) * (NANOS_PER_SEC as int) <= rate * (NANOS_PER_SEC as int) + (
            window.last() - mid.1) * rate
        }),
{
    let whole = before + window;
    assert forall|i: int| 0 <= i < before.len() implies stamp <= #[trigger] before[i] by {
        assert(before[i] == whole[i]);
    }
    assert forall|i: int, j: int|
        0 <= i <= j < before.len() implies #[trigger] before[i] <= #[trigger] before[j] by {
        assert(before[i] == whole[i]);
        assert(before[j] == whole[j]);
    }
    lemma_admission_bound(rate, level, stamp, before);
    let mid = run_requests(rate, level, stamp, before);
    assert forall|i: int| 0 <= i < window.len() implies mid.1 <= #[trigger] window[i] by {
        assert(window[i] == whole[before.len() + i]);
        if before.len() > 0 {
            assert(before.last() == whole[before.len() - 1]);
            assert(whole[before.len() - 1] <= whole[before.len() + i]);
        } else {
            assert(stamp <= whole[before.len() + i]);
        }
    }
    assert forall|i: int, j: int|
        0 <= i <= j < window.len() implies #[trigger] window[i] <= #[trigger] window[j] by {
        assert(window[i] == whole[before.len() + i]);
        assert(window[j] == whole[before.len() + j]);
        assert(whole[before.len() + i] <= whole[before.len() + j]);
    }
    lemma_admissions_rate_limited(rate, mid.0, mid.1, window);
    lemma_run_requests_concat(rate, level, stamp, before, window);
}

/// Rate-limit property: starting from any well-formed level, the number of
/// requests admitted by an end time `t_end` is at most the burst capacity
/// (`rate` tokens) plus `rate` per elapsed second.
pub proof fn lemma_admissions_rate_limited(rate: int, level: int, stamp: int, times: Seq<int>)
    requires
        rate >= 1,
        0 <= level <= capacity(rate),
        times_ordered(stamp, times),
        times.len() > 0,
    ensures
        run_requests(rate, level, stamp, times).2 * (NANOS_PER_SEC as int) <= rate * (NANOS_PER_SEC
            as int) + (times.last() - stamp) * rate,
{
    lemma_admission_bound(rate, level, stamp, times);
}

} // verus!
