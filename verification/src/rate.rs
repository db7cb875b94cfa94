//! Token-bucket rate limiting of probes across all workers.
//!
//! The bucket holds up to `rate` tokens and refills at `rate` tokens per
//! second; each probe takes one token. Tokens are counted in billionths so
//! that refills by elapsed nanoseconds are exact.

use vstd::prelude::*;

verus! {

/// Billionths of a token per token (and nanoseconds per second).
pub const TOKEN_SCALE: u64 = 1_000_000_000;

/// The state of a bucket: tokens held (in billionths), refill rate (tokens
/// per second) and the clock reading of the last refill (nanoseconds).
pub struct LimiterState {
    pub tokens: nat,
    pub rate: nat,
    pub last_refill: nat,
}

/// Capacity of a bucket with this rate, in billionths of a token.
pub open spec fn capacity(rate: nat) -> nat {
    rate * (TOKEN_SCALE as nat)
}

/// A bucket state that the limiter can be in.
pub open spec fn valid_state(s: LimiterState) -> bool {
    s.rate >= 1 && s.tokens <= capacity(s.rate)
}

/// Nanoseconds from `last` to `now`; zero if the clock reads earlier.
pub open spec fn elapsed(last: nat, now: nat) -> nat {
    if now >= last { (now - last) as nat } else { 0 }
}

/// Tokens after refilling for the time elapsed since the last refill,
/// capped at the capacity.
pub open spec fn refilled(s: LimiterState, now: nat) -> nat {
    let t = s.tokens + elapsed(s.last_refill, now) * s.rate;
    if t > capacity(s.rate) { capacity(s.rate) } else { t }
}

/// One attempt at time `now`: refill, record `now` as the last refill, and
/// take a whole token if there is one.
pub open spec fn acquire_step(s: LimiterState, now: nat) -> (LimiterState, bool) {
    let t = refilled(s, now);
    if t >= TOKEN_SCALE {
        (LimiterState { tokens: (t - TOKEN_SCALE) as nat, rate: s.rate, last_refill: now }, true)
    } else {
        (LimiterState { tokens: t, rate: s.rate, last_refill: now }, false)
    }
}

/// A token-bucket rate limiter.
pub struct RateLimiter {
    tokens: u64,
    rate: u32,
    last_refill: u64,
}

impl View for RateLimiter {
    type V = LimiterState;

    closed spec fn view(&self) -> LimiterState {
        LimiterState {
            tokens: self.tokens as nat,
            rate: self.rate as nat,
            last_refill: self.last_refill as nat,
        }
    }
}

impl RateLimiter {
    #[verifier::type_invariant]
    spec fn inv(self) -> bool {
        valid_state(self@)
    }

    /// A full bucket for `rate` probes per second, created at clock reading
    /// `now_nanos`; `None` for a rate of 0, which means no limit.
    pub fn new(rate: u32, now_nanos: u64) -> (r: Option<Self>)
        ensures
            (r is None) == (rate == 0),
            r matches Some(l) ==> (l@ == LimiterState {
                tokens: capacity(rate as nat),
                rate: rate as nat,
                last_refill: now_nanos as nat,
            }),
            r matches Some(l) ==> valid_state(l@),
    {
        if rate == 0 {
            None
        } else {
            let cap: u64 = (rate as u64) * TOKEN_SCALE;
            Some(RateLimiter { tokens: cap, rate, last_refill: now_nanos })
        }
    }

    /// Probes per second.
    pub fn rate(&self) -> (r: u32)
        ensures
            r == self@.rate,
    {
        self.rate
    }

    /// One attempt to take a token at clock reading `now_nanos`: refills the
    /// bucket for the elapsed time and takes a token if a whole one is there.
    pub fn try_acquire(&mut self, now_nanos: u64) -> (r: bool)
        ensures
            (final(self)@, r) == acquire_step(old(self)@, now_nanos as nat),
            valid_state(final(self)@),
    {
        proof {
            use_type_invariant(&*self);
        }
        let elapsed: u64 = if now_nanos >= self.last_refill { now_nanos - self.last_refill } else { 0 };
        let cap: u64 = (self.rate as u64) * TOKEN_SCALE;
        assert((elapsed as u128) * (self.rate as u128) <= 0xffff_ffff_ffff_ffffu128 * 0xffff_ffffu128)
            by (nonlinear_arith)
            requires elapsed <= 0xffff_ffff_ffff_ffffu64, self.rate <= 0xffff_ffffu32;
        let sum: u128 = (self.tokens as u128) + (elapsed as u128) * (self.rate as u128);
        let t: u64 = if sum > cap as u128 { cap } else { sum as u64 };
        let acquired = t >= TOKEN_SCALE;
        let tokens: u64 = if acquired { t - TOKEN_SCALE } else { t };
        *self = RateLimiter { tokens, rate: self.rate, last_refill: now_nanos };
        acquired
    }
}

/// The states and the number of tokens taken over attempts at the clock
/// readings `times`, in order, starting from `s`.
pub open spec fn run(s: LimiterState, times: Seq<nat>) -> (LimiterState, nat)
    decreases times.len(),
{
    if times.len() == 0 {
        (s, 0)
    } else {
        let prev = run(s, times.drop_last());
        let step = acquire_step(prev.0, times.last());
        (step.0, prev.1 + if step.1 { 1nat } else { 0nat })
    }
}

/// The clock readings are nondecreasing and none precedes `start`.
pub open spec fn monotone_from(start: nat, times: Seq<nat>) -> bool {
    &&& forall|i: int, j: int| 0 <= i <= j < times.len() ==> times[i] <= times[j]
    &&& forall|i: int| 0 <= i < times.len() ==> start <= #[trigger] times[i]
}

/// The clock reading of the last attempt, or `start` if there is none.
pub open spec fn end_time(start: nat, times: Seq<nat>) -> nat {
    if times.len() == 0 { start } else { times.last() }
}

/// Rate bound: over any run of attempts on a monotonic clock, the tokens
/// taken plus those left never exceed the tokens held at the start plus
/// `rate` per second elapsed. From a full bucket, at most
/// `rate + rate * seconds` probes get through in any span of `seconds`.
pub proof fn lemma_rate_bound(s: LimiterState, times: Seq<nat>)
    requires
        valid_state(s),
        monotone_from(s.last_refill, times),
    ensures
        valid_state(run(s, times).0),
        run(s, times).0.rate == s.rate,
        run(s, times).0.last_refill == end_time(s.last_refill, times),
        run(s, times).1 * TOKEN_SCALE + run(s, times).0.tokens
            <= s.tokens + s.rate * (end_time(s.last_refill, times) - s.last_refill),
    decreases times.len(),
{
    if times.len() > 0 {
        let init = times.drop_last();
        assert(monotone_from(s.last_refill, init));
        lemma_rate_bound(s, init);
        let prev = run(s, init);
        let now = times.last();
        let before = end_time(s.last_refill, init);
        assert(before <= now);
        let e = elapsed(prev.0.last_refill, now);
        assert(e == now - before);
        let t = refilled(prev.0, now);
        assert(t <= prev.0.tokens + e * s.rate);
        assert(s.rate * (before - s.last_refill) + s.rate * e == s.rate * (now - s.last_refill))
            by (nonlinear_arith)
            requires e == now - before, before >= s.last_refill;
        assert(capacity(s.rate) == s.rate * TOKEN_SCALE);
    }
}

/// Progress: an attempt succeeds once the bucket holds a whole token after
/// refilling, in particular once a full token's worth of time
/// (`TOKEN_SCALE / rate` nanoseconds) has passed since the last refill.
pub proof fn lemma_acquire_succeeds(s: LimiterState, now: nat)
    requires
        valid_state(s),
        s.tokens >= TOKEN_SCALE || elapsed(s.last_refill, now) * s.rate >= TOKEN_SCALE,
    ensures
        acquire_step(s, now).1,
{
    assert(capacity(s.rate) >= TOKEN_SCALE) by (nonlinear_arith)
        requires s.rate >= 1, capacity(s.rate) == s.rate * TOKEN_SCALE;
}

} // verus!
