//! Header-aware pacing of requests to metadata providers.
//!
//! The limiter keeps the pacing of its requests per minute (one request per
//! period, in bursts of one), from which the caller builds its `governor`
//! quota, and the state that the providers' rate-limit headers report. The
//! decisions of a wait (how long to honour `Retry-After`, whether to slow down
//! before a reset) are made here; the sleeping and the quota's own waiting
//! happen in the caller.

use vstd::prelude::*;
use crate::task::pow2;
use crate::text::{chars_of, parse_i64, parse_i64_spec, parse_u32, parse_u64, parse_unsigned_spec, string_of};

verus! {

/// Requests per minute when none is given (one request every 2.4 s).
pub const DEFAULT_RPM: u32 = 25;

/// Below this many remaining requests, a wait slows down.
pub const PROACTIVE_SLOWDOWN_THRESHOLD: u32 = 5;

/// Extra delay in seconds when few requests remain and the reset has passed.
pub const PROACTIVE_SLOWDOWN_SECS: u64 = 2;

/// Backoff in seconds after the first rate-limited response.
pub const INITIAL_BACKOFF_SECS: u64 = 2;

/// Longest backoff or slowdown in seconds.
pub const MAX_BACKOFF_SECS: u64 = 60;

/// Nanoseconds in a minute.
pub const NANOS_PER_MINUTE: u64 = 60_000_000_000;

/// The raw values of the rate-limit headers of a response, where present and
/// readable as text.
#[derive(Debug)]
pub struct RateLimitHeaders {
    /// `X-RateLimit-Remaining`.
    pub remaining: Option<String>,
    /// `X-RateLimit-Reset`, a Unix timestamp in seconds.
    pub reset: Option<String>,
    /// `Retry-After`, in seconds.
    pub retry_after: Option<String>,
}

/// What the limiter knows.
pub struct LimiterView {
    pub name: Seq<char>,
    /// Time between two permitted requests.
    pub period_nanos: nat,
    /// How many requests may go at once.
    pub burst: u32,
    pub remaining: u32,
    pub reset_at: i64,
    pub retry_after: u64,
}

/// Header-aware rate limiter for a metadata provider.
#[derive(Debug)]
pub struct MetadataRateLimiter {
    name: String,
    period_nanos: u64,
    burst: u32,
    /// Remaining requests from `X-RateLimit-Remaining`.
    remaining: u32,
    /// Unix timestamp (seconds) when the limit resets, from `X-RateLimit-Reset`.
    reset_at: i64,
    /// Seconds to wait before the next request, from `Retry-After` or a backoff.
    retry_after: u64,
}

impl View for MetadataRateLimiter {
    type V = LimiterView;

    closed spec fn view(&self) -> LimiterView {
        LimiterView {
            name: self.name@,
            period_nanos: self.period_nanos as nat,
            burst: self.burst,
            remaining: self.remaining,
            reset_at: self.reset_at,
            retry_after: self.retry_after,
        }
    }
}

/// Time between two requests at `rpm` requests per minute; zero counts as one.
pub open spec fn period_for(rpm: u32) -> nat {
    let r: nat = if rpm == 0 { 1 } else { rpm as nat };
    NANOS_PER_MINUTE as nat / r
}

/// Backoff after the given rate-limited attempt: 2 seconds doubled per attempt,
/// at most 60.
pub open spec fn backoff_secs(attempt: nat) -> nat {
    let b: int = INITIAL_BACKOFF_SECS * pow2(attempt);
    (if b < MAX_BACKOFF_SECS { b } else { MAX_BACKOFF_SECS as int }) as nat
}

/// The extra wait before a request, given the time now: when fewer than 5
/// requests remain, until one second after the reset (at most 60 seconds), or
/// 2 seconds when the reset has passed.
pub open spec fn proactive_delay_spec(v: LimiterView, now: i64) -> Option<u64> {
    if v.remaining < PROACTIVE_SLOWDOWN_THRESHOLD {
        if v.reset_at > now {
            let w = v.reset_at - now + 1;
            Some((if w < MAX_BACKOFF_SECS { w } else { MAX_BACKOFF_SECS as int }) as u64)
        } else {
            Some(PROACTIVE_SLOWDOWN_SECS)
        }
    } else {
        None
    }
}

/// A header value, where present and a number of the given kind, or the value
/// kept before.
pub open spec fn header_u32(h: Option<String>, before: u32) -> u32 {
    match h {
        Some(s) => match parse_unsigned_spec(s@, u32::MAX as nat) {
            Some(v) => v as u32,
            None => before,
        },
        None => before,
    }
}

pub open spec fn header_u64(h: Option<String>, before: u64) -> u64 {
    match h {
        Some(s) => match parse_unsigned_spec(s@, u64::MAX as nat) {
            Some(v) => v as u64,
            None => before,
        },
        None => before,
    }
}

pub open spec fn header_i64(h: Option<String>, before: i64) -> i64 {
    match h {
        Some(s) => match parse_i64_spec(s@) {
            Some(v) => v as i64,
            None => before,
        },
        None => before,
    }
}

impl MetadataRateLimiter {
    /// A limiter for `rpm` requests per minute (at least one): one request per
    /// period, in bursts of one, with no header state yet: unlimited remaining
    /// requests, no reset, no retry delay.
    pub fn new(name: &str, rpm: u32) -> (r: Self)
        ensures
            r@.name == name@,
            r@.period_nanos == period_for(rpm),
            r@.period_nanos > 0,
            r@.burst == 1,
            r@.remaining == u32::MAX,
            r@.reset_at == 0,
            r@.retry_after == 0,
    {
        let rpm = if rpm < 1 { 1 } else { rpm };
        let period_nanos: u64 = NANOS_PER_MINUTE / (rpm as u64);
        assert(period_nanos > 0) by (nonlinear_arith)
            requires period_nanos == NANOS_PER_MINUTE / (rpm as u64), 1 <= rpm <= u32::MAX;
        MetadataRateLimiter {
            name: string_of(chars_of(name).as_slice()),
            period_nanos,
            burst: 1,
            remaining: u32::MAX,
            reset_at: 0,
            retry_after: 0,
        }
    }

    /// A limiter at the default rate of 25 requests per minute.
    pub fn default_rpm(name: &str) -> (r: Self)
        ensures
            r@.name == name@,
            r@.period_nanos == period_for(DEFAULT_RPM),
            r@.burst == 1,
            r@.remaining == u32::MAX,
            r@.reset_at == 0,
            r@.retry_after == 0,
    {
        Self::new(name, DEFAULT_RPM)
    }

    pub fn name(&self) -> (r: &str)
        ensures
            r@ == self@.name,
    {
        self.name.as_str()
    }

    /// Time between two permitted requests, in nanoseconds.
    pub fn period_nanos(&self) -> (r: u64)
        ensures
            r == self@.period_nanos,
    {
        self.period_nanos
    }

    /// How many requests may go at once.
    pub fn burst(&self) -> (r: u32)
        ensures
            r == self@.burst,
    {
        self.burst
    }

    pub fn remaining(&self) -> (r: u32)
        ensures
            r == self@.remaining,
    {
        self.remaining
    }

    pub fn reset_at(&self) -> (r: i64)
        ensures
            r == self@.reset_at,
    {
        self.reset_at
    }

    pub fn retry_after(&self) -> (r: u64)
        ensures
            r == self@.retry_after,
    {
        self.retry_after
    }

    /// Takes in the rate-limit headers of a response: each one that is present
    /// and a number of its kind replaces what was known; the others leave it.
    pub fn update_from_headers(&mut self, headers: &RateLimitHeaders)
        ensures
            final(self)@.name == old(self)@.name,
            final(self)@.period_nanos == old(self)@.period_nanos,
            final(self)@.burst == old(self)@.burst,
            final(self)@.remaining == header_u32(headers.remaining, old(self)@.remaining),
            final(self)@.reset_at == header_i64(headers.reset, old(self)@.reset_at),
            final(self)@.retry_after == header_u64(headers.retry_after, old(self)@.retry_after),
    {
        if let Some(v) = &headers.remaining {
            if let Some(n) = parse_u32(v.as_str()) {
                self.remaining = n;
            }
        }
        if let Some(v) = &headers.reset {
            if let Some(ts) = parse_i64(v.as_str()) {
                self.reset_at = ts;
            }
        }
        if let Some(v) = &headers.retry_after {
            if let Some(secs) = parse_u64(v.as_str()) {
                self.retry_after = secs;
            }
        }
    }

    /// Sets the backoff after a rate-limited response: 2 seconds doubled for
    /// each earlier attempt, at most 60.
    pub fn handle_rate_limited(&mut self, attempt: u32)
        ensures
            final(self)@.retry_after == backoff_secs(attempt as nat),
            final(self)@.name == old(self)@.name,
            final(self)@.period_nanos == old(self)@.period_nanos,
            final(self)@.burst == old(self)@.burst,
            final(self)@.remaining == old(self)@.remaining,
            final(self)@.reset_at == old(self)@.reset_at,
    {
        let mut b: u64 = INITIAL_BACKOFF_SECS;
        let mut i: u32 = 0;
        while i < attempt && b < MAX_BACKOFF_SECS
            invariant
                i <= attempt,
                b == INITIAL_BACKOFF_SECS * pow2(i as nat),
                b <= 2 * MAX_BACKOFF_SECS,
            decreases attempt - i,
        {
            b = b * 2;
            i = i + 1;
        }
        proof {
            lemma_backoff_capped(i as nat, attempt as nat);
        }
        self.retry_after = if b < MAX_BACKOFF_SECS { b } else { MAX_BACKOFF_SECS };
    }

    /// The `Retry-After` wait owed before the next request, if any.
    pub fn retry_delay(&self) -> (r: Option<u64>)
        ensures
            r == (if self@.retry_after > 0 { Some(self@.retry_after) } else { None::<u64> }),
    {
        if self.retry_after > 0 {
            Some(self.retry_after)
        } else {
            None
        }
    }

    /// Forgets the `Retry-After` wait once it has been served.
    pub fn clear_retry_after(&mut self)
        ensures
            final(self)@.retry_after == 0,
            final(self)@.name == old(self)@.name,
            final(self)@.period_nanos == old(self)@.period_nanos,
            final(self)@.burst == old(self)@.burst,
            final(self)@.remaining == old(self)@.remaining,
            final(self)@.reset_at == old(self)@.reset_at,
    {
        self.retry_after = 0;
    }

    /// The slowdown owed before the next request at time `now` (Unix seconds).
    pub fn proactive_delay(&self, now: i64) -> (r: Option<u64>)
        ensures
            r == proactive_delay_spec(self@, now),
    {
        if self.remaining < PROACTIVE_SLOWDOWN_THRESHOLD {
            if self.reset_at > now {
                let w: i128 = (self.reset_at as i128) - (now as i128) + 1;
                if w < MAX_BACKOFF_SECS as i128 {
                    Some(w as u64)
                } else {
                    Some(MAX_BACKOFF_SECS)
                }
            } else {
                Some(PROACTIVE_SLOWDOWN_SECS)
            }
        } else {
            None
        }
    }
}

proof fn lemma_pow2_monotone(a: nat, b: nat)
    requires
        a <= b,
    ensures
        pow2(a) <= pow2(b),
        pow2(a) >= 1,
    decreases b,
{
    if b > a {
        lemma_pow2_monotone(a, (b - 1) as nat);
    } else if a > 0 {
        lemma_pow2_monotone((a - 1) as nat, (a - 1) as nat);
    }
}

proof fn lemma_backoff_capped(i: nat, attempt: nat)
    requires
        i <= attempt,
        i < attempt ==> INITIAL_BACKOFF_SECS * pow2(i) >= MAX_BACKOFF_SECS,
    ensures
        backoff_secs(attempt) == (if INITIAL_BACKOFF_SECS * pow2(i) < MAX_BACKOFF_SECS {
            INITIAL_BACKOFF_SECS * pow2(i)
        } else {
            MAX_BACKOFF_SECS as int
        }),
{
    lemma_pow2_monotone(i, attempt);
}

/// The backoff is at least 2 seconds and at most 60, doubles with each attempt
/// until it reaches 60, and never shrinks as attempts grow.
pub proof fn law_backoff_doubles_to_cap(a: nat, b: nat)
    requires
        a <= b,
    ensures
        INITIAL_BACKOFF_SECS <= backoff_secs(a) <= MAX_BACKOFF_SECS,
        backoff_secs(a) <= backoff_secs(b),
        2 * backoff_secs(a) < MAX_BACKOFF_SECS ==> backoff_secs(a + 1) == 2 * backoff_secs(a),
{
    lemma_pow2_monotone(a, b);
    lemma_pow2_monotone(0, a);
    assert(pow2(a + 1) == 2 * pow2(a));
}

} // verus!
