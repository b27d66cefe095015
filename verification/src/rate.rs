//! Token bucket that limits the rate of all downloads together.
//!
//! Tokens are counted in billionths of a byte, so that a rate in bytes per second and
//! a time in nanoseconds multiply without rounding.

use vstd::prelude::*;

use crate::conns::{elapsed, elapsed_since};

verus! {

/// Smallest capacity of the bucket, in bytes.
pub const MIN_BURST: u64 = 65_536;
/// Longest wait before a request looks again, in nanoseconds.
pub const MAX_SLEEP: u64 = 50_000_000;
/// Shortest wait, in nanoseconds.
pub const MIN_SLEEP: u64 = 1_000_000;
/// Tokens of one byte.
pub const TOKENS_PER_BYTE: u64 = 1_000_000_000;

/// A shared limit.
pub struct RateLimiter {
    /// Bytes per second; zero means no limit.
    pub rate: u64,
    pub tokens: u128,
    /// Time of the last refill.
    pub last: u64,
}

impl RateLimiter {
    /// The tokens stay within the largest capacity there is.
    pub open spec fn wf(&self) -> bool {
        self.tokens <= u64::MAX * TOKENS_PER_BYTE
    }

    /// Capacity of the bucket in tokens: one second of traffic, but not too little.
    pub open spec fn capacity(&self) -> int {
        (if self.rate < MIN_BURST { MIN_BURST } else { self.rate }) * TOKENS_PER_BYTE
    }

    /// Tokens after a refill at `now`.
    pub open spec fn refilled(&self, now: u64) -> int {
        let grown = self.tokens + elapsed(now, self.last) * self.rate;
        if grown < self.capacity() { grown } else { self.capacity() }
    }

    /// Wait for a number of missing tokens, in nanoseconds.
    pub open spec fn wait_for(&self, missing: int) -> int {
        let w = missing / self.rate as int;
        if w < MIN_SLEEP {
            MIN_SLEEP as int
        } else if w > MAX_SLEEP {
            MAX_SLEEP as int
        } else {
            w
        }
    }

    /// Whether the tokens of `n` bytes are there at `now`. Without a limit they always
    /// are.
    pub open spec fn serves(&self, n: u64, now: u64) -> bool {
        n == 0 || self.rate == 0 || self.refilled(now) >= n * TOKENS_PER_BYTE
    }

    /// The limit after a request for `n` bytes at `now`: the tokens are refilled, and
    /// taken if there are enough. Without a limit nothing changes.
    pub open spec fn after(&self, n: u64, now: u64) -> RateLimiter {
        if n == 0 || self.rate == 0 {
            *self
        } else {
            RateLimiter {
                tokens: (if self.serves(n, now) {
                    self.refilled(now) - n * TOKENS_PER_BYTE
                } else {
                    self.refilled(now)
                }) as u128,
                last: now,
                ..*self
            }
        }
    }

    /// The answer to a request for `n` bytes at `now`: nothing if it is granted, else the
    /// wait before the next try in nanoseconds.
    pub open spec fn told(&self, n: u64, now: u64) -> Option<u64> {
        if self.serves(n, now) {
            None
        } else {
            Some(self.wait_for(n * TOKENS_PER_BYTE - self.refilled(now)) as u64)
        }
    }

    /// A limit that starts with a full small bucket.
    pub fn new(rate: u64, now: u64) -> (r: Self)
        ensures
            r.wf(),
            r.rate == rate,
            r.tokens == MIN_BURST * TOKENS_PER_BYTE,
            r.last == now,
    {
        RateLimiter { rate, tokens: 65_536_000_000_000, last: now }
    }

    /// Changes the limit.
    pub fn set_rate(&mut self, rate: u64)
        ensures
            final(self).rate == rate,
            final(self).tokens == old(self).tokens,
            final(self).last == old(self).last,
    {
        self.rate = rate;
    }

    /// The limit in bytes per second.
    pub fn rate(&self) -> (r: u64)
        ensures
            r == self.rate,
    {
        self.rate
    }

    /// Takes the tokens of `n` bytes. If there are too few, tells how long to wait
    /// before the next try, in nanoseconds. Without a limit nothing is taken.
    pub fn acquire(&mut self, n: u64, now: u64) -> (wait: Option<u64>)
        requires
            old(self).wf(),
        ensures
            final(self).wf(),
            *final(self) == old(self).after(n, now),
            wait == old(self).told(n, now),
    {
        if n == 0 || self.rate == 0 {
            return None;
        }
        let dt: u64 = elapsed_since(now, self.last);
        let ghost before = *self;
        let burst: u64 = if self.rate < MIN_BURST { MIN_BURST } else { self.rate };
        let cap: u128 = burst as u128 * 1_000_000_000u128;
        proof {
            assert(dt * self.rate <= u64::MAX * u64::MAX) by (nonlinear_arith)
                requires
                    0 <= dt <= u64::MAX,
                    0 <= self.rate <= u64::MAX,
            ;
            assert(0 <= dt * self.rate) by (nonlinear_arith)
                requires
                    0 <= dt,
                    0 <= self.rate,
            ;
        }
        let gained: u128 = dt as u128 * self.rate as u128;
        let have: u128 = if gained >= cap || self.tokens >= cap {
            cap
        } else if self.tokens + gained < cap {
            self.tokens + gained
        } else {
            cap
        };
        assert(have == before.refilled(now));
        self.last = now;
        let need: u128 = n as u128 * 1_000_000_000u128;
        if have >= need {
            self.tokens = have - need;
            return None;
        }
        self.tokens = have;
        let w: u128 = (need - have) / self.rate as u128;
        let wait: u64 = if w < MIN_SLEEP as u128 {
            MIN_SLEEP
        } else if w > MAX_SLEEP as u128 {
            MAX_SLEEP
        } else {
            w as u64
        };
        Some(wait)
    }
}

/// The limit after a number of requests, each of some bytes at some time.
pub open spec fn after_all(b: RateLimiter, requests: Seq<(u64, u64)>) -> RateLimiter
    decreases requests.len(),
{
    if requests.len() == 0 {
        b
    } else {
        after_all(b, requests.drop_last()).after(requests.last().0, requests.last().1)
    }
}

/// Bytes that a number of requests got in all.
pub open spec fn served(b: RateLimiter, requests: Seq<(u64, u64)>) -> int
    decreases requests.len(),
{
    if requests.len() == 0 {
        0
    } else {
        let (n, now) = requests.last();
        served(b, requests.drop_last()) + if after_all(b, requests.drop_last()).serves(n, now) {
            n as int
        } else {
            0
        }
    }
}

/// Whether requests come at times that do not run backwards.
pub open spec fn in_time(b: RateLimiter, requests: Seq<(u64, u64)>) -> bool {
    &&& forall|i: int, j: int| 0 <= i <= j < requests.len() ==> requests[i].1 <= requests[j].1
    &&& forall|i: int| 0 <= i < requests.len() ==> b.last <= requests[i].1
}

/// However many requests come, they get no more in all than the tokens that were there
/// at first and what the rate brought since.
pub proof fn law_rate_is_kept(b: RateLimiter, requests: Seq<(u64, u64)>)
    requires
        b.wf(),
        b.rate > 0,
        in_time(b, requests),
    ensures
        ({
            let end = after_all(b, requests);
            &&& end.wf()
            &&& end.rate == b.rate
            &&& b.last <= end.last
            &&& requests.len() > 0 ==> end.last <= requests.last().1
            &&& served(b, requests) * TOKENS_PER_BYTE + end.tokens <= b.tokens + (end.last - b.last)
                * b.rate
        }),
    decreases requests.len(),
{
    if requests.len() > 0 {
        let front = requests.drop_last();
        assert forall|i: int, j: int| 0 <= i <= j < front.len() implies front[i].1 <= front[j].1 by {
            assert(requests[i].1 <= requests[j].1);
        }
        assert forall|i: int| 0 <= i < front.len() implies b.last <= front[i].1 by {
            assert(b.last <= requests[i].1);
        }
        law_rate_is_kept(b, front);
        let mid = after_all(b, front);
        let (n, now) = requests.last();
        assert(requests[requests.len() - 1] == requests.last());
        if front.len() > 0 {
            assert(requests[requests.len() - 2] == front.last());
            assert(mid.last <= now);
        }
        let dt = now - mid.last;
        assert(mid.refilled(now) <= mid.tokens + dt * mid.rate);
        assert(0 <= dt * mid.rate) by (nonlinear_arith)
            requires
                dt >= 0,
                mid.rate >= 0,
        ;
        assert((now - b.last) * b.rate == (mid.last - b.last) * b.rate + dt * b.rate)
            by (nonlinear_arith)
            requires
                dt == now - mid.last,
        ;
        assert(0 <= mid.refilled(now) <= mid.capacity());
    }
}

/// A request of up to one second of traffic, or of up to 64 KiB where that is more, is
/// granted as soon as the tokens that were there and what the rate brought since are
/// enough for its bytes. A slow limit holds no such request back for good.
pub proof fn law_enough_is_granted(b: RateLimiter, n: u64, now: u64)
    requires
        b.rate > 0,
        b.last <= now,
        n <= b.rate || n <= 65_536,
        b.tokens + (now - b.last) * b.rate >= n * 1_000_000_000,
    ensures
        b.told(n, now) is None,
        n > 0 ==> b.after(n, now).last == now && b.after(n, now).rate == b.rate,
{
    assert(b.capacity() >= n * 1_000_000_000);
}

/// A request that is granted takes the tokens of its bytes, and only these.
pub proof fn law_grant_takes_its_bytes(b: RateLimiter, n: u64, now: u64)
    requires
        b.wf(),
        b.rate > 0,
        0 < n,
        b.last <= now,
        b.told(n, now) is None,
    ensures
        ({
            let left = b.after(n, now).tokens;
            let grown = b.tokens + (now - b.last) * b.rate;
            let most = if b.rate < 65_536 { 65_536int } else { b.rate as int } * 1_000_000_000;
            &&& grown <= most ==> left + n * 1_000_000_000 == grown
            &&& grown > most ==> left + n * 1_000_000_000 == most
        }),
{
    assert(0 <= (now - b.last) * b.rate) by (nonlinear_arith)
        requires
            b.last <= now,
            b.rate > 0,
    ;
}

/// A request that is refused takes nothing: all that the rate brought stays, up to the
/// time of the request. The wait it is told is between one and fifty milliseconds, and no
/// longer than what is missing takes, unless that is less than a millisecond.
pub proof fn law_refusal_loses_nothing(b: RateLimiter, n: u64, now: u64)
    requires
        b.wf(),
        b.rate > 0,
        b.last <= now,
        n <= b.rate || n <= 65_536,
        b.told(n, now) is Some,
    ensures
        b.after(n, now).rate == b.rate,
        b.after(n, now).last == now,
        b.after(n, now).tokens == b.tokens + (now - b.last) * b.rate,
        b.after(n, now).tokens < n * 1_000_000_000,
        b.after(n, now).wf(),
        1_000_000 <= b.told(n, now)->0 <= 50_000_000,
        b.told(n, now)->0 > 1_000_000 ==> b.told(n, now)->0 * b.rate + b.after(n, now).tokens <= n
            * 1_000_000_000,
{
    assert(0 <= (now - b.last) * b.rate) by (nonlinear_arith)
        requires
            b.last <= now,
            b.rate > 0,
    ;
    if b.tokens + (now - b.last) * b.rate >= n * 1_000_000_000 {
        law_enough_is_granted(b, n, now);
    }
    let missing = n * TOKENS_PER_BYTE - b.refilled(now);
    let r = b.rate as int;
    let w = missing / r;
    assert(w * r <= missing) by (nonlinear_arith)
        requires
            w == missing / r,
            r > 0,
    ;
    if w > MAX_SLEEP {
        assert(MAX_SLEEP * r <= w * r) by (nonlinear_arith)
            requires
                MAX_SLEEP <= w,
                r > 0,
        ;
    }
}

/// Whether `states` and `times` are those of one request for `n` bytes that was refused
/// every time and tried again after the wait it was told.
pub open spec fn tried_again(states: Seq<RateLimiter>, times: Seq<u64>, n: u64) -> bool {
    &&& states.len() == times.len()
    &&& forall|i: int|
        0 <= i < states.len() ==> (#[trigger] states[i]).told(n, times[i]) is Some
    &&& forall|i: int|
        0 <= i < states.len() - 1 ==> #[trigger] states[i + 1] == states[i].after(n, times[i])
            && times[i + 1] == times[i] + states[i].told(n, times[i])->0
}

/// A request that is tried again after the waits it is told is granted in time: while it
/// is refused, less time has passed since the first try than its bytes take at the rate,
/// and every try comes at least a millisecond later than the one before.
pub proof fn law_waiting_is_rewarded(states: Seq<RateLimiter>, times: Seq<u64>, n: u64, k: int)
    requires
        tried_again(states, times, n),
        0 <= k < states.len(),
        states[0].wf(),
        states[0].rate > 0,
        states[0].last <= times[0],
        n <= states[0].rate || n <= 65_536,
    ensures
        states[k].rate == states[0].rate,
        states[k].wf(),
        states[k].last <= times[k],
        times[0] + k * 1_000_000 <= times[k],
        states[k].tokens + (times[k] - states[k].last) * states[0].rate >= (times[k] - times[0])
            * states[0].rate,
        (times[k] - times[0]) * states[0].rate < n * 1_000_000_000,
    decreases k,
{
    let r = states[0].rate as int;
    if k > 0 {
        law_waiting_is_rewarded(states, times, n, k - 1);
        let b = states[k - 1];
        assert(states[(k - 1) + 1] == b.after(n, times[k - 1]) && times[(k - 1) + 1] == times[k - 1]
            + b.told(n, times[k - 1])->0);
        law_refusal_loses_nothing(b, n, times[k - 1]);
        let a = times[k] - times[k - 1];
        let c = times[k - 1] - times[0];
        assert((a + c) * r == a * r + c * r) by (nonlinear_arith);
    } else {
        assert(0 <= (times[0] - states[0].last) * r) by (nonlinear_arith)
            requires
                states[0].last <= times[0],
                r > 0,
        ;
    }
    law_refusal_loses_nothing(states[k], n, times[k]);
}

/// A new limit grants the first 64 KiB at once, whatever the rate.
pub proof fn law_first_burst_is_free(b: RateLimiter, n: u64, now: u64)
    requires
        b.tokens == 65_536_000_000_000,
        b.last <= now,
        n <= 65_536,
    ensures
        b.told(n, now) is None,
{
    assert(0 <= (now - b.last) * b.rate) by (nonlinear_arith)
        requires
            b.last <= now,
            b.rate >= 0,
    ;
    if b.rate > 0 {
        law_enough_is_granted(b, n, now);
    }
}

/// Without a limit every request is granted and nothing is counted.
pub proof fn law_no_limit_grants_all(b: RateLimiter, n: u64, now: u64)
    requires
        b.rate == 0,
    ensures
        b.told(n, now) is None,
        b.after(n, now) == b,
{
}

} // verus!
