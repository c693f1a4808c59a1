//! How many requests are allowed in one second.

use vstd::prelude::*;

use crate::common::unix_timestamp_secs;

verus! {

/// A limit on the requests of one second, and how many came in the second that
/// began last.
pub struct RateLimiter {
    pub max_rps: u64,
    pub counter: u64,
    pub window_start: u64,
}

impl RateLimiter {
    /// A limiter whose second begins now.
    pub fn new(max_rps: u64) -> (r: Self)
        ensures
            r.max_rps == max_rps,
            r.counter == 0,
    {
        RateLimiter::starting_at(max_rps, unix_timestamp_secs())
    }

    /// A limiter whose second begins at `now`.
    pub fn starting_at(max_rps: u64, now: u64) -> (r: Self)
        ensures
            r.max_rps == max_rps,
            r.counter == 0,
            r.window_start == now,
    {
        RateLimiter { max_rps, counter: 0, window_start: now }
    }

    /// The limiter after a request at `now`.
    pub open spec fn after(&self, now: u64) -> RateLimiter {
        if now > self.window_start {
            RateLimiter { max_rps: self.max_rps, counter: 1, window_start: now }
        } else {
            RateLimiter {
                max_rps: self.max_rps,
                counter: if self.counter == u64::MAX {
                    0
                } else {
                    (self.counter + 1) as u64
                },
                window_start: self.window_start,
            }
        }
    }

    /// A request at `now` is allowed: fewer than the limit came before it in its
    /// second.
    pub open spec fn allows(&self, now: u64) -> bool {
        if now > self.window_start {
            self.max_rps > 0
        } else {
            self.counter < self.max_rps
        }
    }

    /// Whether a request that comes now is allowed.
    pub fn allow(&mut self) -> (r: bool)
        ensures
            exists|now: u64|
                #![trigger old(self).allows(now)]
                r == old(self).allows(now) && *final(self) == old(self).after(now),
    {
        let now: u64 = unix_timestamp_secs();
        self.allow_at(now)
    }

    /// Whether a request at `now` is allowed.
    pub fn allow_at(&mut self, now: u64) -> (r: bool)
        ensures
            r == old(self).allows(now),
            *final(self) == old(self).after(now),
    {
        if now > self.window_start {
            self.window_start = now;
            self.counter = 1;
            return self.max_rps > 0;
        }
        let count: u64 = self.counter;
        self.counter = count.wrapping_add(1);
        count < self.max_rps
    }

    /// How many of `n` requests at `now`, one after the other, are allowed.
    pub open spec fn allowed_of(&self, now: u64, n: nat) -> nat
        decreases n,
    {
        if n == 0 {
            0
        } else {
            (if self.allows(now) {
                1nat
            } else {
                0nat
            }) + self.after(now).allowed_of(now, (n - 1) as nat)
        }
    }
}

/// In one second no more requests are allowed than the limit: of `n` requests
/// that come in a second that has begun, those up to the limit are.
pub proof fn law_limit_kept(limiter: RateLimiter, now: u64, n: nat)
    requires
        now <= limiter.window_start,
        limiter.counter + n <= u64::MAX,
    ensures
        limiter.allowed_of(now, n) == if limiter.counter >= limiter.max_rps {
            0int
        } else if limiter.max_rps - limiter.counter <= n {
            limiter.max_rps - limiter.counter
        } else {
            n as int
        },
    decreases n,
{
    if n > 0 {
        law_limit_kept(limiter.after(now), now, (n - 1) as nat);
    }
}

/// Of `n` requests in a second that begins with the first of them, those up to
/// the limit are allowed.
pub proof fn law_limit_new_second(limiter: RateLimiter, now: u64, n: nat)
    requires
        now > limiter.window_start,
        n <= u64::MAX,
    ensures
        limiter.allowed_of(now, n) == if n <= limiter.max_rps {
            n as int
        } else {
            limiter.max_rps as int
        },
{
    if n > 0 {
        law_limit_kept(limiter.after(now), now, (n - 1) as nat);
    }
}

} // verus!
