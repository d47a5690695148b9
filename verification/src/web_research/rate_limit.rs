//! Spacing of the requests to one host.
use crate::assoc::Assoc;
use crate::text::{ascii_lower, ascii_lower_str};
use crate::web_research::config::Millis;
use vstd::prelude::*;

verus! {

/// How a host has been doing: when it was last contacted, and how often it has failed since it
/// last succeeded.
#[derive(Clone, Copy, Debug, PartialEq, Eq, Structural)]
pub struct HostState {
    pub last: Millis,
    pub strike: u32,
}

/// The most strikes that count.
pub const MAX_STRIKES: u32 = 4;

/// Spaces the requests to each host. Failures stretch the delay up to a limit; a success takes a
/// host back to the delay that it started with.
#[derive(Debug)]
pub struct HostRateLimiter {
    pub hosts: Assoc<HostState>,
    pub delay: Millis,
    pub max_delay: Millis,
}

/// The largest span of time.
pub open spec fn max_span() -> int {
    u128::MAX as int
}

/// A span of time times `k`, or the largest one.
pub open spec fn times(span: int, k: int) -> int {
    if span * k > max_span() {
        max_span()
    } else {
        span * k
    }
}

pub open spec fn shorter(a: int, b: int) -> int {
    if a <= b {
        a
    } else {
        b
    }
}

/// The delay after `n` doublings.
pub open spec fn doubled(delay: int, max_delay: int, n: nat) -> int
    decreases n,
{
    if n == 0 {
        delay
    } else {
        shorter(times(doubled(delay, max_delay, (n - 1) as nat), 2), max_delay)
    }
}

/// The delay of a host with so many strikes.
pub open spec fn stretched(delay: int, max_delay: int, strike: u32) -> int {
    doubled(delay, max_delay, if strike <= MAX_STRIKES {
        strike as nat
    } else {
        MAX_STRIKES as nat
    })
}

fn times_span(span: Millis, k: u32) -> (r: Millis)
    requires
        k > 0,
    ensures
        r == times(span as int, k as int),
{
    let limit: u128 = u128::MAX / (k as u128);
    if span <= limit {
        assert(span * k <= u128::MAX) by (nonlinear_arith)
            requires
                span <= u128::MAX / (k as u128),
                k > 0,
        ;
        span * (k as u128)
    } else {
        assert(span * k > u128::MAX) by (nonlinear_arith)
            requires
                span >= u128::MAX / (k as u128) + 1,
                k > 0,
        ;
        u128::MAX
    }
}

impl HostRateLimiter {
    /// A limiter is in order when its limit is no shorter than its delay, and no host is listed
    /// twice.
    pub open spec fn wf(&self) -> bool {
        &&& self.delay <= self.max_delay
        &&& self.hosts.distinct()
    }

    /// How a host has been doing, if it has been contacted.
    pub open spec fn state(&self, host: Seq<char>) -> Option<HostState> {
        self.hosts.get_spec(ascii_lower(host))
    }

    pub fn new(delay: Millis) -> (r: Self)
        ensures
            r.wf(),
            r.delay == delay,
            r.max_delay == times(delay as int, 8),
            forall|h: Seq<char>| (#[trigger] r.state(h)) is None,
    {
        let max_delay: u128 = times_span(delay, 8);
        HostRateLimiter { hosts: Assoc::new(), delay, max_delay }
    }

    /// The limiter with another limit, but none below its delay.
    pub fn with_max_delay(self, max_delay: Millis) -> (r: Self)
        requires
            self.wf(),
        ensures
            r.wf(),
            r.delay == self.delay,
            r.hosts == self.hosts,
            r.max_delay == if max_delay >= self.delay {
                max_delay
            } else {
                self.delay
            },
    {
        let max_delay: u128 = if max_delay >= self.delay {
            max_delay
        } else {
            self.delay
        };
        HostRateLimiter { hosts: self.hosts, delay: self.delay, max_delay }
    }

    /// How long a host with so many strikes is left alone.
    pub fn current_delay(&self, strike: u32) -> (r: Millis)
        ensures
            r == stretched(self.delay as int, self.max_delay as int, strike),
    {
        let n: u32 = if strike <= MAX_STRIKES {
            strike
        } else {
            MAX_STRIKES
        };
        let mut delay: u128 = self.delay;
        let mut i: u32 = 0;
        while i < n
            invariant
                i <= n,
                delay == doubled(self.delay as int, self.max_delay as int, i as nat),
            decreases n - i,
        {
            let twice: u128 = times_span(delay, 2);
            delay = if twice <= self.max_delay {
                twice
            } else {
                self.max_delay
            };
            i = i + 1;
        }
        delay
    }

    /// Takes the next turn with a host, unless it has to be left alone a little longer: then for
    /// how long. Times are counted from any one moment on.
    pub fn take_turn(&mut self, host: &str, now: Millis) -> (r: Option<Millis>)
        requires
            old(self).wf(),
        ensures
            final(self).wf(),
            final(self).delay == old(self).delay,
            final(self).max_delay == old(self).max_delay,
            match old(self).state(host@) {
                Some(s) => {
                    let due = s.last + stretched(
                        old(self).delay as int,
                        old(self).max_delay as int,
                        s.strike,
                    );
                    if now < due {
                        &&& r matches Some(wait) && wait == shorter(due - now, max_span())
                        &&& final(self).hosts == old(self).hosts
                    } else {
                        &&& r is None
                        &&& final(self).state(host@) == Some(
                            HostState { last: now, strike: s.strike },
                        )
                    }
                },
                None => r is None && final(self).state(host@) == Some(
                    HostState { last: now, strike: 0 },
                ),
            },
            forall|h: Seq<char>|
                ascii_lower(h) != ascii_lower(host@) ==> (#[trigger] final(self).state(h)) == old(
                    self,
                ).state(h),
    {
        let key = ascii_lower_str(host);
        let known = match self.hosts.get(key.as_str()) {
            Some(s) => Some(*s),
            None => None,
        };
        match known {
            Some(s) => {
                let delay: u128 = self.current_delay(s.strike);
                if now < s.last {
                    let ahead: u128 = s.last - now;
                    return Some(
                        if ahead <= u128::MAX - delay {
                            ahead + delay
                        } else {
                            u128::MAX
                        },
                    );
                }
                let passed: u128 = now - s.last;
                if passed < delay {
                    return Some(delay - passed);
                }
                self.hosts.insert(key.as_str(), HostState { last: now, strike: s.strike });
                None
            },
            None => {
                self.hosts.insert(key.as_str(), HostState { last: now, strike: 0 });
                None
            },
        }
    }

    /// Leaves a host alone for longer, after it failed.
    pub fn penalize(&mut self, host: &str, now: Millis)
        requires
            old(self).wf(),
        ensures
            final(self).wf(),
            final(self).delay == old(self).delay,
            final(self).max_delay == old(self).max_delay,
            final(self).state(host@) == Some(
                HostState {
                    last: now,
                    strike: match old(self).state(host@) {
                        Some(s) => if s.strike < MAX_STRIKES {
                            (s.strike + 1) as u32
                        } else {
                            MAX_STRIKES
                        },
                        None => 1,
                    },
                },
            ),
            forall|h: Seq<char>|
                ascii_lower(h) != ascii_lower(host@) ==> (#[trigger] final(self).state(h)) == old(
                    self,
                ).state(h),
    {
        let key = ascii_lower_str(host);
        let strike: u32 = match self.hosts.get(key.as_str()) {
            Some(s) => s.strike,
            None => 0,
        };
        let strike: u32 = if strike < MAX_STRIKES {
            strike + 1
        } else {
            MAX_STRIKES
        };
        self.hosts.insert(key.as_str(), HostState { last: now, strike });
    }

    /// Takes a host back to the delay that it started with, after it succeeded.
    pub fn reward(&mut self, host: &str, now: Millis)
        requires
            old(self).wf(),
        ensures
            final(self).wf(),
            final(self).delay == old(self).delay,
            final(self).max_delay == old(self).max_delay,
            final(self).state(host@) == match old(self).state(host@) {
                Some(_) => Some(HostState { last: now, strike: 0 }),
                None => None,
            },
            forall|h: Seq<char>|
                ascii_lower(h) != ascii_lower(host@) ==> (#[trigger] final(self).state(h)) == old(
                    self,
                ).state(h),
    {
        let key = ascii_lower_str(host);
        if self.hosts.get(key.as_str()).is_some() {
            self.hosts.insert(key.as_str(), HostState { last: now, strike: 0 });
        }
    }
}

impl Default for HostRateLimiter {
    fn default() -> (r: Self)
        ensures
            r.wf(),
            r.delay == 1_000,
            r.max_delay == 8_000,
            forall|h: Seq<char>| (#[trigger] r.state(h)) is None,
    {
        HostRateLimiter::new(1_000)
    }
}

/// However often a host fails, it is left alone for at least the delay and at most the limit, and
/// for no shorter than after fewer failures.
pub proof fn lemma_delay_is_bounded(delay: int, max_delay: int, n: nat)
    requires
        0 <= delay <= max_delay <= max_span(),
    ensures
        delay <= doubled(delay, max_delay, n) <= max_delay,
        doubled(delay, max_delay, n) <= doubled(delay, max_delay, n + 1),
    decreases n,
{
    if n > 0 {
        lemma_delay_is_bounded(delay, max_delay, (n - 1) as nat);
    }
    let d = doubled(delay, max_delay, n);
    assert(doubled(delay, max_delay, n + 1) == shorter(times(d, 2), max_delay));
}

} // verus!
