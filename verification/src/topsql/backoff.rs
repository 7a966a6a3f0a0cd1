//! The delay between attempts to reach an upstream: it starts at the
//! configured delay, doubles with each failure up to one minute, and starts
//! over after a success.

use crate::time::Span;
use vstd::prelude::*;

verus! {

/// The longest delay: sixty seconds, in nanoseconds.
pub const MAX_RETRY_DELAY_NANOS: u128 = 60_000_000_000;

/// Two to the power of `k`.
pub open spec fn pow2(k: nat) -> nat
    decreases k,
{
    if k == 0 {
        1
    } else {
        2 * pow2((k - 1) as nat)
    }
}

/// The delay after `failures` failures in a row when the first delay is
/// `init`: `init` doubled once for each failure but the first, and no more
/// than a minute.
pub open spec fn delay_after(init: nat, failures: nat) -> nat
    recommends
        failures >= 1,
{
    let doubled = init * pow2((failures - 1) as nat);
    if doubled > MAX_RETRY_DELAY_NANOS {
        MAX_RETRY_DELAY_NANOS as nat
    } else {
        doubled
    }
}

/// How a streaming attempt ended.
#[derive(Clone, Copy, Debug, PartialEq, Eq, Structural)]
pub enum RetryState {
    /// The stream ended: connect again at once.
    RetryNow,
    /// Connecting failed, or the stream broke: wait before connecting again.
    RetryDelay,
}

/// The retry delay of one subscriber.
pub struct Backoff {
    init_retry_delay: u128,
    retry_delay: u128,
    failures: Ghost<nat>,
}

impl Backoff {
    /// The configured first delay, in nanoseconds.
    pub closed spec fn init(&self) -> nat {
        self.init_retry_delay as nat
    }

    /// The failures since the last success.
    pub closed spec fn failed(&self) -> nat {
        self.failures@
    }

    /// The state is consistent: the delay that comes next is known.
    pub closed spec fn wf(&self) -> bool {
        self.retry_delay == delay_after(self.init(), self.failed() + 1)
    }

    /// A backoff that has seen no failure.
    pub fn new(init_retry_delay: Span) -> (b: Backoff)
        ensures
            b.wf(),
            b.init() == init_retry_delay.nanos,
            b.failed() == 0,
    {
        proof {
            lemma_first_delay(init_retry_delay.nanos as nat);
        }
        let retry_delay = if init_retry_delay.nanos > MAX_RETRY_DELAY_NANOS {
            MAX_RETRY_DELAY_NANOS
        } else {
            init_retry_delay.nanos
        };
        Backoff { init_retry_delay: init_retry_delay.nanos, retry_delay, failures: Ghost(0) }
    }

    /// Notes a success: the next delay is the first one again.
    pub fn on_connected(&mut self)
        requires
            old(self).wf(),
        ensures
            final(self).wf(),
            final(self).init() == old(self).init(),
            final(self).failed() == 0,
    {
        proof {
            lemma_first_delay(self.init());
        }
        self.failures = Ghost(0);
        self.retry_delay = if self.init_retry_delay > MAX_RETRY_DELAY_NANOS {
            MAX_RETRY_DELAY_NANOS
        } else {
            self.init_retry_delay
        };
    }

    /// Notes a failure and gives the delay to wait before the next attempt.
    pub fn on_failure(&mut self) -> (delay: Span)
        requires
            old(self).wf(),
        ensures
            final(self).wf(),
            final(self).init() == old(self).init(),
            final(self).failed() == old(self).failed() + 1,
            delay.nanos == delay_after(old(self).init(), old(self).failed() + 1),
            delay.nanos <= MAX_RETRY_DELAY_NANOS,
    {
        let delay = self.retry_delay;
        proof {
            lemma_delay_doubles(self.init(), self.failed() + 1);
        }
        self.failures = Ghost(self.failures@ + 1);
        self.retry_delay = if delay > MAX_RETRY_DELAY_NANOS / 2 {
            MAX_RETRY_DELAY_NANOS
        } else {
            delay * 2
        };
        Span { nanos: delay }
    }

    /// What to do after a streaming attempt has ended: the delay to wait
    /// before the next one, or `None` where it follows at once.
    pub fn next_attempt(&mut self, state: RetryState) -> (delay: Option<Span>)
        requires
            old(self).wf(),
        ensures
            final(self).wf(),
            final(self).init() == old(self).init(),
            match state {
                RetryState::RetryNow => delay is None && final(self).failed() == old(self).failed(),
                RetryState::RetryDelay => delay matches Some(d) && d.nanos == delay_after(
                    old(self).init(),
                    old(self).failed() + 1,
                ) && final(self).failed() == old(self).failed() + 1,
            },
    {
        match state {
            RetryState::RetryNow => None,
            RetryState::RetryDelay => Some(self.on_failure()),
        }
    }
}

/// The smaller of two numbers.
pub open spec fn min_nat(a: nat, b: nat) -> nat {
    if a <= b {
        a
    } else {
        b
    }
}

/// Each failure doubles the delay, up to a minute.
pub proof fn lemma_delay_doubles(init: nat, failures: nat)
    requires
        failures >= 1,
    ensures
        delay_after(init, failures + 1) == min_nat(
            2 * delay_after(init, failures),
            MAX_RETRY_DELAY_NANOS as nat,
        ),
        delay_after(init, failures) <= delay_after(init, failures + 1),
        delay_after(init, failures) <= MAX_RETRY_DELAY_NANOS,
{
    let p = pow2((failures - 1) as nat);
    assert(pow2(failures) == 2 * p);
    assert(init * (2 * p) == 2 * (init * p)) by (nonlinear_arith);
}

/// The first delay is the configured one, or a minute where that is longer.
pub proof fn lemma_first_delay(init: nat)
    ensures
        delay_after(init, 1) == min_nat(init, MAX_RETRY_DELAY_NANOS as nat),
{
    assert(pow2(0) == 1);
    assert(init * 1 == init) by (nonlinear_arith);
}

} // verus!
