//! The retry controller: exponential backoff with jitter around one logical
//! request.
use vstd::prelude::*;
use vstd::arithmetic::div_mod::lemma_mod_pos_bound;
use crate::cancel::CancellationToken;
use crate::error::Error;

verus! {

/// Relies on `rand::Rng::gen_range` over the thread-local generator: for a
/// non-empty range `0..bound` it returns a value inside it (it panics on an
/// empty range, hence `bound > 0`).
#[verifier::external_body]
fn random_below(bound: u64) -> (r: u64)
    requires
        bound > 0,
    ensures
        r < bound,
{
    rand::Rng::gen_range(&mut rand::thread_rng(), 0..bound)
}

/// The largest delay cap accepted, so that a delay with its jitter fits in
/// a `u64`.
pub const MAX_DELAY_CAP_MS: u64 = 0x7fff_ffff_ffff_ffff;

/// The backoff policy: at most `max_attempts` attempts; the delay before the
/// retry after the `k+1`-th failed attempt is `base_delay_ms * multiplier^k`,
/// capped at `max_delay_ms`, plus a jitter drawn from `[0, delay)`.
#[derive(Debug, Clone, Copy)]
pub struct RetryPolicy {
    pub max_attempts: u32,
    pub base_delay_ms: u64,
    pub multiplier: u32,
    pub max_delay_ms: u64,
}

impl RetryPolicy {
    /// The policy can be run: at least one attempt, a non-shrinking
    /// multiplier, and `0 < base <= cap <= MAX_DELAY_CAP_MS`.
    pub open spec fn valid(&self) -> bool {
        &&& self.max_attempts >= 1
        &&& self.multiplier >= 1
        &&& 1 <= self.base_delay_ms <= self.max_delay_ms <= MAX_DELAY_CAP_MS
    }

    /// A policy, checked before any request is made: a configuration error
    /// when it cannot be run.
    pub fn new(max_attempts: u32, base_delay_ms: u64, multiplier: u32, max_delay_ms: u64) -> (r: Result<
        RetryPolicy,
        Error,
    >)
        ensures
            r matches Ok(p) ==> p.valid() && p.max_attempts == max_attempts && p.base_delay_ms
                == base_delay_ms && p.multiplier == multiplier && p.max_delay_ms == max_delay_ms,
            r is Err <==> !(RetryPolicy { max_attempts, base_delay_ms, multiplier, max_delay_ms }).valid(),
            r matches Err(e) ==> e is Config,
    {
        if max_attempts == 0 {
            return Err(Error::config("max_attempts must be at least 1"));
        }
        if multiplier == 0 {
            return Err(Error::config("multiplier must be at least 1"));
        }
        if base_delay_ms == 0 {
            return Err(Error::config("base delay must be positive"));
        }
        if base_delay_ms > max_delay_ms {
            return Err(Error::config("base delay must not exceed the maximum delay"));
        }
        if max_delay_ms > MAX_DELAY_CAP_MS {
            return Err(Error::config("maximum delay is too large"));
        }
        Ok(RetryPolicy { max_attempts, base_delay_ms, multiplier, max_delay_ms })
    }
}

/// `base * multiplier^k`, without the cap.
pub open spec fn uncapped_delay(p: RetryPolicy, k: nat) -> int
    decreases k,
{
    if k == 0 {
        p.base_delay_ms as int
    } else {
        uncapped_delay(p, (k - 1) as nat) * p.multiplier
    }
}

/// The delay before the retry after the `k+1`-th failed attempt, before
/// jitter.
pub open spec fn backoff(p: RetryPolicy, k: nat) -> int {
    if uncapped_delay(p, k) < p.max_delay_ms {
        uncapped_delay(p, k)
    } else {
        p.max_delay_ms as int
    }
}

/// The delay with jitter: the backoff plus `sample` reduced into
/// `[0, backoff)`.
pub open spec fn jittered(p: RetryPolicy, k: nat, sample: u64) -> int {
    backoff(p, k) + (sample as int) % backoff(p, k)
}

proof fn lemma_uncapped_grows(p: RetryPolicy, k: nat)
    requires
        p.valid(),
    ensures
        uncapped_delay(p, k) >= p.base_delay_ms,
        uncapped_delay(p, k + 1) >= uncapped_delay(p, k),
    decreases k,
{
    if k > 0 {
        lemma_uncapped_grows(p, (k - 1) as nat);
    }
    let u = uncapped_delay(p, k);
    let m = p.multiplier as int;
    assert(u * m >= u) by (nonlinear_arith)
        requires
            u >= 1,
            m >= 1,
    ;
}

/// Backoff never shrinks: for a runnable policy the delay before a later
/// retry is at least that before an earlier one, and never above the cap.
pub proof fn lemma_backoff_monotone(p: RetryPolicy, j: nat, k: nat)
    requires
        p.valid(),
        j <= k,
    ensures
        p.base_delay_ms <= backoff(p, j) <= backoff(p, k) <= p.max_delay_ms,
    decreases k - j,
{
    lemma_uncapped_grows(p, j);
    if j < k {
        lemma_backoff_monotone(p, j, (k - 1) as nat);
        lemma_uncapped_grows(p, (k - 1) as nat);
    }
}

/// Once the backoff reaches the cap it stays there, and the jittered delay
/// stays within `[cap, 2 * cap)`.
pub proof fn lemma_backoff_stays_at_cap(p: RetryPolicy, j: nat, k: nat, sample: u64)
    requires
        p.valid(),
        j <= k,
        backoff(p, j) == p.max_delay_ms,
    ensures
        backoff(p, k) == p.max_delay_ms,
        p.max_delay_ms <= jittered(p, k, sample) < 2 * p.max_delay_ms,
{
    lemma_backoff_monotone(p, j, k);
}

/// The backoff before the retry after the `k+1`-th failed attempt.
pub fn backoff_delay(p: &RetryPolicy, k: u32) -> (r: u64)
    requires
        p.valid(),
    ensures
        r == backoff(*p, k as nat),
{
    let cap = p.max_delay_ms;
    let m = p.multiplier as u64;
    let mut d = p.base_delay_ms;
    let mut j: u32 = 0;
    proof {
        lemma_uncapped_grows(*p, 0);
    }
    while j < k
        invariant
            p.valid(),
            cap == p.max_delay_ms,
            m == p.multiplier,
            j <= k,
            d == backoff(*p, j as nat),
        decreases k - j,
    {
        let ghost u = uncapped_delay(*p, j as nat);
        let ghost u2 = uncapped_delay(*p, (j + 1) as nat);
        proof {
            lemma_uncapped_grows(*p, j as nat);
            assert(u2 == u * m);
        }
        if d >= cap {
            assert(u >= cap);
            d = cap;
        } else if d > cap / m {
            assert(d * m > cap) by (nonlinear_arith)
                requires
                    d > cap / m,
                    m >= 1,
            ;
            d = cap;
        } else {
            assert(d * m <= cap) by (nonlinear_arith)
                requires
                    d <= cap / m,
                    m >= 1,
            ;
            d = d * m;
        }
        j = j + 1;
    }
    d
}

/// The delay, jitter included, for the retry after the `k+1`-th failed
/// attempt, given a random `sample`: the same inputs always give the same
/// delay.
pub fn jittered_delay(p: &RetryPolicy, k: u32, sample: u64) -> (r: u64)
    requires
        p.valid(),
    ensures
        r == jittered(*p, k as nat, sample),
        backoff(*p, k as nat) <= r < 2 * backoff(*p, k as nat),
{
    let d = backoff_delay(p, k);
    proof {
        lemma_backoff_monotone(*p, k as nat, k as nat);
    }
    d + sample % d
}

/// What a failed attempt says about retrying it.
#[derive(Debug, Clone, Copy, PartialEq, Eq)]
pub enum FailureClass {
    /// The connection failed (refused, DNS, TLS, reset, read error).
    Transport,
    /// The server answered with this HTTP status.
    Status(u16),
    /// The response stream or its content was defective (malformed frame,
    /// unparsable JSON, tool arguments); retrying would reproduce it.
    Content,
}

/// Connection failures, server errors (500 to 599) and rate limiting (429)
/// are retried; anything else is not.
pub open spec fn is_retryable(c: FailureClass) -> bool {
    match c {
        FailureClass::Transport => true,
        FailureClass::Status(s) => (500 <= s <= 599) || s == 429,
        FailureClass::Content => false,
    }
}

/// Whether a failure of class `c` is retried.
pub fn retryable(c: FailureClass) -> (r: bool)
    ensures
        r == is_retryable(c),
{
    match c {
        FailureClass::Transport => true,
        FailureClass::Status(s) => (500 <= s && s <= 599) || s == 429,
        FailureClass::Content => false,
    }
}

/// A failed attempt: its class and the error it raised.
#[derive(Debug)]
pub struct AttemptFailure {
    pub class: FailureClass,
    pub error: Error,
}

/// What to do after a failed attempt.
#[derive(Debug)]
pub enum RetryDecision {
    /// Wait this many milliseconds, then make the next attempt.
    RetryAfter(u64),
    /// Stop, reporting this error.
    GiveUp(Error),
}

/// Drives the attempts of one logical request.
#[derive(Debug)]
pub struct RetryController {
    policy: RetryPolicy,
    attempts: u32,
}

impl RetryController {
    pub closed spec fn policy(&self) -> RetryPolicy {
        self.policy
    }

    /// Attempts begun so far.
    pub closed spec fn attempts(&self) -> nat {
        self.attempts as nat
    }

    /// The attempt count never exceeds the policy's maximum.
    pub closed spec fn wf(&self) -> bool {
        self.policy.valid() && self.attempts <= self.policy.max_attempts
    }

    /// A controller for a new request, with no attempt made.
    pub fn new(policy: RetryPolicy) -> (r: RetryController)
        requires
            policy.valid(),
        ensures
            r.wf(),
            r.policy() == policy,
            r.attempts() == 0,
    {
        RetryController { policy, attempts: 0 }
    }

    /// The number of attempts begun so far.
    pub fn attempt_count(&self) -> (r: u32)
        ensures
            r == self.attempts(),
    {
        self.attempts
    }

    /// Whether another attempt may be begun.
    pub fn can_attempt(&self) -> (r: bool)
        ensures
            r == (self.attempts() < self.policy().max_attempts),
    {
        self.attempts < self.policy.max_attempts
    }

    /// Begins the next attempt and returns its number (from 1). Fails,
    /// beginning nothing, with an interruption when the token is set, or else
    /// with a timeout when the operation's budget has elapsed.
    pub fn begin_attempt(&mut self, token: &CancellationToken, timed_out: bool) -> (r: Result<u32, Error>)
        requires
            old(self).wf(),
            old(self).attempts() < old(self).policy().max_attempts,
        ensures
            final(self).wf(),
            final(self).policy() == old(self).policy(),
            final(self).attempts() <= final(self).policy().max_attempts,
            token.is_set() ==> (r matches Err(e) && e is Interrupted),
            !token.is_set() && timed_out ==> (r matches Err(e) && e is Timeout),
            r is Err ==> final(self).attempts() == old(self).attempts(),
            !token.is_set() && !timed_out ==> (r matches Ok(n) && n == old(self).attempts() + 1
                && final(self).attempts() == n),
    {
        if token.is_cancelled() {
            return Err(Error::Interrupted);
        }
        if timed_out {
            return Err(Error::Timeout);
        }
        self.attempts = self.attempts + 1;
        Ok(self.attempts)
    }

    /// Decides after a failed attempt, with the jitter drawn from `sample`:
    /// an interruption when the token is set, else a timeout when the budget
    /// has elapsed; else the attempt's own error when it is not retryable or
    /// the attempts are spent; else a retry after the jittered backoff for
    /// the number of attempts made so far.
    pub fn decide(&self, failure: AttemptFailure, token: &CancellationToken, timed_out: bool, sample: u64) -> (r:
        RetryDecision)
        requires
            self.wf(),
            self.attempts() >= 1,
        ensures
            token.is_set() ==> (r matches RetryDecision::GiveUp(e) && e is Interrupted),
            !token.is_set() && timed_out ==> (r matches RetryDecision::GiveUp(e) && e is Timeout),
            !token.is_set() && !timed_out && (!is_retryable(failure.class) || self.attempts()
                >= self.policy().max_attempts) ==> r == RetryDecision::GiveUp(failure.error),
            !token.is_set() && !timed_out && is_retryable(failure.class) && self.attempts()
                < self.policy().max_attempts ==> r == RetryDecision::RetryAfter(
                jittered(self.policy(), (self.attempts() - 1) as nat, sample) as u64,
            ),
    {
        if token.is_cancelled() {
            return RetryDecision::GiveUp(Error::Interrupted);
        }
        if timed_out {
            return RetryDecision::GiveUp(Error::Timeout);
        }
        if !retryable(failure.class) || self.attempts >= self.policy.max_attempts {
            return RetryDecision::GiveUp(failure.error);
        }
        RetryDecision::RetryAfter(jittered_delay(&self.policy, self.attempts - 1, sample))
    }

    /// Decides after a failed attempt as `decide` does, drawing the jitter
    /// at random: a retry waits at least the backoff and less than twice it.
    pub fn after_failure(&self, failure: AttemptFailure, token: &CancellationToken, timed_out: bool) -> (r:
        RetryDecision)
        requires
            self.wf(),
            self.attempts() >= 1,
        ensures
            token.is_set() ==> (r matches RetryDecision::GiveUp(e) && e is Interrupted),
            !token.is_set() && timed_out ==> (r matches RetryDecision::GiveUp(e) && e is Timeout),
            !token.is_set() && !timed_out && (!is_retryable(failure.class) || self.attempts()
                >= self.policy().max_attempts) ==> r == RetryDecision::GiveUp(failure.error),
            !token.is_set() && !timed_out && is_retryable(failure.class) && self.attempts()
                < self.policy().max_attempts ==> (r matches RetryDecision::RetryAfter(d) && backoff(
                self.policy(),
                (self.attempts() - 1) as nat,
            ) <= d < 2 * backoff(self.policy(), (self.attempts() - 1) as nat)),
    {
        let b = backoff_delay(&self.policy, self.attempts - 1);
        proof {
            lemma_backoff_monotone(self.policy, (self.attempts - 1) as nat, (self.attempts - 1) as nat);
        }
        let sample = random_below(b);
        let r = self.decide(failure, token, timed_out, sample);
        proof {
            if !token.is_set() && !timed_out && is_retryable(failure.class) && self.attempts()
                < self.policy().max_attempts {
                lemma_mod_pos_bound(sample as int, b as int);
            }
        }
        r
    }
}

} // verus!
