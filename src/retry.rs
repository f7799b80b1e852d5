//! The retry policy of the HTTP executor: which outcomes are retried, and
//! the exponential backoff with jitter that separates attempts.
use vstd::prelude::*;
use rand::{Rng, SeedableRng};

verus! {

/// The largest exponent of the backoff's doubling.
pub const MAX_BACKOFF_SHIFT: usize = 6;

/// The least jitter added to a backoff, in milliseconds.
pub const JITTER_MIN_MS: u64 = 50;

/// The most jitter added to a backoff, in milliseconds.
pub const JITTER_MAX_MS: u64 = 200;

/// The largest base delay whose backoff, jitter included, fits in a `u64`.
pub const MAX_BASE_MS: u64 = 288230376151711740;

/// Two to the power `n`.
pub open spec fn pow2(n: nat) -> nat
    decreases n,
{
    if n == 0 {
        1
    } else {
        2 * pow2((n - 1) as nat)
    }
}

/// The exponent used for attempt `attempt`: the attempt, capped at six.
pub open spec fn backoff_shift(attempt: nat) -> nat {
    if attempt < 6 {
        attempt
    } else {
        6
    }
}

/// The exponential part of the backoff of attempt `attempt`.
pub open spec fn backoff_exp(base_ms: nat, attempt: nat) -> nat {
    base_ms * pow2(backoff_shift(attempt))
}

proof fn lemma_pow2_six()
    ensures
        pow2(0) == 1,
        pow2(1) == 2,
        pow2(2) == 4,
        pow2(3) == 8,
        pow2(4) == 16,
        pow2(5) == 32,
        pow2(6) == 64,
{
    assert(pow2(0) == 1);
    assert(pow2(1) == 2);
    assert(pow2(2) == 4);
    assert(pow2(3) == 8);
    assert(pow2(4) == 16);
    assert(pow2(5) == 32);
    assert(pow2(6) == 64);
}

proof fn lemma_pow2_bounds(n: nat)
    requires
        n <= 6,
    ensures
        1 <= pow2(n) <= 64,
        pow2(n) <= pow2(6),
{
    lemma_pow2_six();
    assert(n == 0 || n == 1 || n == 2 || n == 3 || n == 4 || n == 5 || n == 6);
}

/// The exponential part of the backoff never decreases from one attempt
/// to the next.
pub proof fn lemma_backoff_monotone(base_ms: nat, attempt: nat)
    ensures
        backoff_exp(base_ms, attempt) <= backoff_exp(base_ms, attempt + 1),
{
    let a = backoff_shift(attempt);
    let b = backoff_shift(attempt + 1);
    if attempt < 6 {
        assert(pow2(b) == 2 * pow2(a));
    }
    assert(pow2(a) <= pow2(b));
    assert(base_ms * pow2(a) <= base_ms * pow2(b)) by (nonlinear_arith)
        requires
            pow2(a) <= pow2(b),
    ;
}

/// From the seventh attempt on, the exponential part stays at its cap.
pub proof fn lemma_backoff_capped(base_ms: nat, attempt: nat)
    requires
        attempt >= 6,
    ensures
        backoff_exp(base_ms, attempt) == base_ms * 64,
{
    lemma_pow2_six();
}

/// The exponential part of the backoff: `base_ms` times two to the power
/// of the attempt, the exponent capped at six.
pub fn backoff_base(base_ms: u64, attempt: usize) -> (r: u64)
    requires
        base_ms <= MAX_BASE_MS,
    ensures
        r == backoff_exp(base_ms as nat, attempt as nat),
        r <= base_ms * 64,
{
    let shift: usize = if attempt < MAX_BACKOFF_SHIFT {
        attempt
    } else {
        MAX_BACKOFF_SHIFT
    };
    let mut factor: u64 = 1;
    let mut i: usize = 0;
    while i < shift
        invariant
            i <= shift <= 6,
            shift == backoff_shift(attempt as nat),
            factor == pow2(i as nat),
        decreases shift - i,
    {
        proof {
            lemma_pow2_bounds(i as nat);
        }
        factor = factor * 2;
        i = i + 1;
    }
    proof {
        lemma_pow2_bounds(shift as nat);
        assert(base_ms * factor <= base_ms * 64) by (nonlinear_arith)
            requires
                factor <= 64,
        ;
    }
    base_ms * factor
}

/// The backoff of attempt `attempt` with the drawn `jitter_ms` added once.
pub fn backoff_with_jitter(base_ms: u64, attempt: usize, jitter_ms: u64) -> (r: u64)
    requires
        base_ms <= MAX_BASE_MS,
        jitter_ms <= JITTER_MAX_MS,
    ensures
        r == backoff_exp(base_ms as nat, attempt as nat) + jitter_ms,
{
    backoff_base(base_ms, attempt) + jitter_ms
}

/// Relies on `rand::Rng::gen_range` over a small generator seeded from the
/// operating system: a uniformly drawn integer within the inclusive range.
#[verifier::external_body]
fn draw_jitter_ms() -> (r: u64)
    ensures
        JITTER_MIN_MS <= r <= JITTER_MAX_MS,
{
    rand::rngs::SmallRng::from_entropy().gen_range(JITTER_MIN_MS..=JITTER_MAX_MS)
}

/// The delay before the next attempt: the exponential part plus a jitter
/// drawn uniformly from 50 to 200 milliseconds.
pub fn generate_backoff(base_ms: u64, attempt: usize) -> (r: u64)
    requires
        base_ms <= MAX_BASE_MS,
    ensures
        backoff_exp(base_ms as nat, attempt as nat) + JITTER_MIN_MS <= r,
        r <= backoff_exp(base_ms as nat, attempt as nat) + JITTER_MAX_MS,
{
    let jitter = draw_jitter_ms();
    backoff_with_jitter(base_ms, attempt, jitter)
}

/// What one attempt of a request gave.
#[derive(Debug, Clone, Copy, PartialEq, Eq, Structural)]
pub enum Outcome {
    /// A response with this HTTP status.
    Status(u16),
    /// No response: the transport failed.
    Transport,
}

/// What the executor does after an attempt.
#[derive(Debug, Clone, Copy, PartialEq, Eq, Structural)]
pub enum RetryStep {
    /// The response succeeded: read its body.
    Accept,
    /// Sleep the backoff, then try again.
    Retry,
    /// Stop and report an HTTP error.
    GiveUp,
}

/// A 2xx status.
pub open spec fn is_success_spec(status: u16) -> bool {
    200 <= status <= 299
}

/// Statuses worth another attempt: 429 and every 5xx.
pub open spec fn is_retryable_spec(status: u16) -> bool {
    status == 429 || (500 <= status <= 599)
}

/// The step taken after attempt `attempt` (counted from zero) gave
/// `outcome`, with `max_retries` retries allowed in all.
pub open spec fn retry_step_spec(outcome: Outcome, attempt: nat, max_retries: nat) -> RetryStep {
    match outcome {
        Outcome::Status(s) => if is_success_spec(s) {
            RetryStep::Accept
        } else if is_retryable_spec(s) && attempt < max_retries {
            RetryStep::Retry
        } else {
            RetryStep::GiveUp
        },
        Outcome::Transport => if attempt < max_retries {
            RetryStep::Retry
        } else {
            RetryStep::GiveUp
        },
    }
}

/// Whether `status` is a 2xx status.
pub fn is_success(status: u16) -> (r: bool)
    ensures
        r == is_success_spec(status),
{
    200 <= status && status <= 299
}

/// Whether `status` is retried: 429 or any 5xx.
pub fn is_retryable(status: u16) -> (r: bool)
    ensures
        r == is_retryable_spec(status),
{
    status == 429 || (500 <= status && status <= 599)
}

/// Decides what follows attempt `attempt` that gave `outcome`.
pub fn retry_step(outcome: Outcome, attempt: usize, max_retries: usize) -> (r: RetryStep)
    ensures
        r == retry_step_spec(outcome, attempt as nat, max_retries as nat),
{
    match outcome {
        Outcome::Status(s) => {
            if is_success(s) {
                RetryStep::Accept
            } else if is_retryable(s) && attempt < max_retries {
                RetryStep::Retry
            } else {
                RetryStep::GiveUp
            }
        },
        Outcome::Transport => {
            if attempt < max_retries {
                RetryStep::Retry
            } else {
                RetryStep::GiveUp
            }
        },
    }
}

/// With no retries allowed, a failing response or a transport error ends
/// the request at once, before any sleep.
pub proof fn lemma_zero_budget_gives_up(outcome: Outcome)
    requires
        !(outcome matches Outcome::Status(s) && is_success_spec(s)),
    ensures
        retry_step_spec(outcome, 0, 0) == RetryStep::GiveUp,
{
}

/// Against a response that always fails with a retryable status, the
/// executor retries while attempts remain and gives up on the last one, so
/// it makes `max_retries + 1` attempts in all.
pub proof fn lemma_retry_budget(status: u16, attempt: nat, max_retries: nat)
    requires
        is_retryable_spec(status),
        attempt <= max_retries,
    ensures
        retry_step_spec(Outcome::Status(status), attempt, max_retries) == if attempt < max_retries {
            RetryStep::Retry
        } else {
            RetryStep::GiveUp
        },
{
}

} // verus!
