use vstd::prelude::*;

use vstd::arithmetic::power2::{lemma_pow2_strictly_increases, lemma_pow2_unfold, pow2};

use crate::codec::random_in_range;
use crate::config::ReconnectConfig;

verus! {

/// Where the authorization schedule stands: how many attempts in a row have
/// failed, and the delay (before jitter) to wait before the next one.
#[derive(Clone, Copy, Debug, PartialEq, Eq, Structural)]
pub struct ReconnectState {
    pub attempt: u32,
    pub base_delay: u64,
}

/// What the schedule does next.
#[derive(Clone, Copy, Debug, PartialEq, Eq, Structural)]
pub enum ReconnectStep {
    /// Wait, then try to authorize.
    Authorize,
    /// Every attempt failed: start over from the configured delay.
    StartOver,
}

/// Whether `base` times `jitter` exceeds 64 bits.
pub open spec fn delay_overflows(base: u64, jitter: u64) -> bool {
    base * jitter > u64::MAX
}

/// `base` scaled by a factor given in thousandths.
pub open spec fn scaled_delay(base: u64, jitter: u64) -> int {
    base * jitter / 1000
}

/// The state after `n` failures in a row from the start.
pub open spec fn after_failures(cfg: ReconnectConfig, n: nat) -> ReconnectState
    decreases n,
{
    if n == 0 {
        ReconnectState { attempt: 0, base_delay: cfg.base_delay_ms }
    } else {
        let s = after_failures(cfg, (n - 1) as nat);
        ReconnectState { attempt: (s.attempt + 1) as u32, base_delay: (s.base_delay * 2) as u64 }
    }
}

impl ReconnectState {
    /// The schedule at its start, or after a success.
    pub fn new(cfg: &ReconnectConfig) -> (r: ReconnectState)
        ensures
            r == (ReconnectState { attempt: 0, base_delay: cfg.base_delay_ms }),
    {
        ReconnectState { attempt: 0, base_delay: cfg.base_delay_ms }
    }

    /// Authorize while fewer than `max_attempts` attempts in a row have
    /// failed; otherwise start over.
    pub fn next_step(&self, cfg: &ReconnectConfig) -> (r: ReconnectStep)
        ensures
            r == if self.attempt < cfg.max_attempts {
                ReconnectStep::Authorize
            } else {
                ReconnectStep::StartOver
            },
    {
        if self.attempt < cfg.max_attempts {
            ReconnectStep::Authorize
        } else {
            ReconnectStep::StartOver
        }
    }

    /// The delay before an attempt for a jitter factor given in thousandths.
    pub fn delay_for_jitter(&self, jitter: u64) -> (ms: u64)
        requires
            self.base_delay * jitter <= u64::MAX,
        ensures
            ms == scaled_delay(self.base_delay, jitter),
    {
        self.base_delay * jitter / 1000
    }

    /// The delay before the next attempt: the base delay scaled by a random
    /// factor between 0.8 and 1.2, or `None` where that product does not fit
    /// in 64 bits.
    pub fn jittered_delay(&self) -> (r: Option<u64>)
        ensures
            match r {
                Some(ms) => exists|j: u64|
                    800 <= j < 1200 && !delay_overflows(self.base_delay, j) && ms
                        == #[trigger] scaled_delay(self.base_delay, j),
                None => exists|j: u64|
                    800 <= j < 1200 && #[trigger] delay_overflows(self.base_delay, j),
            },
            self.base_delay * 1199 <= u64::MAX ==> r is Some,
    {
        let jitter = random_in_range(800, 1200);
        proof {
            assert(self.base_delay * jitter <= self.base_delay * 1199) by (nonlinear_arith)
                requires
                    jitter < 1200,
            ;
        }
        match self.base_delay.checked_mul(jitter) {
            None => {
                assert(delay_overflows(self.base_delay, jitter));
                None
            },
            Some(p) => {
                let ms = p / 1000;
                assert(800 <= jitter < 1200 && !delay_overflows(self.base_delay, jitter) && ms
                    == scaled_delay(self.base_delay, jitter));
                Some(ms)
            },
        }
    }

    /// The state after a failed attempt: one more failure, and the delay
    /// doubled.
    pub fn after_failure(&self) -> (r: ReconnectState)
        requires
            self.attempt < u32::MAX,
            self.base_delay * 2 <= u64::MAX,
        ensures
            r == (ReconnectState { attempt: (self.attempt + 1) as u32, base_delay: (self.base_delay * 2) as u64 }),
    {
        ReconnectState { attempt: self.attempt + 1, base_delay: self.base_delay * 2 }
    }
}

/// After `n` failures in a row from the start, `n` attempts have failed and
/// the delay is the configured one times 2^n (where the numbers fit).
pub proof fn lemma_backoff_doubles(cfg: ReconnectConfig, n: nat)
    requires
        n <= u32::MAX,
        cfg.base_delay_ms * pow2(n) <= u64::MAX,
    ensures
        after_failures(cfg, n).attempt == n,
        after_failures(cfg, n).base_delay == cfg.base_delay_ms * pow2(n),
    decreases n,
{
    if n > 0 {
        lemma_pow2_unfold(n);
        assert(cfg.base_delay_ms * pow2((n - 1) as nat) <= cfg.base_delay_ms * pow2(n)) by (nonlinear_arith)
            requires
                pow2(n) == 2 * pow2((n - 1) as nat),
        ;
        lemma_backoff_doubles(cfg, (n - 1) as nat);
        assert(cfg.base_delay_ms * pow2(n) == cfg.base_delay_ms * pow2((n - 1) as nat) * 2) by (nonlinear_arith)
            requires
                pow2(n) == 2 * pow2((n - 1) as nat),
        ;
    } else {
        assert(pow2(0) == 1) by {
            vstd::arithmetic::power2::lemma2_to64();
        }
    }
}

/// Where the configured delay times 2^`max_attempts` times 1199 fits in 64
/// bits, every state from which the schedule authorizes (fewer than
/// `max_attempts` failures in a row) has a jittered delay that fits, and the
/// state after its failure fits too: no multiplication of the schedule
/// overflows. The defaults (1000 ms, 5 attempts) are far inside the bound.
pub proof fn lemma_schedule_fits(cfg: ReconnectConfig, n: nat)
    requires
        n < cfg.max_attempts,
        cfg.base_delay_ms * pow2(cfg.max_attempts as nat) * 1199 <= u64::MAX,
    ensures
        after_failures(cfg, n).attempt == n,
        after_failures(cfg, n).attempt < u32::MAX,
        after_failures(cfg, n).base_delay * 1199 <= u64::MAX,
        after_failures(cfg, n).base_delay * 2 <= u64::MAX,
{
    let m = cfg.max_attempts as nat;
    lemma_pow2_strictly_increases(n, m);
    if n + 1 < m {
        lemma_pow2_strictly_increases((n + 1) as nat, m);
    }
    lemma_pow2_unfold(n + 1);
    let b = cfg.base_delay_ms as int;
    assert(b * pow2(n) * 1199 <= b * pow2(m) * 1199 && b * pow2(n) * 2 <= b * pow2(m) * 1199)
        by (nonlinear_arith)
        requires
            pow2(n) < pow2(m),
            pow2(n + 1) <= pow2(m),
            pow2(n + 1) == 2 * pow2(n),
            b >= 0,
    ;
    lemma_backoff_doubles(cfg, n);
}

/// Attempts to open the control stream after one authorization.
pub const CONNECT_ATTEMPTS: u32 = 3;

/// The delay before the `attempt`-th connection attempt: 1 s, doubled after
/// each failure.
pub open spec fn connect_delay(attempt: nat) -> nat
    decreases attempt,
{
    if attempt == 0 {
        1000
    } else {
        2 * connect_delay((attempt - 1) as nat)
    }
}

/// Where the connection retries after one authorization stand.
pub struct ConnectRetry {
    attempt: u32,
    delay: u64,
}

impl ConnectRetry {
    #[verifier::type_invariant]
    spec fn inv(&self) -> bool {
        &&& self.attempt <= CONNECT_ATTEMPTS
        &&& self.delay == connect_delay(self.attempt as nat)
    }

    pub closed spec fn attempts(&self) -> nat {
        self.attempt as nat
    }

    pub closed spec fn delay(&self) -> nat {
        self.delay as nat
    }

    /// No attempt made yet; the first waits 1 s.
    pub fn new() -> (r: ConnectRetry)
        ensures
            r.attempts() == 0,
            r.delay() == 1000,
    {
        ConnectRetry { attempt: 0, delay: 1000 }
    }

    /// Whether another attempt is due: fewer than three have failed.
    pub fn can_retry(&self) -> (r: bool)
        ensures
            r == (self.attempts() < CONNECT_ATTEMPTS),
    {
        self.attempt < CONNECT_ATTEMPTS
    }

    /// How many attempts have failed.
    pub fn failed_attempts(&self) -> (r: u32)
        ensures
            r == self.attempts(),
    {
        self.attempt
    }

    /// The wait before the next attempt: the current delay plus up to 199 ms
    /// of random jitter.
    pub fn wait_ms(&self) -> (ms: u64)
        ensures
            self.delay() <= ms < self.delay() + 200,
    {
        proof {
            use_type_invariant(self);
            lemma_connect_delay_bound(self.attempt as nat);
        }
        self.delay + random_in_range(0, 200)
    }

    /// The state after a failed attempt: one more failure, the delay doubled.
    pub fn after_failure(self) -> (r: ConnectRetry)
        requires
            self.attempts() < CONNECT_ATTEMPTS,
        ensures
            r.attempts() == self.attempts() + 1,
            r.delay() == 2 * self.delay(),
            r.delay() == connect_delay(r.attempts()),
    {
        proof {
            use_type_invariant(&self);
            lemma_connect_delay_bound(self.attempt as nat);
        }
        ConnectRetry { attempt: self.attempt + 1, delay: self.delay * 2 }
    }
}

proof fn lemma_connect_delay_bound(a: nat)
    requires
        a <= CONNECT_ATTEMPTS,
    ensures
        connect_delay(a) <= 8000,
{
    reveal_with_fuel(connect_delay, 4);
}

} // verus!
