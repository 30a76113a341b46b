//! Rate limiting and retry policy.
//!
//! AcoustID and MusicBrainz are free, volunteer-run, rationed services:
//! MusicBrainz demands one request per second and bans the addresses that
//! ignore it. The whole policy is pure logic here, without network nor clock.
//!
//! | Situation | Decision |
//! |---|---|
//! | `429 Too Many Requests` | wait **exactly** what `Retry-After` says (capped), else exponential backoff |
//! | server error (5xx) | exponential backoff: it is transient |
//! | client error (4xx) | **give up**: our request is wrong, repeating it changes nothing |
//! | network failure | exponential backoff |
//!
//! The backoff's parameters and `Retry-After` are in milliseconds; the waits
//! decided are in microseconds, so that the jitter loses nothing.
use vstd::prelude::*;

verus! {

/// Minimal interval MusicBrainz demands: one request per second, and a margin
/// of 100 ms for clock imprecision.
pub const MUSICBRAINZ_MIN_INTERVAL: u64 = 1_100;

/// AcoustID tolerates three requests per second; we stay well below.
pub const ACOUSTID_MIN_INTERVAL: u64 = 500;

/// Parameters of the exponential backoff.
#[derive(Debug, Clone, Copy)]
pub struct Backoff {
    pub base: u64,
    pub max: u64,
    /// Total number of attempts, the first included.
    pub max_attempts: u32,
}

impl Default for Backoff {
    fn default() -> (r: Self)
        ensures
            r.base == 2_000 && r.max == 60_000 && r.max_attempts == 4,
    {
        // Beyond a minute of waiting, insisting makes no sense in background
        // work: the worker will come back on its next pass.
        Backoff { base: 2_000, max: 60_000, max_attempts: 4 }
    }
}

/// `2^n`.
pub open spec fn two_to(n: nat) -> nat
    decreases n,
{
    if n == 0 {
        1
    } else {
        2 * two_to((n - 1) as nat)
    }
}

/// The exponent of attempt `attempt` (the first is 1): `attempt − 1`, at most 16.
pub open spec fn exponent_of(attempt: u32) -> nat {
    if attempt <= 1 {
        0
    } else if attempt - 1 > 16 {
        16
    } else {
        (attempt - 1) as nat
    }
}

/// The delay before jitter: `base · 2^(attempt−1)`, saturating, at most `max`.
pub open spec fn capped_delay(b: Backoff, attempt: u32) -> int {
    let raw = b.base * two_to(exponent_of(attempt));
    let raw = if raw > u64::MAX {
        u64::MAX as int
    } else {
        raw
    };
    if raw > b.max {
        b.max as int
    } else {
        raw
    }
}

/// The delay before attempt `attempt`, in microseconds, with a deterministic
/// jitter of ±25 %: the capped delay times `0.75 + (seed mod 500) / 1000`,
/// exactly (milliseconds times `(750 + seed mod 500) / 1000` are that many
/// microseconds).
pub open spec fn delay_us(b: Backoff, attempt: u32, jitter_seed: u64) -> int {
    capped_delay(b, attempt) * (750 + jitter_seed % 500)
}

/// What to do after an answer.
#[derive(Debug, Clone, Copy, PartialEq, Eq, Structural)]
pub enum Decision {
    /// Retry after this delay, in microseconds.
    Retry(u128),
    /// Give up: either the fault is ours, or we insisted enough.
    GiveUp,
}

/// Outcome of an attempt, as the client observes it.
#[derive(Debug, Clone, Copy, PartialEq, Eq, Structural)]
pub enum Outcome {
    /// HTTP answer received, with its status.
    Status(u16),
    /// No answer: network cut, DNS, timeout.
    NetworkFailure,
}

/// The decision after a failed attempt.
pub open spec fn decision(
    outcome: Outcome,
    attempt: u32,
    retry_after: Option<u64>,
    b: Backoff,
    jitter_seed: u64,
) -> Decision {
    if attempt >= b.max_attempts {
        Decision::GiveUp
    } else {
        match outcome {
            Outcome::Status(status) => if status == 429 {
                let wait: int = match retry_after {
                    Some(w) => w * 1000,
                    None => delay_us(b, attempt, jitter_seed),
                };
                Decision::Retry(
                    if wait > b.max * 1000 {
                        (b.max * 1000) as u128
                    } else {
                        wait as u128
                    },
                )
            } else if 500 <= status < 600 {
                Decision::Retry(delay_us(b, attempt, jitter_seed) as u128)
            } else {
                Decision::GiveUp
            },
            Outcome::NetworkFailure => Decision::Retry(delay_us(b, attempt, jitter_seed) as u128),
        }
    }
}

/// The jittered delay stays within a quarter of the capped delay.
pub proof fn lemma_delay_bounds(b: Backoff, attempt: u32, jitter_seed: u64)
    ensures
        0 <= capped_delay(b, attempt) <= b.max,
        capped_delay(b, attempt) * 750 <= delay_us(b, attempt, jitter_seed) <= capped_delay(
            b,
            attempt,
        ) * 1250,
{
    let c = capped_delay(b, attempt);
    let k = 750 + jitter_seed % 500;
    assert(0 <= c);
    assert(750 <= k < 1250);
    assert(c * 750 <= c * k <= c * 1250) by (nonlinear_arith)
        requires
            0 <= c,
            750 <= k < 1250,
    ;
}

impl Backoff {
    /// Delay before attempt number `attempt` (the first is 1).
    ///
    /// Exponential growth **with jitter**: without it, several clients that
    /// failed at the same instant would all retry at exactly the same time,
    /// reproducing the overload they just caused.
    /// The result is in microseconds.
    pub fn delay(&self, attempt: u32, jitter_seed: u64) -> (r: u128)
        ensures
            r == delay_us(*self, attempt, jitter_seed),
    {
        let exponent: u32 = if attempt <= 1 {
            0
        } else if attempt - 1 > 16 {
            16
        } else {
            attempt - 1
        };
        let mut factor: u64 = 1;
        let mut k: u32 = 0;
        while k < exponent
            invariant
                k <= exponent <= 16,
                factor == two_to(k as nat),
                factor <= 65_536,
            decreases exponent - k,
        {
            proof {
                lemma_two_to_bound(k as nat);
            }
            factor = factor * 2;
            k = k + 1;
        }
        let raw = match self.base.checked_mul(factor) {
            Some(v) => v,
            None => u64::MAX,
        };
        let capped = if raw > self.max {
            self.max
        } else {
            raw
        };
        proof {
            lemma_delay_bounds(*self, attempt, jitter_seed);
        }
        capped as u128 * (750 + jitter_seed % 500) as u128
    }
}

/// `2^n` grows with `n`.
pub proof fn lemma_two_to_monotone(m: nat, n: nat)
    requires
        m <= n,
    ensures
        1 <= two_to(m) <= two_to(n),
    decreases n,
{
    if n > m {
        lemma_two_to_monotone(m, (n - 1) as nat);
    } else if n > 0 {
        lemma_two_to_monotone(0, (n - 1) as nat);
    }
}

/// `2^n` stays small for small `n`.
pub proof fn lemma_two_to_bound(n: nat)
    requires
        n < 16,
    ensures
        two_to(n) * 2 <= 65_536,
        two_to(n) >= 1,
{
    assert(two_to(15) == 32_768) by {
        reveal_with_fuel(two_to, 16);
    }
    lemma_two_to_monotone(n, 15);
}

/// Decides what follows a failed attempt.
///
/// `retry_after` comes from the header of the same name. When a service says
/// explicitly how long to wait, **that value is authoritative**: replacing it by
/// our own computation is the best way to get banned.
pub fn decide(
    outcome: Outcome,
    attempt: u32,
    retry_after: Option<u64>,
    backoff: &Backoff,
    jitter_seed: u64,
) -> (r: Decision)
    ensures
        r == decision(outcome, attempt, retry_after, *backoff, jitter_seed),
{
    if attempt >= backoff.max_attempts {
        return Decision::GiveUp;
    }
    match outcome {
        Outcome::Status(status) => {
            if status == 429 {
                // The service had its say; we listen, capping all the same so
                // as not to block the worker for half an hour.
                let wait: u128 = match retry_after {
                    Some(w) => w as u128 * 1000,
                    None => backoff.delay(attempt, jitter_seed),
                };
                let max: u128 = backoff.max as u128 * 1000;
                Decision::Retry(
                    if wait > max {
                        max
                    } else {
                        wait
                    },
                )
            } else if 500 <= status && status < 600 {
                // 5xx: the service has a transient problem, not us.
                Decision::Retry(backoff.delay(attempt, jitter_seed))
            } else {
                // 4xx: our request is wrong; repeating it only burns quota.
                Decision::GiveUp
            }
        },
        Outcome::NetworkFailure => Decision::Retry(backoff.delay(attempt, jitter_seed)),
    }
}

// ── Spacing the requests of a service ──────────────────────────────────────

/// A limiter with a minimal interval, shared by all the requests of a service:
/// a request never leaves before the interval has passed since the previous
/// one. Instants are milliseconds of a monotonic clock the application reads.
#[derive(Debug, Clone, Copy, PartialEq, Eq, Structural)]
pub struct RateLimiter {
    pub min_interval: u64,
    /// When the previous request left.
    pub last_call: Option<u64>,
}

/// The wait before a request at `now`: what remains of the interval since the
/// previous one (time elapsed counted as 0 when the clock reads earlier).
pub open spec fn wait_spec(limiter: RateLimiter, now: u64) -> int {
    match limiter.last_call {
        Some(previous) => {
            let elapsed = if now >= previous {
                now - previous
            } else {
                0
            };
            if elapsed < limiter.min_interval {
                limiter.min_interval - elapsed
            } else {
                0
            }
        },
        None => 0,
    }
}

impl RateLimiter {
    /// A limiter that has let nothing through yet.
    pub fn new(min_interval: u64) -> (r: RateLimiter)
        ensures
            r.min_interval == min_interval,
            r.last_call is None,
    {
        RateLimiter { min_interval, last_call: None }
    }

    /// How long a request about to leave at `now` must wait, in milliseconds.
    pub fn wait_before(&self, now: u64) -> (r: u64)
        ensures
            r == wait_spec(*self, now),
    {
        match self.last_call {
            Some(previous) => {
                let elapsed = if now >= previous {
                    now - previous
                } else {
                    0
                };
                if elapsed < self.min_interval {
                    self.min_interval - elapsed
                } else {
                    0
                }
            },
            None => 0,
        }
    }

    /// Notes that a request left at `sent_at`.
    pub fn record(&mut self, sent_at: u64)
        ensures
            final(self).min_interval == old(self).min_interval,
            final(self).last_call == Some(sent_at),
    {
        self.last_call = Some(sent_at);
    }
}

/// Requests keep their distance: after one left at `previous`, the next one,
/// asked for at `now` (on the same clock, not earlier) and sent once its wait is
/// over, leaves at least the minimal interval later.
pub proof fn lemma_requests_are_spaced(limiter: RateLimiter, previous: u64, now: u64)
    requires
        limiter.last_call == Some(previous),
        previous <= now,
    ensures
        now + wait_spec(limiter, now) - previous >= limiter.min_interval,
        wait_spec(limiter, now) <= limiter.min_interval,
{
}

// ── Laws ───────────────────────────────────────────────────────────────────

/// Once the attempts are exhausted, whatever the outcome, the client gives up;
/// so a retry is only ever decided before the last attempt.
pub proof fn lemma_attempts_are_bounded(
    outcome: Outcome,
    attempt: u32,
    retry_after: Option<u64>,
    b: Backoff,
    jitter_seed: u64,
)
    ensures
        attempt >= b.max_attempts ==> decision(outcome, attempt, retry_after, b, jitter_seed)
            == Decision::GiveUp,
        decision(outcome, attempt, retry_after, b, jitter_seed) is Retry ==> attempt
            < b.max_attempts,
{
}

/// A client error other than 429 is never retried.
pub proof fn lemma_client_error_gives_up(
    status: u16,
    attempt: u32,
    retry_after: Option<u64>,
    b: Backoff,
    jitter_seed: u64,
)
    requires
        status != 429,
        !(500 <= status < 600),
    ensures
        decision(Outcome::Status(status), attempt, retry_after, b, jitter_seed)
            == Decision::GiveUp,
{
}

/// When the service says how long to wait, that is the wait, capped at the
/// backoff's maximum (in microseconds).
pub proof fn lemma_service_has_the_last_word(
    attempt: u32,
    wait: u64,
    b: Backoff,
    jitter_seed: u64,
)
    requires
        attempt < b.max_attempts,
    ensures
        decision(Outcome::Status(429), attempt, Some(wait), b, jitter_seed) == Decision::Retry(
            (if wait > b.max {
                b.max * 1000
            } else {
                wait * 1000
            }) as u128,
        ),
{
}

/// Server errors and network failures are retried before the last attempt, and
/// every wait stays within a quarter of the capped exponential delay, itself
/// never above the maximum.
pub proof fn lemma_transient_failures_are_retried(
    outcome: Outcome,
    attempt: u32,
    b: Backoff,
    jitter_seed: u64,
)
    requires
        attempt < b.max_attempts,
        outcome is NetworkFailure || (outcome matches Outcome::Status(s) && 500 <= s < 600),
    ensures
        decision(outcome, attempt, None, b, jitter_seed) matches Decision::Retry(w) && capped_delay(
            b,
            attempt,
        ) * 750 <= w <= capped_delay(b, attempt) * 1250 && capped_delay(b, attempt) <= b.max,
{
    lemma_delay_bounds(b, attempt, jitter_seed);
}

/// Before the cap, each attempt waits twice as long as the previous one.
pub proof fn lemma_delay_doubles(b: Backoff, attempt: u32)
    requires
        1 <= attempt <= 16,
        b.base * two_to(attempt as nat) <= b.max,
    ensures
        capped_delay(b, (attempt + 1) as u32) == 2 * capped_delay(b, attempt),
{
    assert(exponent_of((attempt + 1) as u32) == attempt as nat);
    assert(exponent_of(attempt) == (attempt - 1) as nat);
    assert(two_to(attempt as nat) == 2 * two_to((attempt - 1) as nat));
    assert(b.base * two_to(attempt as nat) == 2 * (b.base * two_to((attempt - 1) as nat))) by (
    nonlinear_arith)
        requires
            two_to(attempt as nat) == 2 * two_to((attempt - 1) as nat),
    ;
    assert(b.base * two_to((attempt - 1) as nat) <= b.base * two_to(attempt as nat)) by (
    nonlinear_arith)
        requires
            two_to(attempt as nat) == 2 * two_to((attempt - 1) as nat),
    ;
}

} // verus!
