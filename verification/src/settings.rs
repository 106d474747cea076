//! The resolved configuration that a session is made with.

use vstd::prelude::*;
use vstd::arithmetic::power2::{lemma2_to64, lemma_pow2_pos, lemma_pow2_unfold, pow2};

verus! {

/// Wait for the service to become ready, when the caller names none.
pub const DEFAULT_SPAWN_TIMEOUT_MS: u64 = 30_000;

/// Records a run may hold unacknowledged, when the caller names no bound.
pub const DEFAULT_QUEUE_CAPACITY: usize = 1024;

/// Wait on a full queue, when the caller names no policy.
pub const DEFAULT_BLOCK_TIMEOUT_MS: u64 = 5_000;

/// First pause before a reconnect, when the caller names no policy.
pub const DEFAULT_BACKOFF_BASE_MS: u64 = 100;

/// Longest pause before a reconnect, when the caller names no policy.
pub const DEFAULT_BACKOFF_CAP_MS: u64 = 5_000;

/// Reconnects tried before the transport is given up, when the caller names
/// no policy.
pub const DEFAULT_BACKOFF_ATTEMPTS: u32 = 5;

/// What `log` does when the run's queue is full.
#[derive(Clone, Copy, PartialEq, Eq, Structural, Debug)]
pub enum OverflowPolicy {
    /// Make the caller wait, up to `timeout_ms`, for room.
    Block { timeout_ms: u64 },
    /// Discard the record and count it.
    Drop,
}

/// How long to pause between attempts to reconnect, and how often to try.
#[derive(Clone, Copy, PartialEq, Eq, Structural, Debug)]
pub struct BackoffPolicy {
    /// Pause before the first attempt.
    pub base_ms: u64,
    /// No pause is longer than this.
    pub cap_ms: u64,
    /// Attempts made before the transport counts as lost for good.
    pub max_attempts: u32,
}

/// The smaller of two numbers.
pub open spec fn spec_min(a: nat, b: nat) -> nat {
    if a <= b {
        a
    } else {
        b
    }
}

impl BackoffPolicy {
    /// The pause before attempt number `attempt`, counted from zero: the base
    /// doubled once per earlier attempt, and never more than the cap.
    pub open spec fn spec_delay_ms(self, attempt: nat) -> nat {
        spec_min(self.cap_ms as nat, self.base_ms as nat * pow2(attempt))
    }

    /// The policy used when the caller names none.
    pub fn standard() -> (p: BackoffPolicy)
        ensures
            p == (BackoffPolicy {
                base_ms: DEFAULT_BACKOFF_BASE_MS,
                cap_ms: DEFAULT_BACKOFF_CAP_MS,
                max_attempts: DEFAULT_BACKOFF_ATTEMPTS,
            }),
    {
        BackoffPolicy {
            base_ms: DEFAULT_BACKOFF_BASE_MS,
            cap_ms: DEFAULT_BACKOFF_CAP_MS,
            max_attempts: DEFAULT_BACKOFF_ATTEMPTS,
        }
    }

    /// The pause, in milliseconds, before attempt number `attempt`.
    pub fn delay_ms(&self, attempt: u32) -> (d: u64)
        ensures
            d == self.spec_delay_ms(attempt as nat),
    {
        let base: u64 = self.base_ms;
        let cap: u64 = self.cap_ms;
        let mut d: u64 = if base < cap {
            base
        } else {
            cap
        };
        let mut k: u32 = 0;
        proof {
            lemma2_to64();
        }
        while k < attempt && 0 < d && d < cap
            invariant
                k <= attempt,
                base == self.base_ms,
                cap == self.cap_ms,
                d == self.spec_delay_ms(k as nat),
            decreases attempt - k,
        {
            proof {
                lemma_pow2_unfold((k + 1) as nat);
                assert(base as nat * pow2((k + 1) as nat) == 2 * (base as nat * pow2(k as nat)))
                    by (nonlinear_arith)
                    requires
                        pow2((k + 1) as nat) == 2 * pow2(k as nat),
                ;
            }
            d = if d >= cap - d {
                cap
            } else {
                d + d
            };
            k = k + 1;
        }
        proof {
            lemma_delay_settles(*self, k as nat, attempt as nat);
        }
        d
    }
}

/// Pauses never shrink from one attempt to the next, and once the pause is
/// zero or has reached the cap it stays there.
pub proof fn lemma_delay_settles(p: BackoffPolicy, k: nat, attempt: nat)
    requires
        k <= attempt,
    ensures
        p.spec_delay_ms(k) <= p.spec_delay_ms(attempt) <= p.cap_ms,
        p.spec_delay_ms(k) == 0 || p.spec_delay_ms(k) == p.cap_ms ==> p.spec_delay_ms(attempt)
            == p.spec_delay_ms(k),
    decreases attempt - k,
{
    lemma_pow2_pos(k);
    if k < attempt {
        lemma_delay_settles(p, k + 1, attempt);
        lemma_pow2_unfold(k + 1);
        let b = p.base_ms as nat;
        assert(b * pow2(k + 1) == 2 * (b * pow2(k))) by (nonlinear_arith)
            requires
                pow2(k + 1) == 2 * pow2(k),
        ;
        assert(b * pow2(k) == 0 ==> b == 0) by (nonlinear_arith)
            requires
                pow2(k) > 0,
        ;
    }
}

/// What a session is made with: where the service is, how long to wait for
/// it, and how each run's queue behaves.
#[derive(Clone, PartialEq, Eq, Debug)]
pub struct Settings {
    /// Where a running service may be found; `None` to start one.
    pub service_address: Option<String>,
    /// How long a started service may take to become ready.
    pub spawn_timeout_ms: u64,
    /// How many caller records a run may hold unacknowledged.
    pub queue_capacity: usize,
    /// Pauses between reconnects.
    pub backoff: BackoffPolicy,
    /// What `log` does on a full queue.
    pub overflow: OverflowPolicy,
}

impl Settings {
    /// Settings from the values the caller names, with the standard value in
    /// place of each `None`.
    pub fn new(
        service_address: Option<String>,
        spawn_timeout_ms: Option<u64>,
        queue_capacity: Option<usize>,
        backoff: Option<BackoffPolicy>,
        overflow: Option<OverflowPolicy>,
    ) -> (s: Settings)
        ensures
            s.service_address == service_address,
            s.spawn_timeout_ms == match spawn_timeout_ms {
                Some(t) => t,
                None => DEFAULT_SPAWN_TIMEOUT_MS,
            },
            s.queue_capacity == match queue_capacity {
                Some(c) => c,
                None => DEFAULT_QUEUE_CAPACITY,
            },
            s.backoff == match backoff {
                Some(b) => b,
                None => (BackoffPolicy {
                    base_ms: DEFAULT_BACKOFF_BASE_MS,
                    cap_ms: DEFAULT_BACKOFF_CAP_MS,
                    max_attempts: DEFAULT_BACKOFF_ATTEMPTS,
                }),
            },
            s.overflow == match overflow {
                Some(o) => o,
                None => (OverflowPolicy::Block { timeout_ms: DEFAULT_BLOCK_TIMEOUT_MS }),
            },
    {
        Settings {
            service_address,
            spawn_timeout_ms: match spawn_timeout_ms {
                Some(t) => t,
                None => DEFAULT_SPAWN_TIMEOUT_MS,
            },
            queue_capacity: match queue_capacity {
                Some(c) => c,
                None => DEFAULT_QUEUE_CAPACITY,
            },
            backoff: match backoff {
                Some(b) => b,
                None => BackoffPolicy::standard(),
            },
            overflow: match overflow {
                Some(o) => o,
                None => OverflowPolicy::Block { timeout_ms: DEFAULT_BLOCK_TIMEOUT_MS },
            },
        }
    }
}

} // verus!
