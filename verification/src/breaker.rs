//! Retry and circuit-breaker policy: the decisions of error management as a
//! state machine over plain values.  A surrounding loop runs operations,
//! reports outcomes here, and obeys the verdicts.

use vstd::prelude::*;
use vstd::arithmetic::power2::pow2;
use vstd::bits::{lemma_u64_pow2_no_overflow, lemma_u64_shl_is_mul};
use crate::omnixerror::OmniXErrorManagerConfig;

verus! {

/// Where the circuit stands: passing, refusing since a moment in time, or
/// letting one trial through.
#[derive(Clone, Copy, PartialEq, Eq, Structural, Debug)]
pub enum CircuitState {
    Closed,
    Open(u64),
    HalfOpen,
}

/// Decides whether operations may proceed, counting consecutive failures
/// and opening a circuit when they pass the threshold.
pub struct OmniXErrorManager {
    pub config: OmniXErrorManagerConfig,
    pub error_count: usize,
    pub circuit_state: CircuitState,
    pub last_error_at: u64,
    pub half_open_trials: usize,
}

/// The smaller of two durations.
pub open spec fn min_ms(a: int, b: int) -> int {
    if a < b {
        a
    } else {
        b
    }
}

impl OmniXErrorManager {
    pub fn new(config: OmniXErrorManagerConfig) -> (r: OmniXErrorManager)
        ensures
            r.config == config,
            r.error_count == 0,
            r.circuit_state == CircuitState::Closed,
            r.half_open_trials == 0,
    {
        OmniXErrorManager {
            config,
            error_count: 0,
            circuit_state: CircuitState::Closed,
            last_error_at: 0,
            half_open_trials: 0,
        }
    }

    /// Replaces the settings; counts and state stand.
    pub fn update_config(&mut self, config: OmniXErrorManagerConfig)
        ensures
            final(self).config == config,
            final(self).error_count == old(self).error_count,
            final(self).circuit_state == old(self).circuit_state,
            final(self).half_open_trials == old(self).half_open_trials,
            final(self).last_error_at == old(self).last_error_at,
    {
        self.config = config;
    }

    /// Whether an operation may proceed now.  A circuit open long enough
    /// moves to half-open, which lets exactly one trial through.
    pub fn check_circuit_state(&mut self, now: u64) -> (r: bool)
        ensures
            final(self).config == old(self).config,
            final(self).error_count == old(self).error_count,
            final(self).last_error_at == old(self).last_error_at,
            old(self).circuit_state == CircuitState::Closed ==> r && final(self).circuit_state == CircuitState::Closed && final(self).half_open_trials == old(
                self,
            ).half_open_trials,
            old(self).circuit_state matches CircuitState::Open(at) ==> (if now >= at + old(
                self,
            ).config.circuit_breaker_duration_ms {
                r && final(self).circuit_state == CircuitState::HalfOpen && final(self).half_open_trials == 0
            } else {
                !r && final(self).circuit_state == old(self).circuit_state && final(self).half_open_trials == old(self).half_open_trials
            }),
            old(self).circuit_state == CircuitState::HalfOpen ==> (if old(
                self,
            ).half_open_trials < 1 {
                r && final(self).circuit_state == CircuitState::HalfOpen && final(self).half_open_trials == old(self).half_open_trials + 1
            } else {
                !r && final(self).circuit_state == CircuitState::HalfOpen && final(self).half_open_trials == old(self).half_open_trials
            }),
    {
        match self.circuit_state {
            CircuitState::Closed => true,
            CircuitState::Open(at) => {
                if now >= at && now - at >= self.config.circuit_breaker_duration_ms {
                    self.circuit_state = CircuitState::HalfOpen;
                    self.half_open_trials = 0;
                    true
                } else {
                    false
                }
            },
            CircuitState::HalfOpen => {
                if self.half_open_trials < 1 {
                    self.half_open_trials = self.half_open_trials + 1;
                    true
                } else {
                    false
                }
            },
        }
    }

    /// A success closes the circuit and clears the failure count.
    pub fn record_success(&mut self)
        ensures
            final(self).config == old(self).config,
            final(self).error_count == 0,
            final(self).circuit_state == CircuitState::Closed,
            final(self).half_open_trials == 0,
            final(self).last_error_at == old(self).last_error_at,
    {
        self.error_count = 0;
        self.circuit_state = CircuitState::Closed;
        self.half_open_trials = 0;
    }

    /// A failure raises the count; at the threshold the circuit opens and
    /// the call reports that it tripped.
    pub fn record_failure(&mut self, now: u64) -> (tripped: bool)
        ensures
            final(self).config == old(self).config,
            final(self).last_error_at == now,
            final(self).error_count == (if old(self).error_count < usize::MAX {
                old(self).error_count + 1
            } else {
                old(self).error_count as int
            }),
            tripped == (final(self).error_count >= old(self).config.circuit_breaker_threshold),
            (if tripped {
                final(self).circuit_state == CircuitState::Open(now) && final(self).half_open_trials == 0
            } else {
                final(self).circuit_state == old(self).circuit_state && final(self).half_open_trials == old(self).half_open_trials
            }),
    {
        if self.error_count < usize::MAX {
            self.error_count = self.error_count + 1;
        }
        self.last_error_at = now;
        if self.error_count >= self.config.circuit_breaker_threshold {
            self.circuit_state = CircuitState::Open(now);
            self.half_open_trials = 0;
            true
        } else {
            false
        }
    }

    /// The delay before retry number `retries`: the base delay doubled that
    /// many times, capped at the configured maximum.
    pub fn backoff_delay_ms(&self, retries: u32) -> (r: u64)
        ensures
            r as int == min_ms(
                self.config.base_delay_ms * pow2(retries as nat),
                self.config.max_delay_ms as int,
            ),
    {
        let base = self.config.base_delay_ms;
        let cap = self.config.max_delay_ms;
        if base == 0 {
            proof {
                assert(base * pow2(retries as nat) == 0) by (nonlinear_arith)
                    requires
                        base == 0,
                ;
            }
            return 0;
        }
        if retries >= 64 {
            proof {
                vstd::arithmetic::power2::lemma2_to64_rest();
                if retries > 64 {
                    vstd::arithmetic::power2::lemma_pow2_strictly_increases(
                        64,
                        retries as nat,
                    );
                }
                assert(pow2(retries as nat) > u64::MAX);
                assert(base * pow2(retries as nat) >= pow2(retries as nat)) by (
                nonlinear_arith)
                    requires
                        base >= 1,
                ;
            }
            return cap;
        }
        let p: u64 = 1u64 << retries as u64;
        proof {
            lemma_u64_pow2_no_overflow(retries as nat);
            lemma_u64_shl_is_mul(1u64, retries as u64);
            assert(p == pow2(retries as nat));
            assert(p >= 1) by {
                vstd::arithmetic::power2::lemma_pow2_pos(retries as nat);
            }
        }
        if base > u64::MAX / p {
            proof {
                assert(base * p > u64::MAX) by (nonlinear_arith)
                    requires
                        p >= 1,
                        base > u64::MAX / p,
                        u64::MAX / p == (u64::MAX as int) / (p as int),
                ;
            }
            return cap;
        }
        proof {
            assert(base * p <= u64::MAX) by (nonlinear_arith)
                requires
                    p >= 1,
                    base <= u64::MAX / p,
                    u64::MAX / p == (u64::MAX as int) / (p as int),
            ;
        }
        let prod = base * p;
        if prod > cap {
            cap
        } else {
            prod
        }
    }
}

} // verus!
