//! Admission control: a token bucket that bounds the rate at which new
//! attempts may start.
//!
//! Token amounts are held in *microtokens* (millionths of a token) so that
//! lazy time-based refills are exact integer arithmetic: a rate of `r`
//! tokens per second adds exactly `r` microtokens per elapsed microsecond.
//! The caller supplies the current time in microseconds on each call (a
//! monotonic clock reading), so the bucket itself never reads a clock.

use vstd::prelude::*;

verus! {

/// Number of microtokens in one whole token.
pub const MICROS_PER_TOKEN: u64 = 1_000_000;

/// A token-bucket rate gate.
///
/// State: burst capacity, currently available tokens (bounded above by the
/// capacity), refill rate, and the time of the last refill. Refills happen
/// lazily on each admission check. A configured rate of zero is clamped to
/// one token per second so admission can never stall forever.
pub struct TokenBucket {
    capacity_micro: u64,
    tokens_micro: u64,
    rate: u64,
    last_refill_micros: u64,
    admitted_micro: Ghost<nat>,
    start_micros: Ghost<u64>,
}

impl TokenBucket {
    /// Burst capacity, in microtokens.
    pub closed spec fn capacity(self) -> u64 {
        self.capacity_micro
    }

    /// Tokens currently available, in microtokens.
    pub closed spec fn tokens(self) -> u64 {
        self.tokens_micro
    }

    /// Refill rate in tokens per second, which equals microtokens per
    /// microsecond.
    pub closed spec fn rate(self) -> u64 {
        self.rate
    }

    /// Time of the last refill, microseconds.
    pub closed spec fn last_refill(self) -> u64 {
        self.last_refill_micros
    }

    /// Total cost admitted since construction, in microtokens.
    pub closed spec fn admitted(self) -> nat {
        self.admitted_micro@
    }

    /// Construction time of the bucket, microseconds.
    pub closed spec fn start(self) -> u64 {
        self.start_micros@
    }

    /// Well-formedness: available tokens never exceed the capacity, the
    /// rate is at least one token per second, and everything admitted so
    /// far is covered by the initial burst plus what time has refilled.
    pub closed spec fn wf(self) -> bool {
        &&& self.tokens_micro <= self.capacity_micro
        &&& self.rate >= 1
        &&& self.start_micros@ <= self.last_refill_micros
        &&& self.admitted_micro@ + self.tokens_micro <= self.capacity_micro
            + self.rate * (self.last_refill_micros - self.start_micros@)
    }

    /// The token count a refill at `now_micros` produces: elapsed time
    /// times the rate, capped at the capacity.
    pub open spec fn refilled(self, now_micros: u64) -> int {
        vstd::math::min(
            self.capacity() as int,
            self.tokens() + (now_micros - self.last_refill()) * self.rate(),
        )
    }

    /// Creates a gate holding a full burst of `capacity_tokens`, refilled
    /// at `rate_tokens_per_sec` (clamped to a minimum of one token per
    /// second), with the clock starting at `now_micros`.
    pub fn new(capacity_tokens: u64, rate_tokens_per_sec: u64, now_micros: u64) -> (gate: Self)
        requires
            capacity_tokens * MICROS_PER_TOKEN <= u64::MAX,
        ensures
            gate.wf(),
            gate.capacity() == capacity_tokens * MICROS_PER_TOKEN,
            gate.tokens() == gate.capacity(),
            gate.rate() == (if rate_tokens_per_sec == 0 { 1u64 } else { rate_tokens_per_sec }),
            gate.last_refill() == now_micros,
            gate.start() == now_micros,
            gate.admitted() == 0,
    {
        let capacity_micro = capacity_tokens * MICROS_PER_TOKEN;
        let rate = if rate_tokens_per_sec == 0 { 1u64 } else { rate_tokens_per_sec };
        TokenBucket {
            capacity_micro,
            tokens_micro: capacity_micro,
            rate,
            last_refill_micros: now_micros,
            admitted_micro: Ghost(0nat),
            start_micros: Ghost(now_micros),
        }
    }

    /// Lazy refill: adds elapsed-time-times-rate microtokens, capped at
    /// the capacity, and advances the refill clock.
    fn refill(&mut self, now_micros: u64)
        requires
            old(self).wf(),
            now_micros >= old(self).last_refill(),
        ensures
            final(self).wf(),
            final(self).capacity() == old(self).capacity(),
            final(self).rate() == old(self).rate(),
            final(self).start() == old(self).start(),
            final(self).admitted() == old(self).admitted(),
            final(self).last_refill() == now_micros,
            final(self).tokens() == old(self).refilled(now_micros),
    {
        let elapsed: u64 = now_micros - self.last_refill_micros;
        proof {
            vstd::arithmetic::mul::lemma_mul_upper_bound(
                elapsed as int,
                u64::MAX as int,
                self.rate as int,
                u64::MAX as int,
            );
        }
        let added: u128 = (elapsed as u128) * (self.rate as u128);
        let room: u64 = self.capacity_micro - self.tokens_micro;
        if added >= room as u128 {
            self.tokens_micro = self.capacity_micro;
        } else {
            self.tokens_micro = self.tokens_micro + (added as u64);
        }
        self.last_refill_micros = now_micros;
        proof {
            let r = self.rate as int;
            let s = self.start_micros@ as int;
            let prev = old(self).last_refill_micros as int;
            let now = now_micros as int;
            vstd::arithmetic::mul::lemma_mul_is_distributive_add(r, prev - s, now - prev);
            vstd::arithmetic::mul::lemma_mul_is_commutative(elapsed as int, self.rate as int);
            assert(r * (prev - s) + r * (now - prev) == r * (now - s));
            assert(added == (elapsed as int) * (self.rate as int));
        }
    }

    /// Admission check: refills lazily, then admits `cost_tokens` if and
    /// only if that many tokens are available, deducting them when it
    /// does. Never blocks and never errors.
    pub fn try_consume(&mut self, now_micros: u64, cost_tokens: u64) -> (admitted: bool)
        requires
            old(self).wf(),
            now_micros >= old(self).last_refill(),
            cost_tokens * MICROS_PER_TOKEN <= u64::MAX,
        ensures
            final(self).wf(),
            final(self).capacity() == old(self).capacity(),
            final(self).rate() == old(self).rate(),
            final(self).start() == old(self).start(),
            final(self).last_refill() == now_micros,
            admitted == (old(self).refilled(now_micros) >= cost_tokens * MICROS_PER_TOKEN),
            admitted ==> {
                &&& final(self).tokens() == old(self).refilled(now_micros) - cost_tokens
                    * MICROS_PER_TOKEN
                &&& final(self).admitted() == old(self).admitted() + cost_tokens
                    * MICROS_PER_TOKEN
            },
            !admitted ==> {
                &&& final(self).tokens() == old(self).refilled(now_micros)
                &&& final(self).admitted() == old(self).admitted()
            },
    {
        self.refill(now_micros);
        let cost_micro: u64 = cost_tokens * MICROS_PER_TOKEN;
        if self.tokens_micro >= cost_micro {
            self.tokens_micro = self.tokens_micro - cost_micro;
            self.admitted_micro = Ghost(self.admitted_micro@ + cost_micro as nat);
            true
        } else {
            false
        }
    }
    /// How long a blocked caller must wait before `cost_tokens` can be
    /// admitted: after `wait` more microseconds the refill covers the
    /// cost, so the blocking admission variant sleeps this long and then
    /// retries. Zero exactly when the cost is covered already. A cost
    /// above the burst capacity could never be admitted, so it is ruled
    /// out up front.
    pub fn micros_until_admittable(&self, now_micros: u64, cost_tokens: u64) -> (wait: u64)
        requires
            self.wf(),
            now_micros >= self.last_refill(),
            cost_tokens * MICROS_PER_TOKEN <= self.capacity(),
        ensures
            self.tokens() + ((now_micros - self.last_refill()) + wait) * self.rate()
                >= cost_tokens * MICROS_PER_TOKEN,
            wait == 0 <==> self.refilled(now_micros) >= cost_tokens * MICROS_PER_TOKEN,
    {
        let cost_micro: u64 = cost_tokens * MICROS_PER_TOKEN;
        let elapsed: u64 = now_micros - self.last_refill_micros;
        proof {
            vstd::arithmetic::mul::lemma_mul_upper_bound(
                elapsed as int,
                u64::MAX as int,
                self.rate as int,
                u64::MAX as int,
            );
            vstd::arithmetic::mul::lemma_mul_is_commutative(elapsed as int, self.rate as int);
        }
        let unclamped: u128 = self.tokens_micro as u128 + (elapsed as u128) * (self.rate as u128);
        if unclamped >= cost_micro as u128 {
            proof {
                assert(((now_micros - self.last_refill()) + 0) * self.rate() == (now_micros
                    - self.last_refill()) * self.rate());
            }
            0
        } else {
            let deficit: u128 = cost_micro as u128 - unclamped;
            let rate_wide: u128 = self.rate as u128;
            let wait_wide: u128 = (deficit + rate_wide - 1) / rate_wide;
            proof {
                let d = deficit as int;
                let r = rate_wide as int;
                let w = wait_wide as int;
                vstd::arithmetic::div_mod::lemma_fundamental_div_mod(d + r - 1, r);
                vstd::arithmetic::div_mod::lemma_mod_division_less_than_divisor(d + r - 1, r);
                assert(r * w == d + r - 1 - ((d + r - 1) % r));
                assert(r * w >= d);
                assert(r * w <= d + r - 1);
                // The wait fits back into the clock's type: it is at
                // most the deficit itself.
                assert(w <= d) by (nonlinear_arith)
                    requires
                        r * w >= d,
                        r * w <= d + r - 1,
                        r >= 1,
                        d >= 1,
                        w >= 0,
                ;
                // After the wait, the unclamped refill covers the cost.
                let e = elapsed as int;
                vstd::arithmetic::mul::lemma_mul_is_distributive_add(r, e, w);
                vstd::arithmetic::mul::lemma_mul_is_commutative(e + w, r);
                assert(r * w >= 1) by (nonlinear_arith)
                    requires
                        r * w >= d,
                        d >= 1,
                ;
                assert(w >= 1);
            }
            wait_wide as u64
        }
    }
}

/// Burst-bounded rate law: a gate configured with rate `r` tokens per
/// second admits, over any observation window from its construction to a
/// time at or past its last refill, at most `r` times the window length
/// (in microseconds) plus the burst capacity — all counted in microtokens.
pub proof fn lemma_rate_law(gate: TokenBucket, now_micros: u64)
    requires
        gate.wf(),
        now_micros >= gate.last_refill(),
    ensures
        gate.admitted() <= gate.capacity() + gate.rate() * (now_micros - gate.start()),
{
    let r = gate.rate() as int;
    let a = (gate.last_refill() - gate.start()) as int;
    let b = (now_micros - gate.start()) as int;
    assert(r * a <= r * b) by (nonlinear_arith)
        requires 0 <= r && 0 <= a <= b;
}

} // verus!
