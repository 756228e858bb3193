//! Gas escalation policy.
//!
//! A replacement fee is computed from the previously broadcast fee and the
//! time elapsed since the broadcast: every `every_secs` seconds the fee grows
//! by the factor `coefficient_num / coefficient_den`, and it is clamped to
//! `max_price`.  The policy is a pure function of its inputs.
use vstd::prelude::*;

verus! {

/// A geometric fee-escalation policy: after `k = elapsed / every_secs` whole
/// intervals the fee has been multiplied `k` times by
/// `coefficient_num / coefficient_den` (rounding down each time), clamping to
/// `max_price` at every step.
pub struct GeometricGasPrice {
    /// Numerator of the per-interval growth factor.
    pub coefficient_num: u64,
    /// Denominator of the per-interval growth factor.
    pub coefficient_den: u64,
    /// Length of one escalation interval, in seconds.
    pub every_secs: u64,
    /// Hard ceiling on the fee.
    pub max_price: u128,
}

impl GeometricGasPrice {
    /// A policy is well formed when the growth factor is at least one, the
    /// interval is positive, and one escalation step on a fee at the ceiling
    /// cannot overflow.
    pub open spec fn wf(self) -> bool {
        &&& 1 <= self.coefficient_den
        &&& self.coefficient_den <= self.coefficient_num
        &&& 1 <= self.every_secs
        &&& self.max_price * self.coefficient_num <= u128::MAX
    }

    /// One escalation step: grow by the factor, then clamp to the ceiling.
    pub open spec fn spec_step(self, p: int) -> int {
        let grown = p * self.coefficient_num / self.coefficient_den as int;
        if grown <= self.max_price { grown } else { self.max_price as int }
    }

    /// `k` escalation steps applied to `p`.
    pub open spec fn spec_escalate(self, p: int, k: nat) -> int
        decreases k,
    {
        if k == 0 {
            p
        } else {
            self.spec_step(self.spec_escalate(p, (k - 1) as nat))
        }
    }

    /// The fee owed after `elapsed` seconds: one step per whole interval.
    pub open spec fn spec_next_price(self, p: int, elapsed: int) -> int {
        self.spec_escalate(p, (elapsed / self.every_secs as int) as nat)
    }

    /// Constructor.
    pub fn new(coefficient_num: u64, coefficient_den: u64, every_secs: u64, max_price: u128) -> (r:
        Self)
        requires
            1 <= coefficient_den <= coefficient_num,
            1 <= every_secs,
            max_price * coefficient_num <= u128::MAX,
        ensures
            r == (GeometricGasPrice { coefficient_num, coefficient_den, every_secs, max_price }),
            r.wf(),
    {
        GeometricGasPrice { coefficient_num, coefficient_den, every_secs, max_price }
    }

    /// Once a step leaves the fee unchanged, every later step does too.
    proof fn lemma_escalate_fixpoint(self, p0: int, i: nat, k: nat)
        requires
            i <= k,
            self.spec_step(self.spec_escalate(p0, i)) == self.spec_escalate(p0, i),
        ensures
            self.spec_escalate(p0, k) == self.spec_escalate(p0, i),
        decreases k - i,
    {
        if k > i {
            self.lemma_escalate_fixpoint(p0, i, (k - 1) as nat);
        }
    }

    /// One step never lowers a fee that is at or under the ceiling, and never
    /// lifts it over the ceiling.
    proof fn lemma_step_bounds(self, p: int)
        requires
            self.wf(),
            0 <= p <= self.max_price,
        ensures
            p <= self.spec_step(p) <= self.max_price,
    {
        assert(p * self.coefficient_num / self.coefficient_den as int >= p) by (nonlinear_arith)
            requires
                0 <= p,
                1 <= self.coefficient_den,
                self.coefficient_den <= self.coefficient_num,
        ;
    }

    /// After any number of steps the fee stays between its starting value and
    /// the ceiling.
    proof fn lemma_escalate_bounds(self, p: int, k: nat)
        requires
            self.wf(),
            0 <= p <= self.max_price,
        ensures
            p <= self.spec_escalate(p, k) <= self.max_price,
        decreases k,
    {
        if k > 0 {
            self.lemma_escalate_bounds(p, (k - 1) as nat);
            self.lemma_step_bounds(self.spec_escalate(p, (k - 1) as nat));
        }
    }

    /// More steps never lower the fee.
    proof fn lemma_escalate_monotone(self, p: int, k1: nat, k2: nat)
        requires
            self.wf(),
            0 <= p <= self.max_price,
            k1 <= k2,
        ensures
            self.spec_escalate(p, k1) <= self.spec_escalate(p, k2),
        decreases k2 - k1,
    {
        if k2 > k1 {
            self.lemma_escalate_monotone(p, k1, (k2 - 1) as nat);
            self.lemma_escalate_bounds(p, (k2 - 1) as nat);
            self.lemma_step_bounds(self.spec_escalate(p, (k2 - 1) as nat));
        }
    }

    /// The escalated fee never drops below the fee it replaces.
    pub proof fn lemma_next_price_ge(self, p: int, elapsed: int)
        requires
            self.wf(),
            0 <= p <= self.max_price,
            0 <= elapsed,
        ensures
            self.spec_next_price(p, elapsed) >= p,
    {
        vstd::arithmetic::div_mod::lemma_div_pos_is_pos(elapsed, self.every_secs as int);
        self.lemma_escalate_bounds(p, (elapsed / self.every_secs as int) as nat);
    }

    /// The escalated fee never exceeds the ceiling.
    pub proof fn lemma_next_price_le_ceiling(self, p: int, elapsed: int)
        requires
            self.wf(),
            0 <= p <= self.max_price,
            0 <= elapsed,
        ensures
            self.spec_next_price(p, elapsed) <= self.max_price,
    {
        vstd::arithmetic::div_mod::lemma_div_pos_is_pos(elapsed, self.every_secs as int);
        self.lemma_escalate_bounds(p, (elapsed / self.every_secs as int) as nat);
    }

    /// Before the first whole interval has elapsed the fee is unchanged; in
    /// particular `spec_next_price(p, 0) == p`.
    pub proof fn lemma_next_price_zero_elapsed(self, p: int, elapsed: int)
        requires
            self.wf(),
            0 <= p <= self.max_price,
            0 <= elapsed < self.every_secs,
        ensures
            self.spec_next_price(p, elapsed) == p,
    {
        vstd::arithmetic::div_mod::lemma_basic_div_specific_divisor(self.every_secs as int);
    }

    /// The escalated fee is monotone non-decreasing in the elapsed time.
    pub proof fn lemma_next_price_monotone(self, p: int, elapsed1: int, elapsed2: int)
        requires
            self.wf(),
            0 <= p <= self.max_price,
            0 <= elapsed1 <= elapsed2,
        ensures
            self.spec_next_price(p, elapsed1) <= self.spec_next_price(p, elapsed2),
    {
        vstd::arithmetic::div_mod::lemma_div_pos_is_pos(elapsed1, self.every_secs as int);
        vstd::arithmetic::div_mod::lemma_div_is_ordered(
            elapsed1,
            elapsed2,
            self.every_secs as int,
        );
        self.lemma_escalate_monotone(
            p,
            (elapsed1 / self.every_secs as int) as nat,
            (elapsed2 / self.every_secs as int) as nat,
        );
    }

    /// A step that strictly grows a fee under the ceiling makes the escalated
    /// fee strictly larger once a whole interval has elapsed.
    pub proof fn lemma_next_price_strict(self, p: int, elapsed: int)
        requires
            self.wf(),
            0 <= p < self.max_price,
            p * (self.coefficient_num - self.coefficient_den) >= self.coefficient_den,
            self.every_secs <= elapsed,
        ensures
            self.spec_next_price(p, elapsed) > p,
    {
        let den = self.coefficient_den as int;
        let num = self.coefficient_num as int;
        assert(p * num / den >= p + 1) by (nonlinear_arith)
            requires
                0 <= p,
                1 <= den <= num,
                p * (num - den) >= den,
        ;
        assert(self.spec_step(p) > p);
        let k = (elapsed / self.every_secs as int) as nat;
        vstd::arithmetic::div_mod::lemma_div_is_ordered(
            self.every_secs as int,
            elapsed,
            self.every_secs as int,
        );
        vstd::arithmetic::div_mod::lemma_div_by_multiple(1, self.every_secs as int);
        assert(k >= 1);
        self.lemma_step_bounds(p);
        self.lemma_escalate_monotone(p, 1nat, k);
        assert(self.spec_escalate(p, 0nat) == p);
        assert(self.spec_escalate(p, 1nat) == self.spec_step(p));
    }

    /// The replacement fee for a transaction whose last fee was `previous`,
    /// broadcast `elapsed` seconds ago.
    pub fn get_gas_price(&self, previous: u128, elapsed: u64) -> (r: u128)
        requires
            self.wf(),
            previous <= self.max_price,
        ensures
            r as int == self.spec_next_price(previous as int, elapsed as int),
            previous <= r <= self.max_price,
    {
        let k: u64 = elapsed / self.every_secs;
        let num: u128 = self.coefficient_num as u128;
        let den: u128 = self.coefficient_den as u128;
        let mut p: u128 = previous;
        let mut i: u64 = 0;
        proof {
            self.lemma_escalate_bounds(previous as int, (elapsed as int / self.every_secs as int) as nat);
        }
        while i < k
            invariant
                self.wf(),
                i <= k,
                p <= self.max_price,
                num == self.coefficient_num as u128,
                den == self.coefficient_den as u128,
                p as int == self.spec_escalate(previous as int, i as nat),
                self.spec_escalate(previous as int, k as nat) == self.spec_next_price(
                    previous as int,
                    elapsed as int,
                ),
            decreases k - i,
        {
            proof {
                assert(p * num <= self.max_price * num) by (nonlinear_arith)
                    requires
                        0 <= p <= self.max_price,
                        0 <= num,
                ;
            }
            let grown: u128 = p * num / den;
            let next: u128 = if grown <= self.max_price {
                grown
            } else {
                self.max_price
            };
            proof {
                assert(next as int == self.spec_step(self.spec_escalate(previous as int, i as nat)));
                self.lemma_step_bounds(p as int);
            }
            if next == p {
                proof {
                    self.lemma_escalate_fixpoint(previous as int, i as nat, k as nat);
                }
                i = k;
            } else {
                p = next;
                i = i + 1;
            }
        }
        p
    }
}

} // verus!
