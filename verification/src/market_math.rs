//! Constant-product liquidity pool: two integer reserves whose product at
//! creation time is the invariant `k`, a single-sided swap that rounds
//! against the trader, and the proof that no swap can push the product of
//! the reserves above `k`.

use vstd::arithmetic::div_mod::{
    lemma_div_is_ordered_by_denominator, lemma_div_multiples_vanish, lemma_div_pos_is_pos,
    lemma_fundamental_div_mod,
};
use vstd::prelude::*;

verus! {

/// A constant-product market maker holding one base/quote reserve pair.
/// `k` is fixed when the pool is created; every later swap keeps
/// `reserve_base * reserve_quote <= k`, the shortfall being floor-division
/// rounding loss that always favors the pool.
#[derive(Clone, Copy, Debug, PartialEq, Eq, Structural)]
pub struct ConstantProductPool {
    pub reserve_base: u64,
    pub reserve_quote: u64,
    pub k: u128,
}

impl ConstantProductPool {
    /// Well-formedness: the base reserve stays positive and the quote
    /// reserve is exactly `floor(k / reserve_base)`, which holds at
    /// creation and is re-established by every swap.
    pub open spec fn wf(self) -> bool {
        &&& self.reserve_base >= 1
        &&& self.reserve_quote as u128 == self.k / (self.reserve_base as u128)
    }

    /// The reserve product never exceeds the creation-time invariant.
    pub proof fn lemma_product_bounded(self)
        requires
            self.wf(),
        ensures
            (self.reserve_base as u128) * (self.reserve_quote as u128) <= self.k,
    {
        let b = self.reserve_base as int;
        let k = self.k as int;
        lemma_fundamental_div_mod(k, b);
        assert(b * (k / b) <= k);
    }

    /// Initialize a pool with starting liquidity; both reserves must be
    /// positive. The invariant `k` is the wide product of the reserves.
    pub fn new(reserve_base: u64, reserve_quote: u64) -> (pool: Self)
        requires
            reserve_base >= 1,
            reserve_quote >= 1,
        ensures
            pool.wf(),
            pool.reserve_base == reserve_base,
            pool.reserve_quote == reserve_quote,
            pool.k == (reserve_base as u128) * (reserve_quote as u128),
    {
        proof {
            assert((reserve_base as u128) * (reserve_quote as u128) <= u128::MAX)
                by (nonlinear_arith)
                requires
                    reserve_base <= u64::MAX,
                    reserve_quote <= u64::MAX,
            ;
        }
        let k: u128 = (reserve_base as u128) * (reserve_quote as u128);
        proof {
            lemma_div_multiples_vanish(reserve_quote as int, reserve_base as int);
        }
        Self { reserve_base, reserve_quote, k }
    }

    /// The quote reserve the pool holds after its base reserve becomes
    /// `new_base`: `floor(k / new_base)`.
    pub open spec fn spec_quote_after(self, new_base: u64) -> u128
        recommends
            new_base >= 1,
    {
        self.k / (new_base as u128)
    }

    /// The pool state and payout that one swap produces, as a function
    /// of the starting pool and the input amount.
    pub open spec fn spec_swap(self, amount_in: u64) -> (ConstantProductPool, u64)
        recommends
            self.wf(),
            self.reserve_base + amount_in <= u64::MAX,
    {
        let new_base = (self.reserve_base + amount_in) as u64;
        let new_quote = (self.k / (new_base as u128)) as u64;
        (
            ConstantProductPool { reserve_base: new_base, reserve_quote: new_quote, k: self.k },
            (self.reserve_quote - new_quote) as u64,
        )
    }

    /// Sell `amount_in` of base for quote. The new base reserve is
    /// `reserve_base + amount_in`; the new quote reserve is
    /// `floor(k / new_base)` (integer division truncates against the
    /// trader); the payout is the quote reserve released. The quote
    /// reserve can never grow, so the payout subtraction cannot
    /// underflow.
    pub fn swap_base_for_quote(&mut self, amount_in: u64) -> (amount_out: u64)
        requires
            old(self).wf(),
            old(self).reserve_base + amount_in <= u64::MAX,
        ensures
            final(self).wf(),
            final(self).k == old(self).k,
            final(self).reserve_base == old(self).reserve_base + amount_in,
            final(self).reserve_quote as u128 == old(self).spec_quote_after(
                (old(self).reserve_base + amount_in) as u64,
            ),
            final(self).reserve_quote <= old(self).reserve_quote,
            amount_out == old(self).reserve_quote - final(self).reserve_quote,
            (final(self).reserve_base as u128) * (final(self).reserve_quote as u128)
                <= final(self).k,
            (*final(self), amount_out) == old(self).spec_swap(amount_in),
    {
        let new_reserve_base: u64 = self.reserve_base + amount_in;
        let new_quote_wide: u128 = self.k / (new_reserve_base as u128);
        proof {
            let k = self.k as int;
            let b_old = self.reserve_base as int;
            let b_new = new_reserve_base as int;
            lemma_div_pos_is_pos(k, b_new);
            lemma_div_is_ordered_by_denominator(k, b_old, b_new);
            lemma_fundamental_div_mod(k, b_new);
            assert(b_new * (k / b_new) <= k);
        }
        let new_reserve_quote: u64 = new_quote_wide as u64;
        let amount_out: u64 = self.reserve_quote - new_reserve_quote;
        self.reserve_base = new_reserve_base;
        self.reserve_quote = new_reserve_quote;
        amount_out
    }

    /// One spec-level swap step keeps the pool well-formed, keeps `k`,
    /// never grows the quote reserve, and leaves the reserve product
    /// short of `k` by exactly the floor-division remainder.
    pub proof fn lemma_spec_swap_step(self, amount_in: u64)
        requires
            self.wf(),
            self.reserve_base + amount_in <= u64::MAX,
        ensures
            self.spec_swap(amount_in).0.wf(),
            self.spec_swap(amount_in).0.k == self.k,
            self.spec_swap(amount_in).0.reserve_quote <= self.reserve_quote,
            (self.spec_swap(amount_in).0.reserve_base as int) * (self.spec_swap(
                amount_in,
            ).0.reserve_quote as int) == self.k - self.k as int % (self.reserve_base + amount_in),
    {
        let k = self.k as int;
        let b_old = self.reserve_base as int;
        let b_new = b_old + amount_in;
        lemma_div_pos_is_pos(k, b_new);
        lemma_div_is_ordered_by_denominator(k, b_old, b_new);
        lemma_fundamental_div_mod(k, b_new);
    }

    /// The pool that a whole sequence of swaps, applied in order,
    /// leaves behind.
    pub open spec fn spec_swap_seq(self, amounts: Seq<u64>) -> ConstantProductPool
        decreases amounts.len(),
    {
        if amounts.len() == 0 {
            self
        } else {
            self.spec_swap(amounts.first()).0.spec_swap_seq(amounts.drop_first())
        }
    }

    /// Every step of the sequence keeps the base reserve within `u64`.
    pub open spec fn swaps_fit(self, amounts: Seq<u64>) -> bool
        decreases amounts.len(),
    {
        amounts.len() == 0 || (self.reserve_base + amounts.first() <= u64::MAX
            && self.spec_swap(amounts.first()).0.swaps_fit(amounts.drop_first()))
    }

    /// After any sequence of swaps on one pool the reserve product never
    /// exceeds the creation-time `k`, `k` itself never changes, and the
    /// quote reserve only drains: price impact accumulates and is never
    /// given back.
    pub proof fn lemma_swap_seq_invariant(self, amounts: Seq<u64>)
        requires
            self.wf(),
            self.swaps_fit(amounts),
        ensures
            self.spec_swap_seq(amounts).wf(),
            self.spec_swap_seq(amounts).k == self.k,
            (self.spec_swap_seq(amounts).reserve_base as int) * (self.spec_swap_seq(
                amounts,
            ).reserve_quote as int) <= self.k,
            self.spec_swap_seq(amounts).reserve_quote <= self.reserve_quote,
        decreases amounts.len(),
    {
        if amounts.len() == 0 {
            self.lemma_product_bounded();
        } else {
            self.lemma_spec_swap_step(amounts.first());
            self.spec_swap(amounts.first()).0.lemma_swap_seq_invariant(amounts.drop_first());
        }
    }

    /// The swap, guarded against base-reserve overflow: returns `None`
    /// and leaves the pool untouched when `amount_in` would push the base
    /// reserve past `u64::MAX`, and the payout otherwise.
    pub fn checked_swap_base_for_quote(&mut self, amount_in: u64) -> (r: Option<u64>)
        requires
            old(self).wf(),
        ensures
            final(self).wf(),
            final(self).k == old(self).k,
            old(self).reserve_base + amount_in <= u64::MAX ==> {
                &&& r is Some
                &&& final(self).reserve_base == old(self).reserve_base + amount_in
                &&& final(self).reserve_quote as u128 == old(self).spec_quote_after(
                    (old(self).reserve_base + amount_in) as u64,
                )
                &&& r->0 == old(self).reserve_quote - final(self).reserve_quote
                &&& (*final(self), r->0) == old(self).spec_swap(amount_in)
            },
            old(self).reserve_base + amount_in > u64::MAX ==> {
                &&& r is None
                &&& *final(self) == *old(self)
            },
    {
        match self.reserve_base.checked_add(amount_in) {
            Some(_) => Some(self.swap_base_for_quote(amount_in)),
            None => None,
        }
    }
}

} // verus!
