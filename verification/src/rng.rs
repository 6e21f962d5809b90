//! The process-wide random source of the backend, as an explicit value: a
//! linear congruential generator with init-once / reseed semantics, and the
//! random tensor constructor built on it.

use vstd::prelude::*;

use crate::shape::{lemma_prod_nonneg, num_elems, prod};
use crate::tensor::Tensor;

verus! {

/// The multiplier of the generator.
pub const LCG_MUL: u64 = 6364136223846793005;

/// The increment of the generator.
pub const LCG_INC: u64 = 1442695040888963407;

/// One generator step: the product wraps, then the increment wraps.
pub open spec fn lcg_next(s: u64) -> u64 {
    vstd::wrapping::u64_specs::wrapping_add(
        vstd::wrapping::u64_specs::wrapping_mul(s, LCG_MUL),
        LCG_INC,
    )
}

/// The state after `k` steps.
pub open spec fn lcg_iter(s: u64, k: nat) -> u64
    decreases k,
{
    if k == 0 {
        s
    } else {
        lcg_next(lcg_iter(s, (k - 1) as nat))
    }
}

/// The explicit random source: seeded once, then advanced by every draw.
pub struct Rng {
    pub state: u64,
}

impl Rng {
    /// Seed the source.
    pub fn seed(seed: u64) -> (r: Rng)
        ensures
            r.state == seed,
    {
        Rng { state: seed }
    }

    /// Draw one value from `[lo, hi)`; an empty range yields its lower
    /// bound. The generator advances exactly one step per draw; which value
    /// of the range comes out is not part of the contract.
    pub fn next_in(&mut self, lo: i64, hi: i64) -> (r: i64)
        requires
            (hi as int) - (lo as int) <= i64::MAX,
        ensures
            final(self).state == lcg_next(old(self).state),
            lo < hi ==> lo <= r < hi,
            lo >= hi ==> r == lo,
    {
        let next = self.state.wrapping_mul(LCG_MUL).wrapping_add(LCG_INC);
        self.state = next;
        if lo < hi {
            let span = (hi - lo) as u64;
            let off = next % span;
            lo + (off as i64)
        } else {
            lo
        }
    }
}

impl Tensor {
    /// A tensor of values drawn from `[lo, hi)`, filling the buffer in
    /// row-major order and advancing the source once per element.
    pub fn random(shape: Vec<usize>, lo: i64, hi: i64, rng: &mut Rng) -> (r: Tensor)
        requires
            prod(shape@) <= usize::MAX,
            (hi as int) - (lo as int) <= i64::MAX,
        ensures
            r.wf(),
            r@.shape == shape@,
            r@.data.len() == prod(shape@),
            lo < hi ==> forall|i: int| 0 <= i < r@.data.len() ==> lo <= #[trigger] r@.data[i]
                < hi,
            final(rng).state == lcg_iter(old(rng).state, prod(shape@) as nat),
    {
        let ghost s0 = rng.state;
        let n = num_elems(&shape);
        let mut data: Vec<i64> = Vec::new();
        let mut i: usize = 0;
        proof {
            lemma_prod_nonneg(shape@);
        }
        while i < n
            invariant
                0 <= i <= n,
                data@.len() == i,
                rng.state == lcg_iter(s0, i as nat),
                (hi as int) - (lo as int) <= i64::MAX,
                lo < hi ==> forall|k: int| 0 <= k < i ==> lo <= #[trigger] data@[k] < hi,
            decreases n - i,
        {
            data.push(rng.next_in(lo, hi));
            i += 1;
        }
        Tensor { shape, data }
    }
}

} // verus!
