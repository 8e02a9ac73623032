//! The one source of nondeterminism: a small seeded PRNG owned by the core. Never the host's
//! RNG — re-seeding makes a replay reproduce exactly.

use vstd::prelude::*;

verus! {

pub const DEFAULT_SEED: u64 = 0x2545_F491_4F6C_DD1D;

pub const MULTIPLIER: u64 = 0x2545_F491_4F6C_DD1D;

/// One xorshift64 state transition.
pub open spec fn xorshift(x: u64) -> u64 {
    let a = x ^ (x >> 12u64);
    let b = a ^ (a << 25u64);
    b ^ (b >> 27u64)
}

/// The output scrambling of xorshift64*: the state times the multiplier, wrapping.
pub open spec fn scramble(x: u64) -> u64 {
    x.wrapping_mul(MULTIPLIER)
}

/// The state a seed starts from: a zero seed means the default seed.
pub open spec fn seeded(seed: u64) -> u64 {
    if seed == 0 { DEFAULT_SEED } else { seed }
}

/// The state after `k` draws from `seed`.
pub open spec fn state_after(seed: u64, k: nat) -> u64
    decreases k,
{
    if k == 0 { seeded(seed) } else { xorshift(state_after(seed, (k - 1) as nat)) }
}

/// xorshift64* — tiny, fast, deterministic, good enough for a turtle.
#[derive(Debug, Clone)]
pub struct Rng {
    state: u64,
}

impl View for Rng {
    type V = u64;

    closed spec fn view(&self) -> u64 {
        self.state
    }
}

impl Rng {
    pub fn new(seed: u64) -> (r: Rng)
        ensures
            r@ == seeded(seed),
    {
        Rng { state: if seed == 0 { DEFAULT_SEED } else { seed } }
    }

    pub fn next_u64(&mut self) -> (r: u64)
        ensures
            final(self)@ == xorshift(old(self)@),
            r == scramble(final(self)@),
    {
        let mut x = self.state;
        x = x ^ (x >> 12u64);
        x = x ^ (x << 25u64);
        x = x ^ (x >> 27u64);
        self.state = x;
        x.wrapping_mul(MULTIPLIER)
    }

    /// Uniform integer in `[lo, hi]` inclusive (just `lo` when the range is empty).
    pub fn range_inclusive(&mut self, lo: i64, hi: i64) -> (r: i64)
        requires
            hi - lo < i64::MAX,
        ensures
            hi <= lo ==> r == lo && final(self)@ == old(self)@,
            lo < hi ==> final(self)@ == xorshift(old(self)@)
                && r == lo + (scramble(final(self)@) as int) % (hi - lo + 1),
            lo < hi ==> lo <= r <= hi,
    {
        if hi <= lo {
            return lo;
        }
        let span = (hi - lo + 1) as u64;
        let x = self.next_u64();
        let m = x % span;
        lo + m as i64
    }

    /// The index a choice among `len` items makes with the next draw.
    pub fn choice_index(&mut self, len: usize) -> (r: usize)
        requires
            len > 0,
        ensures
            final(self)@ == xorshift(old(self)@),
            r == (scramble(final(self)@) as usize) % len,
            r < len,
    {
        let x = self.next_u64();
        (x as usize) % len
    }

    /// Uniform choice from a non-empty slice.
    pub fn choice<'a, T>(&mut self, items: &'a [T]) -> (r: &'a T)
        requires
            items@.len() > 0,
        ensures
            final(self)@ == xorshift(old(self)@),
            *r == items@[((scramble(final(self)@) as usize) as int) % (items@.len() as int)],
    {
        let i = self.choice_index(items.len());
        &items[i]
    }
}

// ---- laws -----------------------------------------------------------------------------------

/// The generator never reaches the all-zero state, where xorshift would be stuck forever.
pub proof fn law_state_never_zero(seed: u64, k: nat)
    ensures
        state_after(seed, k) != 0,
    decreases k,
{
    if k > 0 {
        law_state_never_zero(seed, (k - 1) as nat);
        let x = state_after(seed, (k - 1) as nat);
        assert(x != 0 ==> xorshift(x) != 0) by (bit_vector);
    }
}

} // verus!
