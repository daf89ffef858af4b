//! The pseudo-random bytes of `getrandom`.
use vstd::prelude::*;

verus! {

/// The multiplier of the generator (from musl).
pub const LCG_MULTIPLIER: u64 = 0x5851_f42d_4c95_7f2d;

/// The seed the generator starts from.
pub const LCG_SEED: u64 = 0xdead_beef_cafe_babe;

/// The next state of the generator.
pub open spec fn lcg_next(s: u64) -> u64 {
    vstd::wrapping::u64_specs::wrapping_mul(s, LCG_MULTIPLIER)
}

/// The state after `n` steps from `s`.
pub open spec fn lcg_state(s: u64, n: nat) -> u64
    decreases n,
{
    if n == 0 {
        s
    } else {
        lcg_next(lcg_state(s, (n - 1) as nat))
    }
}

/// The byte a state gives: bits 33 to 40.
pub open spec fn lcg_byte(s: u64) -> u8 {
    (s >> 33u64) as u8
}

/// The generator state of a task.
pub struct RandomState {
    pub seed: u64,
}

impl RandomState {
    /// The generator at its starting seed.
    pub fn new() -> (res: Self)
        ensures
            res.seed == LCG_SEED,
    {
        RandomState { seed: LCG_SEED }
    }

    /// Fills `buf`: byte `i` is the byte of the state after `i + 1` steps.
    /// The state moves on by the length of `buf`. Returns that length.
    pub fn fill(&mut self, buf: &mut [u8]) -> (res: usize)
        ensures
            res == old(buf)@.len(),
            final(buf)@.len() == old(buf)@.len(),
            forall|i: int|
                0 <= i < old(buf)@.len() ==> #[trigger] final(buf)@[i] == lcg_byte(
                    lcg_state(old(self).seed, (i + 1) as nat),
                ),
            final(self).seed == lcg_state(old(self).seed, old(buf)@.len()),
    {
        let n = buf.len();
        let mut i: usize = 0;
        while i < n
            invariant
                n == buf@.len(),
                n == old(buf)@.len(),
                i <= n,
                self.seed == lcg_state(old(self).seed, i as nat),
                forall|k: int|
                    0 <= k < i ==> #[trigger] buf@[k] == lcg_byte(
                        lcg_state(old(self).seed, (k + 1) as nat),
                    ),
            decreases n - i,
        {
            self.seed = self.seed.wrapping_mul(LCG_MULTIPLIER);
            buf[i] = (self.seed >> 33) as u8;
            i = i + 1;
        }
        n
    }
}

} // verus!
