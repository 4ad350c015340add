//! The xorshift generator that fills benchmark files with incompressible bytes.
use vstd::prelude::*;

verus! {

/// One step of the 64-bit xorshift generator (shifts 13, 7, 17).
pub open spec fn xorshift_step(x: u64) -> u64 {
    let a = x ^ (x << 13u64);
    let b = a ^ (a >> 7u64);
    b ^ (b << 17u64)
}

/// The state after `n` steps from `state`.
pub open spec fn xorshift_nth(state: u64, n: nat) -> u64
    decreases n,
{
    if n == 0 {
        state
    } else {
        xorshift_step(xorshift_nth(state, (n - 1) as nat))
    }
}

/// Byte `k` (little-endian) of `v`.
pub open spec fn le_byte(v: u64, k: u64) -> u8 {
    (v >> (8 * k) as u64) as u8
}

/// The seed used in place of zero, which would make the generator stick at zero.
pub const ZERO_SEED_REPLACEMENT: u64 = 0x5465737453656564;

/// A xorshift pseudo-random generator.
pub struct XorShift64 {
    state: u64,
}

impl XorShift64 {
    /// The generator's state.
    pub closed spec fn state(&self) -> u64 {
        self.state
    }

    /// Seeds a generator; a zero seed is replaced by a fixed non-zero one.
    pub fn new(seed: u64) -> (g: Self)
        ensures
            g.state() == if seed == 0 {
                ZERO_SEED_REPLACEMENT
            } else {
                seed
            },
    {
        XorShift64 {
            state: if seed == 0 {
                ZERO_SEED_REPLACEMENT
            } else {
                seed
            },
        }
    }

    /// Advances the generator one step and returns the new state.
    pub fn next_u64(&mut self) -> (x: u64)
        ensures
            x == xorshift_step(old(self).state()),
            final(self).state() == x,
    {
        let mut x = self.state;
        x = x ^ (x << 13u64);
        x = x ^ (x >> 7u64);
        x = x ^ (x << 17u64);
        self.state = x;
        x
    }

    /// Fills `dest` with the little-endian bytes of successive outputs; a tail
    /// shorter than eight bytes takes the first bytes of one more output.
    pub fn fill_bytes(&mut self, dest: &mut [u8])
        ensures
            final(dest)@.len() == old(dest)@.len(),
            final(self).state() == xorshift_nth(
                old(self).state(),
                ((old(dest)@.len() + 7) / 8) as nat,
            ),
            forall|i: int|
                0 <= i < old(dest)@.len() ==> #[trigger] final(dest)@[i] == le_byte(
                    xorshift_nth(old(self).state(), (i / 8 + 1) as nat),
                    (i % 8) as u64,
                ),
    {
        let ghost s0 = self.state;
        let n = dest.len();
        let mut i: usize = 0;
        let mut val: u64 = 0;
        while i < n
            invariant
                i <= n,
                n == dest@.len(),
                n == old(dest)@.len(),
                self.state == xorshift_nth(s0, ((i + 7) / 8) as nat),
                i % 8 != 0 ==> val == self.state,
                forall|j: int|
                    0 <= j < i ==> #[trigger] dest@[j] == le_byte(
                        xorshift_nth(s0, (j / 8 + 1) as nat),
                        (j % 8) as u64,
                    ),
            decreases n - i,
        {
            if i % 8 == 0 {
                val = self.next_u64();
                assert((i + 8) / 8 == i / 8 + 1);
            }
            assert(val == xorshift_nth(s0, (i / 8 + 1) as nat));
            let k: u64 = (i % 8) as u64;
            dest[i] = (#[verifier::truncate] ((val >> (8 * k)) as u8));
            i = i + 1;
        }
    }
}

} // verus!
