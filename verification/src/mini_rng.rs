//! A small linear congruential generator, so that worlds built from a text
//! description come out the same on every run.

use vstd::prelude::*;
use vstd::arithmetic::div_mod::lemma_mul_mod_noop_right;

verus! {

/// The multiplier of the recurrence.
pub const A: u32 = 1664525;

/// The increment of the recurrence, added before multiplying.
pub const B: u32 = 1013904223;

/// The state that follows `q`: `A * (q + B)` modulo 2^32.
pub open spec fn next_state(q: u32) -> u32 {
    ((1664525 * (q + 1013904223)) % 0x1_0000_0000) as u32
}

/// The 48-bit number drawn from two successive states: all of the first and
/// the high half of the second.
pub open spec fn draw48(q1: u32, q2: u32) -> int {
    q1 * 0x1_0000 + q2 / 0x1_0000
}

/// The sample below `upper` that two successive states give: the draw scaled
/// from `[0, 2^48)` down to `[0, upper)`.
pub open spec fn sample_of(q1: u32, q2: u32, upper: u32) -> int {
    (upper * draw48(q1, q2)) / 0x1_0000_0000_0000
}

/// A scaled draw lands below its bound.
pub proof fn lemma_sample_below(q1: u32, q2: u32, upper: u32)
    ensures
        0 <= sample_of(q1, q2, upper),
        upper > 0 ==> sample_of(q1, q2, upper) < upper,
        upper == 0 ==> sample_of(q1, q2, upper) == 0,
{
    let d = draw48(q1, q2);
    assert(0 <= d < 0x1_0000_0000_0000);
    let p = upper * d;
    assert(0 <= p && p <= upper * 0x1_0000_0000_0000 - upper) by (nonlinear_arith)
        requires
            p == upper * d,
            0 <= d < 0x1_0000_0000_0000,
            0 <= upper,
    ;
    if upper > 0 {
        assert(p / 0x1_0000_0000_0000 < upper) by {
            vstd::arithmetic::div_mod::lemma_div_is_ordered(
                p,
                upper * 0x1_0000_0000_0000 - 1,
                0x1_0000_0000_0000,
            );
            vstd::arithmetic::div_mod::lemma_fundamental_div_mod_converse(
                upper * 0x1_0000_0000_0000 - 1,
                0x1_0000_0000_0000,
                upper - 1,
                0x1_0000_0000_0000 - 1,
            );
        }
    }
}

/// The generator. Its whole state is one 32-bit word.
#[derive(Debug)]
pub struct MiniRNG {
    q: u32,
}

impl View for MiniRNG {
    type V = u32;

    /// The current state word.
    closed spec fn view(&self) -> u32 {
        self.q
    }
}

impl MiniRNG {
    /// A generator seeded with `seed`; the seed itself is never handed out.
    pub fn new(seed: u32) -> (rng: Self)
        ensures
            rng@ == next_state(seed),
    {
        let mut rng = MiniRNG { q: seed };
        let _ = rng.next();
        rng
    }

    /// Hands out the current state and moves on to the next one.
    #[inline]
    pub fn next(&mut self) -> (x: u32)
        ensures
            x == old(self)@,
            final(self)@ == next_state(old(self)@),
    {
        let x: u32 = self.q;
        self.q = A.wrapping_mul(self.q.wrapping_add(B));
        proof {
            let s: int = x + 1013904223;
            let w: int = x.wrapping_add(B) as int;
            assert(w == s % 0x1_0000_0000) by {
                if s > u32::MAX {
                    vstd::arithmetic::div_mod::lemma_fundamental_div_mod_converse(
                        s,
                        0x1_0000_0000,
                        1,
                        s - 0x1_0000_0000,
                    );
                } else {
                    vstd::arithmetic::div_mod::lemma_small_mod(s as nat, 0x1_0000_0000);
                }
            }
            lemma_mul_mod_noop_right(1664525, s, 0x1_0000_0000);
        }
        x
    }

    /// A number in `[0, upper)` (0 when `upper` is 0), made from the next two
    /// states.
    pub fn sample_u32(&mut self, upper: u32) -> (r: u32)
        ensures
            r == sample_of(old(self)@, next_state(old(self)@), upper),
            final(self)@ == next_state(next_state(old(self)@)),
            upper > 0 ==> r < upper,
    {
        let q1: u64 = self.next() as u64;
        let q2: u64 = self.next() as u64;
        let q: u64 = q1 * 0x1_0000 + q2 / 0x1_0000;
        proof {
            lemma_sample_below(q1 as u32, q2 as u32, upper);
            assert((upper as u128) * (q as u128) <= 0xFFFF_FFFF * 0xFFFF_FFFF_FFFF) by (nonlinear_arith)
                requires
                    upper <= 0xFFFF_FFFF,
                    q <= 0xFFFF_FFFF_FFFF,
            ;
        }
        let p: u128 = (upper as u128) * (q as u128);
        (p / 0x1_0000_0000_0000) as u32
    }
}

} // verus!
