//! Mulberry32 pseudo-random generator (bit-compatible with the JavaScript
//! front end, which works on signed 32-bit integers).

use vstd::prelude::*;

verus! {

/// `x >> k` on the bits of a `u32`, with the shift taken modulo 32.
pub open spec fn shr32(x: u32, k: u32) -> u32 {
    x >> (k % 32)
}

/// Product of two words, reduced modulo 2^32.
pub open spec fn mul32(x: u32, y: u32) -> u32 {
    ((x as nat * y as nat) % 0x1_0000_0000) as u32
}

/// Sum of two words, reduced modulo 2^32.
pub open spec fn add32(x: u32, y: u32) -> u32 {
    ((x as nat + y as nat) % 0x1_0000_0000) as u32
}

/// The state word after one step: the old state plus the Weyl increment.
pub open spec fn mulberry_advance(state: u32) -> u32 {
    add32(state, 0x6d2b79f5)
}

/// The 32-bit output that Mulberry32 derives from an advanced state word `a`.
pub open spec fn mulberry_mix(a: u32) -> u32 {
    let t1 = mul32(a ^ (a >> 15u32), a | 1u32);
    let t2 = add32(t1, mul32(t1 ^ (t1 >> 7u32), t1 | 61u32)) ^ t1;
    t2 ^ (t2 >> 14u32)
}

/// JavaScript `>>>` (unsigned right shift) on a signed 32-bit value.
pub fn ushr(x: i32, bits: u32) -> (r: i32)
    ensures
        r as u32 == shr32(x as u32, bits),
{
    let r = (x as u32).wrapping_shr(bits) as i32;
    proof {
        let y = (x as u32) >> (bits % 32);
        assert(y as i32 as u32 == y) by (bit_vector);
    }
    r
}


proof fn lemma_i32_mul_bits(x: i32, y: i32)
    ensures
        vstd::wrapping::i32_specs::wrapping_mul(x, y) as u32 == mul32(x as u32, y as u32),
{
    assert(vstd::wrapping::i32_specs::wrapping_mul(x, y) as u32 == mul32(x as u32, y as u32))
        by (bit_vector);
}

proof fn lemma_i32_add_bits(x: i32, y: i32)
    ensures
        vstd::wrapping::i32_specs::wrapping_add(x, y) as u32 == add32(x as u32, y as u32),
{
    assert(vstd::wrapping::i32_specs::wrapping_add(x, y) as u32 == add32(x as u32, y as u32))
        by (bit_vector);
}


/// Mulberry32 generator state.
pub struct Rng {
    state: u32,
}

impl View for Rng {
    type V = u32;

    /// The generator is its 32-bit state word.
    closed spec fn view(&self) -> u32 {
        self.state
    }
}

impl Rng {
    /// A generator seeded with `seed`.
    pub fn new(seed: u32) -> (r: Self)
        ensures
            r@ == seed,
    {
        Self { state: seed }
    }

    /// Advances the state and returns the next raw 32-bit Mulberry32 output.
    /// Dividing it by 2^32 gives the uniform draw in `[0, 1)`.
    pub fn next_u32(&mut self) -> (r: u32)
        ensures
            final(self)@ == mulberry_advance(old(self)@),
            r == mulberry_mix(final(self)@),
    {
        let a = (self.state.wrapping_add(0x6d2b79f5)) as i32;
        proof {
            let w = self.state.wrapping_add(0x6d2b79f5);
            assert(w as i32 as u32 == w) by (bit_vector);
        }
        self.state = a as u32;

        let au = a as u32;
        let s15 = ushr(a, 15);
        let x1 = a ^ s15;
        let o1 = a | 1;
        proof {
            assert((a ^ s15) as u32 == (a as u32) ^ (s15 as u32)) by (bit_vector);
            assert((a | 1i32) as u32 == (a as u32) | 1u32) by (bit_vector);
            lemma_i32_mul_bits(x1, o1);
        }
        let mut t = i32::wrapping_mul(x1, o1);
        let ghost t1 = t as u32;
        assert(t1 == mul32(au ^ (au >> 15u32), au | 1u32));
        let s7 = ushr(t, 7);
        let x2 = t ^ s7;
        let o2 = t | 61;
        proof {
            assert((t ^ s7) as u32 == (t as u32) ^ (s7 as u32)) by (bit_vector);
            assert((t | 61i32) as u32 == (t as u32) | 61u32) by (bit_vector);
            lemma_i32_mul_bits(x2, o2);
        }
        let m = i32::wrapping_mul(x2, o2);
        proof {
            lemma_i32_add_bits(t, m);
        }
        let sum = i32::wrapping_add(t, m);
        proof {
            assert((sum ^ t) as u32 == (sum as u32) ^ (t as u32)) by (bit_vector);
        }
        t = sum ^ t;
        let tu = t as u32;
        tu ^ (tu >> 14)
    }
}

} // verus!
