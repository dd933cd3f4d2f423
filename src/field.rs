//! Arithmetic modulo `2^130 - 5` on three 64-bit limbs.
use vstd::prelude::*;
use vstd::arithmetic::div_mod::{
    lemma_fundamental_div_mod, lemma_fundamental_div_mod_converse, lemma_mod_multiples_vanish,
};
use crate::model::{prime, two128, two64};

verus! {

/// `2^64`, for splitting a 128-bit intermediate into limbs.
pub const TWO64: u128 = 0x1_0000_0000_0000_0000;

/// The all-ones 64-bit word.
const ONES: u64 = 0xffff_ffff_ffff_ffff;

/// An accumulator `l0 + 2^64 * l1 + 2^128 * l2`, partially reduced.
#[derive(Clone, Copy)]
pub struct Limbs {
    pub l0: u64,
    pub l1: u64,
    pub l2: u64,
}

impl Limbs {
    pub open spec fn value(self) -> int {
        self.l0 as int + two64() * self.l1 + two128() * self.l2
    }

    pub fn zero() -> (r: Limbs)
        ensures
            r.value() == 0,
            r.l2 == 0,
    {
        Limbs { l0: 0, l1: 0, l2: 0 }
    }
}

/// Adds a block `c0 + 2^64 * c1 + 2^128 * c2` to the accumulator, without reduction.
pub fn add_block(h: Limbs, c0: u64, c1: u64, c2: u64) -> (r: Limbs)
    requires
        h.l2 <= 4,
        c2 <= 1,
    ensures
        r.value() == h.value() + c0 + two64() * c1 + two128() * c2,
        r.l2 <= 6,
{
    let x0: u128 = h.l0 as u128 + c0 as u128;
    let x1: u128 = h.l1 as u128 + c1 as u128 + x0 / TWO64;
    let l2: u64 = h.l2 + c2 + (x1 / TWO64) as u64;
    proof {
        let b = two64();
        lemma_fundamental_div_mod(x0 as int, b);
        lemma_fundamental_div_mod(x1 as int, b);
        assert(two128() * (x1 / TWO64) + two64() * (x1 % TWO64) == two64() * x1);
        assert(x0 % TWO64 + two64() * (x0 / TWO64) == x0);
    }
    Limbs { l0: (x0 % TWO64) as u64, l1: (x1 % TWO64) as u64, l2 }
}

proof fn lemma_product_identity(h0: int, h1: int, h2: int, r0: int, q: int, b: int)
    ensures
        (h0 + b * h1 + b * b * h2) * (r0 + b * (4 * q)) == (h0 * r0 + h1 * (5 * q)) + b * (h0 * (4
            * q) + h1 * r0 + h2 * (5 * q)) + b * b * (h2 * r0) + (h1 * q + h2 * q * b) * (4 * b * b
            - 5),
{
    let a = h0 + b * h1 + b * b * h2;
    assert(a * (r0 + b * (4 * q)) == a * r0 + a * (b * (4 * q))) by (nonlinear_arith);
    assert(a * r0 == h0 * r0 + b * (h1 * r0) + b * b * (h2 * r0)) by (nonlinear_arith)
        requires
            a == h0 + b * h1 + b * b * h2,
    ;
    assert(a * (b * (4 * q)) == 4 * (b * (h0 * q)) + 4 * (b * b * (h1 * q)) + 4 * (b * b * b * (h2
        * q))) by (nonlinear_arith)
        requires
            a == h0 + b * h1 + b * b * h2,
    ;
    assert((h1 * q + h2 * q * b) * (4 * b * b - 5) == 4 * (b * b * (h1 * q)) + 4 * (b * b * b * (h2
        * q)) - 5 * (h1 * q) - 5 * (b * (h2 * q))) by (nonlinear_arith);
    assert(b * (h0 * (4 * q) + h1 * r0 + h2 * (5 * q)) == 4 * (b * (h0 * q)) + b * (h1 * r0) + 5 * (
    b * (h2 * q))) by (nonlinear_arith);
    assert(h1 * (5 * q) == 5 * (h1 * q)) by (nonlinear_arith);
}

/// Selecting by an all-ones or all-zeros mask picks one of two words.
proof fn lemma_mask_select(a: u64, b: u64, mask: u64)
    requires
        mask == 0 || mask == ONES,
    ensures
        mask == ONES ==> (a & mask) | (b & !mask) == a,
        mask == 0 ==> (a & mask) | (b & !mask) == b,
{
    assert(mask == 0xffff_ffff_ffff_ffffu64 ==> (a & mask) | (b & !mask) == a) by (bit_vector);
    assert(mask == 0u64 ==> (a & mask) | (b & !mask) == b) by (bit_vector);
}

proof fn lemma_mul_lt(x: int, y: int, a: int, b: int)
    requires
        0 <= x < a,
        0 <= y < b,
    ensures
        x * y < a * b,
{
    assert(x * y <= x * b) by (nonlinear_arith)
        requires
            0 <= x,
            y < b,
    ;
    assert(x * b < a * b) by (nonlinear_arith)
        requires
            x < a,
            0 < b,
    ;
}

/// Multiplies the accumulator by `r = r0 + 2^64 * r1` and partially reduces
/// modulo the prime. The clamped `r` has `r0, r1 < 2^60` and `r1` divisible by 4.
#[verifier::rlimit(50)]
pub fn mul_reduce(h: Limbs, r0: u64, r1: u64) -> (res: Limbs)
    requires
        h.l2 <= 7,
        r0 < 0x1000_0000_0000_0000,
        r1 < 0x1000_0000_0000_0000,
        r1 % 4 == 0,
    ensures
        res.value() % prime() == (h.value() * (r0 + two64() * r1)) % prime(),
        res.l2 <= 4,
{
    let q: u64 = r1 / 4;
    let s1: u64 = r1 + q;
    let h0: u128 = h.l0 as u128;
    let h1: u128 = h.l1 as u128;
    let h2: u128 = h.l2 as u128;
    proof {
        lemma_mul_lt(h0 as int, r0 as int, 0x1_0000_0000_0000_0000, 0x1000_0000_0000_0000);
        lemma_mul_lt(h0 as int, r1 as int, 0x1_0000_0000_0000_0000, 0x1000_0000_0000_0000);
        lemma_mul_lt(h1 as int, r0 as int, 0x1_0000_0000_0000_0000, 0x1000_0000_0000_0000);
        lemma_mul_lt(h1 as int, s1 as int, 0x1_0000_0000_0000_0000, 0x2000_0000_0000_0000);
        lemma_mul_lt(h2 as int, s1 as int, 8, 0x2000_0000_0000_0000);
        lemma_mul_lt(h2 as int, r0 as int, 8, 0x1000_0000_0000_0000);
    }
    let d0: u128 = h0 * (r0 as u128) + h1 * (s1 as u128);
    let d1: u128 = h0 * (r1 as u128) + h1 * (r0 as u128) + h2 * (s1 as u128);
    let d2: u64 = h.l2 * r0;
    let m0: u64 = (d0 % TWO64) as u64;
    let e1: u128 = d1 + d0 / TWO64;
    let m1: u64 = (e1 % TWO64) as u64;
    let e2: u64 = d2 + (e1 / TWO64) as u64;
    let t: u128 = (e2 / 4) as u128;
    let x0: u128 = m0 as u128 + 5 * t;
    let x1: u128 = m1 as u128 + x0 / TWO64;
    let l2: u64 = e2 % 4 + (x1 / TWO64) as u64;
    let res = Limbs { l0: (x0 % TWO64) as u64, l1: (x1 % TWO64) as u64, l2 };
    proof {
        let b = two64();
        lemma_fundamental_div_mod(d0 as int, b);
        lemma_fundamental_div_mod(e1 as int, b);
        lemma_fundamental_div_mod(x0 as int, b);
        lemma_fundamental_div_mod(x1 as int, b);
        lemma_fundamental_div_mod(e2 as int, 4);
        let dv = d0 as int + two64() * d1 + two128() * d2;
        lemma_product_identity(h.l0 as int, h.l1 as int, h.l2 as int, r0 as int, q as int, b);
        assert(b * b == two128());
        let k = h.l1 as int * q + h.l2 as int * q * b;
        assert(h.value() * (r0 + two64() * r1) == dv + k * prime());
        assert(dv == m0 + two64() * m1 + two128() * e2);
        assert(res.value() + prime() * t == dv);
        assert(h.value() * (r0 + two64() * r1) == prime() * (t + k) + res.value()) by (nonlinear_arith)
            requires
                h.value() * (r0 + two64() * r1) == dv + k * prime(),
                res.value() + prime() * t == dv,
        ;
        lemma_mod_multiples_vanish(t as int + k, res.value() as int, prime() as int);
    }
    res
}

/// Reduces the accumulator fully modulo the prime, adds `s = s0 + 2^64 * s1`
/// and returns the low 128 bits as two 64-bit words. The choice between the
/// accumulator and the accumulator minus the prime is made by a mask, without
/// a branch.
pub fn finalize(h: Limbs, s0: u64, s1: u64) -> (res: (u64, u64))
    requires
        h.l2 <= 4,
    ensures
        res.0 + two64() * res.1 == (h.value() % prime() + s0 + two64() * s1) % two128(),
{
    let g0: u128 = h.l0 as u128 + 5;
    let g1: u128 = h.l1 as u128 + g0 / TWO64;
    let g2: u64 = h.l2 + (g1 / TWO64) as u64;
    let sel: u64 = g2 / 4;
    let mask: u64 = sel * ONES;
    let a0: u64 = (g0 % TWO64) as u64;
    let a1: u64 = (g1 % TWO64) as u64;
    let lo0: u64 = (a0 & mask) | (h.l0 & !mask);
    let lo1: u64 = (a1 & mask) | (h.l1 & !mask);
    let y0: u128 = lo0 as u128 + s0 as u128;
    let y1: u128 = lo1 as u128 + s1 as u128 + y0 / TWO64;
    let res: (u64, u64) = ((y0 % TWO64) as u64, (y1 % TWO64) as u64);
    proof {
        let b = two64();
        lemma_fundamental_div_mod(g0 as int, b);
        lemma_fundamental_div_mod(g1 as int, b);
        lemma_fundamental_div_mod(y0 as int, b);
        lemma_fundamental_div_mod(y1 as int, b);
        let hv = h.value() as int;
        let lo = lo0 as int + b * lo1;
        let sv = s0 as int + b * s1;
        assert(hv + 5 == a0 + two64() * a1 + two128() * g2) by {
            assert(g1 == two64() * (g1 / TWO64) + g1 % TWO64);
            assert(g0 == two64() * (g0 / TWO64) + g0 % TWO64);
            assert(hv + 5 == a0 + two64() * a1 + two128() * g2) by (nonlinear_arith)
                requires
                    g1 == two64() * (g1 / TWO64) + g1 % TWO64,
                    g0 == two64() * (g0 / TWO64) + g0 % TWO64,
                    g0 == h.l0 + 5,
                    g1 == h.l1 + g0 / TWO64,
                    g2 == h.l2 + g1 / TWO64,
                    a0 == g0 % TWO64,
                    a1 == g1 % TWO64,
                    hv == h.l0 + two64() * h.l1 + two128() * h.l2,
            ;
        }
        assert(hv < 2 * prime());
        if sel == 1 {
            lemma_mask_select(a0, h.l0, mask);
            lemma_mask_select(a1, h.l1, mask);
            lemma_fundamental_div_mod_converse(hv, prime() as int, 1, hv - prime() as int);
            assert(hv % prime() == lo + two128() * (g2 - 4));
            lemma_mod_multiples_vanish(g2 - 4, lo + sv, two128());
        } else {
            lemma_mask_select(a0, h.l0, mask);
            lemma_mask_select(a1, h.l1, mask);
            lemma_fundamental_div_mod_converse(hv, prime() as int, 0, hv);
            lemma_mod_multiples_vanish(h.l2 as int, lo + sv, two128());
        }
        assert(lo + sv == two128() * (y1 as int / b) + (res.0 + b * res.1));
        lemma_fundamental_div_mod_converse(lo + sv, two128(), y1 as int / b, res.0 + b * res.1);
    }
    res
}

} // verus!
