//! Fixed-point numbers.
//!
//! A coordinate on the complex plane is held as a signed count of `1/SCALE`
//! units, so every transform in the library is an exact integer computation.

use vstd::prelude::*;
use vstd::arithmetic::div_mod::{
    lemma_fundamental_div_mod, lemma_fundamental_div_mod_converse,
};
use vstd::arithmetic::power2::{
    pow2, lemma_pow2_strictly_increases, lemma_pow2_unfold, lemma2_to64, lemma2_to64_rest,
};

verus! {

/// Number of raw units per 1.0 of a fixed-point value: 2^32.
pub const SCALE: i64 = 0x1_0000_0000;

/// A fixed-point number; the value it denotes is `raw / SCALE`.
#[derive(Clone, Copy, PartialEq, Eq, Structural, Debug)]
pub struct Fix {
    pub raw: i64,
}

/// Raw units of the fixed-point product of two raw values: `a * b / SCALE`,
/// rounded toward zero.
pub open spec fn fmul(a: int, b: int) -> int {
    if a * b >= 0 {
        (a * b) / (SCALE as int)
    } else {
        -((-(a * b)) / (SCALE as int))
    }
}

/// `|x|` on mathematical integers.
pub open spec fn abs1(x: int) -> int {
    if x >= 0 {
        x
    } else {
        -x
    }
}

impl Fix {
    /// The fixed-point representation of a small integer.
    pub fn from_int(i: i32) -> (r: Fix)
        ensures
            r.raw == i * SCALE,
    {
        Fix { raw: (i as i64) * SCALE }
    }

    /// A fixed-point value from its raw units.
    pub fn from_raw(raw: i64) -> (r: Fix)
        ensures
            r.raw == raw,
    {
        Fix { raw }
    }

    /// Fixed-point product, rounded toward zero.
    pub fn times(self, other: Fix) -> (r: Fix)
        requires
            abs1(self.raw as int) * abs1(other.raw as int) <= SCALE * i64::MAX,
        ensures
            r.raw == fmul(self.raw as int, other.raw as int),
    {
        let a = self.raw;
        let b = other.raw;
        let neg = (a < 0) != (b < 0);
        let ma: u64 = if a < 0 {
            (-(a as i128)) as u64
        } else {
            a as u64
        };
        let mb: u64 = if b < 0 {
            (-(b as i128)) as u64
        } else {
            b as u64
        };
        proof {
            assert(ma == abs1(a as int));
            assert(mb == abs1(b as int));
        }
        let p: u128 = (ma as u128) * (mb as u128);
        let q: u128 = p / (SCALE as u128);
        proof {
            lemma_abs_mul(a as int, b as int);
            assert(p == abs1((a as int) * (b as int)));
            assert((SCALE * i64::MAX) / (SCALE as int) == i64::MAX as int) by {
                lemma_fundamental_div_mod_converse(
                    SCALE * i64::MAX,
                    SCALE as int,
                    i64::MAX as int,
                    0,
                );
            }
            assert(q <= i64::MAX) by {
                vstd::arithmetic::div_mod::lemma_div_is_ordered(
                    p as int,
                    SCALE * i64::MAX,
                    SCALE as int,
                );
            }
            if a < 0 && b >= 0 {
                assert((a as int) * (b as int) <= 0) by (nonlinear_arith)
                    requires
                        a < 0,
                        b >= 0,
                ;
            } else if a >= 0 && b < 0 {
                assert((a as int) * (b as int) <= 0) by (nonlinear_arith)
                    requires
                        a >= 0,
                        b < 0,
                ;
            } else if a >= 0 && b >= 0 {
                assert((a as int) * (b as int) >= 0) by (nonlinear_arith)
                    requires
                        a >= 0,
                        b >= 0,
                ;
            } else {
                assert((a as int) * (b as int) >= 0) by (nonlinear_arith)
                    requires
                        a < 0,
                        b < 0,
                ;
            }
            if neg {
                assert(fmul(a as int, b as int) == -(q as int));
            } else {
                assert(fmul(a as int, b as int) == q as int);
            }
        }
        if neg {
            Fix { raw: -(q as i64) }
        } else {
            Fix { raw: q as i64 }
        }
    }
}

/// The magnitude of a product is the product of the magnitudes.
proof fn lemma_abs_mul(a: int, b: int)
    ensures
        abs1(a * b) == abs1(a) * abs1(b),
{
    assert(abs1(a * b) == abs1(a) * abs1(b)) by (nonlinear_arith);
}

/// `2^z` as a machine integer.
pub fn pow2_exec(z: usize) -> (r: u64)
    requires
        z <= 63,
    ensures
        r as nat == pow2(z as nat),
        r >= 1,
{
    let mut i: usize = 0;
    let mut p: u64 = 1;
    proof {
        lemma2_to64();
    }
    while i < z
        invariant
            i <= z <= 63,
            p as nat == pow2(i as nat),
        decreases z - i,
    {
        proof {
            lemma2_to64_rest();
            if (i as nat) < 63 {
                lemma_pow2_strictly_increases(i as nat, 63);
            }
            lemma_pow2_unfold((i + 1) as nat);
        }
        p = p * 2;
        i = i + 1;
    }
    proof {
        vstd::arithmetic::power2::lemma_pow2_pos(z as nat);
    }
    p
}

/// Floor division of `a` by a positive `b`, returning quotient and remainder.
///
/// Unlike machine division this rounds toward negative infinity, so the
/// remainder is always in `[0, b)`; tile addressing relies on that to keep
/// tiles aligned across the origin.
pub fn floor_div(a: i128, b: i128) -> (qr: (i128, i128))
    requires
        b > 0,
        a > i128::MIN,
    ensures
        qr.0 * b + qr.1 == a,
        0 <= qr.1 < b,
{
    let bu = b as u128;
    if a >= 0 {
        let au = a as u128;
        let q = au / bu;
        let r = au % bu;
        proof {
            lemma_fundamental_div_mod(au as int, bu as int);
            assert((q as i128) * b + (r as i128) == a) by (nonlinear_arith)
                requires
                    q == au / bu,
                    r == au % bu,
                    au * 1 == (au / bu) * bu + (au % bu),
                    au == a,
                    bu == b,
                    bu > 0,
            ;
        }
        (q as i128, r as i128)
    } else {
        let m = (-a) as u128;
        let mq = m / bu;
        let mr = m % bu;
        proof {
            lemma_fundamental_div_mod(m as int, bu as int);
            assert(m == bu * mq + mr);
            assert(mq <= m) by {
                vstd::arithmetic::div_mod::lemma_div_nonincreasing(m as int, bu as int);
            }
        }
        if mr == 0 {
            let q = -(mq as i128);
            proof {
                assert(q * b + 0 == a) by (nonlinear_arith)
                    requires
                        q == -(mq as int),
                        m == (bu as int) * (mq as int) + (mr as int),
                        mr == 0,
                        m == -(a as int),
                        bu == b,
                ;
            }
            (q, 0)
        } else {
            let q = -(mq as i128) - 1;
            let r = (bu - mr) as i128;
            proof {
                assert(q * b + r == a) by (nonlinear_arith)
                    requires
                        q == -(mq as int) - 1,
                        r == (bu as int) - (mr as int),
                        m == (bu as int) * (mq as int) + (mr as int),
                        m == -(a as int),
                        bu == b,
                ;
            }
            (q, r)
        }
    }
}

} // verus!
