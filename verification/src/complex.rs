//! Complex arithmetic on fixed-point components and the escape-time count.

use vstd::prelude::*;
use crate::fixed::{Fix, SCALE, fmul, abs1};

verus! {

/// `|z|^2 <= 4` in raw*raw units: `4 * SCALE * SCALE`.
pub const ESCAPE_THRESHOLD: u128 = 4 * 0x1_0000_0000 * 0x1_0000_0000;

/// A complex number whose parts are fixed-point values.
#[derive(Clone, Copy, PartialEq, Eq, Structural, Debug)]
pub struct Complex {
    pub re: Fix,
    pub im: Fix,
}

/// `|z|^2` of a complex value given by raw parts, in raw*raw units (exact).
pub open spec fn norm_units(re: int, im: int) -> int {
    re * re + im * im
}

/// Raw real part of `z^2 + c`, with the library's fixed-point rounding.
pub open spec fn step_re(cre: int, cim: int, zre: int, zim: int) -> int {
    cre + fmul(zre, zre) - fmul(zim, zim)
}

/// Raw imaginary part of `z^2 + c`, with the library's fixed-point rounding.
pub open spec fn step_im(cre: int, cim: int, zre: int, zim: int) -> int {
    cim + 2 * fmul(zre, zim)
}

/// Raw real part of the orbit of `c` under `z -> z^2 + c` after `n` steps.
pub open spec fn orbit_re(cre: int, cim: int, n: nat) -> int
    decreases n,
{
    if n == 0 {
        cre
    } else {
        step_re(
            cre,
            cim,
            orbit_re(cre, cim, (n - 1) as nat),
            orbit_im(cre, cim, (n - 1) as nat),
        )
    }
}

/// Raw imaginary part of the orbit of `c` under `z -> z^2 + c` after `n` steps.
pub open spec fn orbit_im(cre: int, cim: int, n: nat) -> int
    decreases n,
{
    if n == 0 {
        cim
    } else {
        step_im(
            cre,
            cim,
            orbit_re(cre, cim, (n - 1) as nat),
            orbit_im(cre, cim, (n - 1) as nat),
        )
    }
}

/// The remaining escape-time count when the orbit has reached `z` and the
/// next check is numbered `iter`: keeps stepping while `|z|^2` stays within
/// the threshold and `iter` is under budget; a run that exhausts the budget
/// yields the reserved in-set sentinel `0`.
pub open spec fn escape_from(
    cre: int,
    cim: int,
    zre: int,
    zim: int,
    iter: u64,
    max_iter: u64,
) -> u64
    decreases max_iter - iter,
{
    if norm_units(zre, zim) <= ESCAPE_THRESHOLD && iter < max_iter {
        escape_from(
            cre,
            cim,
            step_re(cre, cim, zre, zim),
            step_im(cre, cim, zre, zim),
            (iter + 1) as u64,
            max_iter,
        )
    } else if iter == max_iter {
        0
    } else {
        iter
    }
}

/// The value `mandel_iter` computes for `c` given in raw parts: the first
/// check number at which the orbit escapes, or `0` if the budget runs out.
pub open spec fn mandel_spec(cre: int, cim: int, max_iter: u64) -> u64 {
    escape_from(cre, cim, cre, cim, 1, max_iter)
}

impl Complex {
    /// `z^2`, on fixed-point parts.
    pub fn square(self) -> (r: Complex)
        requires
            abs1(self.re.raw as int) <= 4 * SCALE,
            abs1(self.im.raw as int) <= 4 * SCALE,
        ensures
            r.re.raw == fmul(self.re.raw as int, self.re.raw as int) - fmul(
                self.im.raw as int,
                self.im.raw as int,
            ),
            r.im.raw == 2 * fmul(self.re.raw as int, self.im.raw as int),
            abs1(r.re.raw as int) <= 32 * SCALE,
            abs1(r.im.raw as int) <= 32 * SCALE,
    {
        proof {
            lemma_fmul_bound(self.re.raw as int, self.re.raw as int, 4 * SCALE, 4 * SCALE);
            lemma_fmul_bound(self.im.raw as int, self.im.raw as int, 4 * SCALE, 4 * SCALE);
            lemma_fmul_bound(self.re.raw as int, self.im.raw as int, 4 * SCALE, 4 * SCALE);
        }
        let rr = self.re.times(self.re);
        let ii = self.im.times(self.im);
        let ri = self.re.times(self.im);
        Complex { re: Fix { raw: rr.raw - ii.raw }, im: Fix { raw: 2 * ri.raw } }
    }

    /// `|z|^2` in raw*raw units; exact, never overflows.
    pub fn norm(&self) -> (n: u128)
        ensures
            n as int == norm_units(self.re.raw as int, self.im.raw as int),
    {
        let re = self.re.raw as i128;
        let im = self.im.raw as i128;
        proof {
            assert((re * re) >= 0 && (re * re) < 0x8000_0000_0000_0000_0000_0000_0000_0000int
                && (im * im) >= 0 && (im * im)
                < 0x8000_0000_0000_0000_0000_0000_0000_0000int) by (nonlinear_arith)
                requires
                    -0x8000_0000_0000_0000int <= re <= 0x7fff_ffff_ffff_ffffint,
                    -0x8000_0000_0000_0000int <= im <= 0x7fff_ffff_ffff_ffffint,
            ;
        }
        (re * re) as u128 + (im * im) as u128
    }

    /// Component-wise sum.
    pub fn add(self, rhs: Complex) -> (r: Complex)
        requires
            i64::MIN <= self.re.raw + rhs.re.raw <= i64::MAX,
            i64::MIN <= self.im.raw + rhs.im.raw <= i64::MAX,
        ensures
            r.re.raw == self.re.raw + rhs.re.raw,
            r.im.raw == self.im.raw + rhs.im.raw,
    {
        Complex {
            re: Fix { raw: self.re.raw + rhs.re.raw },
            im: Fix { raw: self.im.raw + rhs.im.raw },
        }
    }
}

/// A bound on the magnitudes of two raw values bounds their fixed-point
/// product.
proof fn lemma_fmul_bound(a: int, b: int, abound: int, bbound: int)
    requires
        abs1(a) <= abound,
        abs1(b) <= bbound,
        0 <= abound,
        0 <= bbound,
    ensures
        abs1(a) * abs1(b) <= abound * bbound,
        abs1(fmul(a, b)) * (SCALE as int) <= abound * bbound,
{
    assert(abs1(a) * abs1(b) <= abound * bbound) by (nonlinear_arith)
        requires
            abs1(a) <= abound,
            abs1(b) <= bbound,
            0 <= abs1(a),
            0 <= abs1(b),
    ;
    assert(abs1(a * b) == abs1(a) * abs1(b)) by (nonlinear_arith);
    let p = abs1(a * b);
    let s = SCALE as int;
    assert(abs1(fmul(a, b)) == p / s);
    assert((p / s) * s <= p) by {
        vstd::arithmetic::div_mod::lemma_fundamental_div_mod(p, s);
    }
}

/// A bound on `|z|^2` bounds each component: if `re*re + im*im <= 4*S^2`
/// then `|re| <= 2*S` and `|im| <= 2*S`.
proof fn lemma_norm_component_bound(re: int, im: int)
    requires
        norm_units(re, im) <= ESCAPE_THRESHOLD,
    ensures
        abs1(re) <= 2 * SCALE,
        abs1(im) <= 2 * SCALE,
{
    assert(abs1(re) <= 2 * SCALE && abs1(im) <= 2 * SCALE) by (nonlinear_arith)
        requires
            re * re + im * im <= 4 * (SCALE as int) * (SCALE as int),
    ;
}

/// The escape-time count for `c` with an iteration budget of `max_iter`.
///
/// Returns `0` when the orbit of `c` never leaves `|z|^2 <= 4` within the
/// budget (the reserved "in the set" sentinel), and otherwise the number of
/// the check at which the orbit was first seen outside, which is in
/// `[1, max_iter - 1]`.
pub fn mandel_iter(max_iter: u64, c: Complex) -> (r: u64)
    ensures
        r == mandel_spec(c.re.raw as int, c.im.raw as int, max_iter),
{
    let mut z: Complex = c;
    let mut iter: u64 = 1;
    while z.norm() <= ESCAPE_THRESHOLD && iter < max_iter
        invariant
            1 <= iter,
            iter <= max_iter || iter == 1,
            mandel_spec(c.re.raw as int, c.im.raw as int, max_iter) == escape_from(
                c.re.raw as int,
                c.im.raw as int,
                z.re.raw as int,
                z.im.raw as int,
                iter,
                max_iter,
            ),
            iter == 1 ==> z == c,
            iter > 1 ==> norm_units(c.re.raw as int, c.im.raw as int) <= ESCAPE_THRESHOLD,
        decreases max_iter - iter,
    {
        proof {
            lemma_norm_component_bound(z.re.raw as int, z.im.raw as int);
            if iter == 1 {
                assert(norm_units(c.re.raw as int, c.im.raw as int) <= ESCAPE_THRESHOLD);
            }
            lemma_norm_component_bound(c.re.raw as int, c.im.raw as int);
        }
        z = c.add(z.square());
        iter = iter + 1;
    }
    if iter == max_iter {
        0
    } else {
        iter
    }
}

/// The sentinel law of the escape count: starting from check number `iter`
/// with the orbit at step `iter - 1`, the count is `0` exactly when every
/// remaining checked orbit point stays within the threshold, and a nonzero
/// count names the first check that saw the orbit outside.
proof fn lemma_escape_characterize(cre: int, cim: int, iter: u64, max_iter: u64)
    requires
        1 <= iter <= max_iter,
    ensures
        ({
            let r = escape_from(
                cre,
                cim,
                orbit_re(cre, cim, (iter - 1) as nat),
                orbit_im(cre, cim, (iter - 1) as nat),
                iter,
                max_iter,
            );
            &&& (r == 0 <==> forall|k: nat|
                iter - 1 <= k <= max_iter - 2 ==> norm_units(
                    #[trigger] orbit_re(cre, cim, k),
                    orbit_im(cre, cim, k),
                ) <= ESCAPE_THRESHOLD)
            &&& (r != 0 ==> {
                &&& iter <= r <= max_iter - 1
                &&& norm_units(orbit_re(cre, cim, (r - 1) as nat), orbit_im(cre, cim, (r - 1) as nat))
                    > ESCAPE_THRESHOLD
                &&& forall|k: nat|
                    iter - 1 <= k < r - 1 ==> norm_units(
                        #[trigger] orbit_re(cre, cim, k),
                        orbit_im(cre, cim, k),
                    ) <= ESCAPE_THRESHOLD
            })
        }),
    decreases max_iter - iter,
{
    let zre = orbit_re(cre, cim, (iter - 1) as nat);
    let zim = orbit_im(cre, cim, (iter - 1) as nat);
    let r = escape_from(cre, cim, zre, zim, iter, max_iter);
    if norm_units(zre, zim) <= ESCAPE_THRESHOLD && iter < max_iter {
        assert(orbit_re(cre, cim, iter as nat) == step_re(cre, cim, zre, zim));
        assert(orbit_im(cre, cim, iter as nat) == step_im(cre, cim, zre, zim));
        lemma_escape_characterize(cre, cim, (iter + 1) as u64, max_iter);
    } else if iter == max_iter {
        assert(r == 0);
    } else {
        assert(r == iter);
        assert(norm_units(orbit_re(cre, cim, (iter - 1) as nat), orbit_im(cre, cim, (iter - 1) as nat))
            > ESCAPE_THRESHOLD);
    }
}

/// The sentinel invariant: the escape count of `c` is `0` exactly when
/// `|z|^2` stays within `4` at every check the budget allows (the orbit's
/// steps `0` through `max_iter - 2`), and otherwise it is in
/// `[1, max_iter - 1]` and names the first step seen outside.
pub proof fn lemma_mandel_sentinel(cre: int, cim: int, max_iter: u64)
    requires
        max_iter >= 1,
    ensures
        ({
            let r = mandel_spec(cre, cim, max_iter);
            &&& (r == 0 <==> forall|k: nat|
                k <= max_iter - 2 ==> norm_units(
                    #[trigger] orbit_re(cre, cim, k),
                    orbit_im(cre, cim, k),
                ) <= ESCAPE_THRESHOLD)
            &&& (r != 0 ==> {
                &&& 1 <= r <= max_iter - 1
                &&& norm_units(orbit_re(cre, cim, (r - 1) as nat), orbit_im(cre, cim, (r - 1) as nat))
                    > ESCAPE_THRESHOLD
                &&& forall|k: nat|
                    k < r - 1 ==> norm_units(
                        #[trigger] orbit_re(cre, cim, k),
                        orbit_im(cre, cim, k),
                    ) <= ESCAPE_THRESHOLD
            })
        }),
{
    assert(orbit_re(cre, cim, 0) == cre);
    assert(orbit_im(cre, cim, 0) == cim);
    lemma_escape_characterize(cre, cim, 1, max_iter);
}

} // verus!

