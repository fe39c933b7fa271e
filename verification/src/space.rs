//! The three coordinate spaces and the exact transforms between them.
//!
//! A tile address scales the plane by `2^zoom` and cuts it into unit
//! squares; a sample point names a tile plus a normalized offset inside it.
//! Because coordinates are fixed-point, splitting a point into tile index
//! and offset loses nothing: index and offset together recover the point
//! exactly (see [`lemma_round_trip`]).

use vstd::prelude::*;
use vstd::arithmetic::power2::{pow2, lemma_pow2_pos};
use vstd::arithmetic::div_mod::{
    lemma_fundamental_div_mod_converse_div, lemma_fundamental_div_mod,
};
use crate::fixed::{Fix, SCALE, abs1, floor_div, pow2_exec};
use crate::complex::Complex;

verus! {

/// A 2-tuple of a numeric type.
#[derive(Clone, Copy, PartialEq, Eq, Structural, Debug)]
pub struct Point<T> {
    pub x: T,
    pub y: T,
}

/// The address of one tile: the square `[x, x+1) x [y, y+1)` of the complex
/// plane after scaling by `2^zoom`.
#[derive(Clone, Copy, PartialEq, Eq, Structural, Debug)]
pub struct TileSpace {
    pub index: Point<i64>,
    pub zoom: usize,
}

/// A point of the complex plane in true coordinates.
#[derive(Clone, Copy, PartialEq, Eq, Structural, Debug)]
pub struct ComplexSpace(pub Complex);

/// A point expressed as "which tile" plus a normalized offset inside that
/// tile; both offset components lie in `[0, 1)`.
#[derive(Clone, Copy, PartialEq, Eq, Structural, Debug)]
pub struct SampleSpace {
    pub tile: TileSpace,
    pub coord: Point<Fix>,
}

/// A tile corner coordinate stays within fixed-point range once divided by
/// `2^z`.
pub open spec fn corner_ok(i: int, z: nat) -> bool {
    abs1(i) * (SCALE as int) <= i64::MAX * (pow2(z) as int)
}

/// Raw units of a tile boundary in true coordinates: `floor(i * SCALE / 2^z)`,
/// the exact fixed-point rendering of the rational `i / 2^z`.
pub open spec fn tile_origin_raw(i: int, z: nat) -> int {
    (i * (SCALE as int)) / (pow2(z) as int)
}

/// The tile index that a raw coordinate falls in at a zoom level:
/// `floor(raw * 2^z / SCALE)`.
pub open spec fn tile_index_of(raw: int, z: nat) -> int {
    (raw * (pow2(z) as int)) / (SCALE as int)
}

/// The raw offset of a coordinate inside its tile, in `[0, SCALE)`.
pub open spec fn tile_offset_of(raw: int, z: nat) -> int {
    (raw * (pow2(z) as int)) % (SCALE as int)
}

impl SampleSpace {
    /// Splits a complex point into the tile that covers it at zoom `z` and
    /// the normalized offset inside that tile.
    ///
    /// The split uses floor semantics, never truncation toward zero: a
    /// negative coordinate gets the tile below it and a nonnegative offset
    /// (`-0.3` becomes offset `0.7` in the tile at index `-1`), so tiles
    /// stay aligned across the origin.
    pub fn from_complex(c: &ComplexSpace, z: usize) -> (s: SampleSpace)
        requires
            z <= 62,
            abs1(c.0.re.raw as int) * (pow2(z as nat) as int) <= i64::MAX * (SCALE as int),
            abs1(c.0.im.raw as int) * (pow2(z as nat) as int) <= i64::MAX * (SCALE as int),
        ensures
            s.tile.zoom == z,
            s.tile.index.x == tile_index_of(c.0.re.raw as int, z as nat),
            s.tile.index.y == tile_index_of(c.0.im.raw as int, z as nat),
            s.coord.x.raw == tile_offset_of(c.0.re.raw as int, z as nat),
            s.coord.y.raw == tile_offset_of(c.0.im.raw as int, z as nat),
            s.tile.index.x * SCALE + s.coord.x.raw == c.0.re.raw * pow2(z as nat),
            s.tile.index.y * SCALE + s.coord.y.raw == c.0.im.raw * pow2(z as nat),
            0 <= s.coord.x.raw < SCALE,
            0 <= s.coord.y.raw < SCALE,
    {
        let p = pow2_exec(z);
        let qx = split_coord(c.0.re.raw, p);
        let qy = split_coord(c.0.im.raw, p);
        SampleSpace {
            tile: TileSpace { index: Point { x: qx.0, y: qy.0 }, zoom: z },
            coord: Point { x: Fix { raw: qx.1 }, y: Fix { raw: qy.1 } },
        }
    }
}

impl SampleSpace {
    /// The complex point this sample denotes: the tile corner advanced by
    /// the in-tile offset, scaled back to true coordinates.
    ///
    /// For a sample produced by `from_complex` this recovers the original
    /// point exactly (see [`lemma_round_trip`]).
    pub fn to_complex(&self) -> (c: ComplexSpace)
        requires
            self.tile.zoom <= 62,
            self.tile.index.x < i64::MAX,
            self.tile.index.y < i64::MAX,
            corner_ok(self.tile.index.x as int, self.tile.zoom as nat),
            corner_ok(self.tile.index.x as int + 1, self.tile.zoom as nat),
            corner_ok(self.tile.index.y as int, self.tile.zoom as nat),
            corner_ok(self.tile.index.y as int + 1, self.tile.zoom as nat),
            0 <= self.coord.x.raw < SCALE,
            0 <= self.coord.y.raw < SCALE,
        ensures
            c.0.re.raw == (self.tile.index.x * SCALE + self.coord.x.raw) / (pow2(
                self.tile.zoom as nat,
            ) as int),
            c.0.im.raw == (self.tile.index.y * SCALE + self.coord.y.raw) / (pow2(
                self.tile.zoom as nat,
            ) as int),
    {
        let p = pow2_exec(self.tile.zoom);
        let re = join_coord(self.tile.index.x, self.coord.x.raw, p);
        let im = join_coord(self.tile.index.y, self.coord.y.raw, p);
        ComplexSpace(Complex { re: Fix { raw: re }, im: Fix { raw: im } })
    }
}

/// Scales a tile index plus in-tile offset back down by `p = 2^z`.
fn join_coord(i: i64, off: i64, p: u64) -> (r: i64)
    requires
        p >= 1,
        i < i64::MAX,
        0 <= off < SCALE,
        abs1(i as int) * (SCALE as int) <= i64::MAX * (p as int),
        abs1(i as int + 1) * (SCALE as int) <= i64::MAX * (p as int),
    ensures
        r == (i * (SCALE as int) + off) / (p as int),
{
    let pi128 = p as i128;
    proof {
        lemma_scaled_coord_fits_gen(i as int, SCALE as int, i64::MAX * (p as int));
        lemma_scaled_coord_fits_gen(i as int + 1, SCALE as int, i64::MAX * (p as int));
        assert((i as int + 1) * (SCALE as int) == (i as int) * (SCALE as int) + SCALE)
            by (nonlinear_arith);
    }
    let t: i128 = (i as i128) * (SCALE as i128) + (off as i128);
    let qr = floor_div(t, pi128);
    proof {
        let pi = p as int;
        let maxp = i64::MAX * pi;
        assert(t < (i as int + 1) * (SCALE as int));
        assert(qr.0 * pi <= t && t - pi < qr.0 * pi);
        assert(qr.0 <= i64::MAX) by (nonlinear_arith)
            requires
                qr.0 * pi <= t,
                t <= maxp,
                maxp == i64::MAX * pi,
                pi > 0,
        ;
        assert(qr.0 >= i64::MIN) by (nonlinear_arith)
            requires
                t - pi < qr.0 * pi,
                -maxp <= t,
                maxp == i64::MAX * pi,
                pi > 0,
        ;
        lemma_fundamental_div_mod_converse_div(t as int, pi, qr.0 as int, qr.1 as int);
    }
    qr.0 as i64
}

/// Splits one raw coordinate scaled by `p = 2^z` into tile index and offset.
fn split_coord(raw: i64, p: u64) -> (ir: (i64, i64))
    requires
        p >= 1,
        abs1(raw as int) * (p as int) <= i64::MAX * (SCALE as int),
    ensures
        ir.0 * SCALE + ir.1 == raw * p,
        0 <= ir.1 < SCALE,
        ir.0 == (raw * (p as int)) / (SCALE as int),
        ir.1 == (raw * (p as int)) % (SCALE as int),
{
    proof {
        lemma_scaled_coord_fits(raw as int, p as int);
    }
    let t: i128 = (raw as i128) * (p as i128);
    let qr = floor_div(t, SCALE as i128);
    proof {
        let s = SCALE as int;
        let maxp = i64::MAX * s;
        assert(qr.0 * s <= t && t - s < qr.0 * s);
        assert(qr.0 <= i64::MAX) by (nonlinear_arith)
            requires
                qr.0 * s <= t,
                t <= maxp,
                maxp == i64::MAX * s,
                s > 0,
        ;
        assert(qr.0 >= i64::MIN) by (nonlinear_arith)
            requires
                t - s < qr.0 * s,
                -maxp <= t,
                maxp == i64::MAX * s,
                s > 0,
        ;
        lemma_fundamental_div_mod_converse_div(t as int, s, qr.0 as int, qr.1 as int);
        vstd::arithmetic::div_mod::lemma_fundamental_div_mod_converse_mod(
            t as int,
            s,
            qr.0 as int,
            qr.1 as int,
        );
    }
    (qr.0 as i64, qr.1 as i64)
}

/// A coordinate bounded as `from_complex` requires stays in `i128` range
/// once scaled by `2^z`.
proof fn lemma_scaled_coord_fits(raw: int, p: int)
    requires
        p >= 1,
        abs1(raw) * p <= i64::MAX * (SCALE as int),
    ensures
        -(i64::MAX * (SCALE as int)) <= raw * p <= i64::MAX * (SCALE as int),
{
    assert(-(abs1(raw) * p) <= raw * p <= abs1(raw) * p) by (nonlinear_arith)
        requires
            p >= 1,
    ;
}

impl ComplexSpace {
    /// The lower-left corner of a tile in true coordinates: each component
    /// is `floor(index * SCALE / 2^zoom)` raw units, the exact fixed-point
    /// rendering of `index / 2^zoom`.
    pub fn from(t: &TileSpace) -> (c: ComplexSpace)
        requires
            t.zoom <= 62,
            corner_ok(t.index.x as int, t.zoom as nat),
            corner_ok(t.index.y as int, t.zoom as nat),
        ensures
            c.0.re.raw == tile_origin_raw(t.index.x as int, t.zoom as nat),
            c.0.im.raw == tile_origin_raw(t.index.y as int, t.zoom as nat),
    {
        let p = pow2_exec(t.zoom);
        let re = tile_origin_exec(t.index.x, p);
        let im = tile_origin_exec(t.index.y, p);
        ComplexSpace(Complex { re: Fix { raw: re }, im: Fix { raw: im } })
    }
}

/// One component of a tile corner: `floor(i * SCALE / p)` for `p = 2^zoom`.
fn tile_origin_exec(i: i64, p: u64) -> (r: i64)
    requires
        p >= 1,
        abs1(i as int) * (SCALE as int) <= i64::MAX * (p as int),
    ensures
        r == (i * (SCALE as int)) / (p as int),
{
    proof {
        lemma_scaled_coord_fits_gen(i as int, SCALE as int, i64::MAX * (p as int));
    }
    let t: i128 = (i as i128) * (SCALE as i128);
    let qr = floor_div(t, p as i128);
    proof {
        let pi = p as int;
        let maxp = i64::MAX * pi;
        assert(qr.0 * pi <= t && t - pi < qr.0 * pi);
        assert(qr.0 <= i64::MAX) by (nonlinear_arith)
            requires
                qr.0 * pi <= t,
                t <= maxp,
                maxp == i64::MAX * pi,
                pi > 0,
        ;
        assert(qr.0 >= i64::MIN) by (nonlinear_arith)
            requires
                t - pi < qr.0 * pi,
                -maxp <= t,
                maxp == i64::MAX * pi,
                pi > 0,
        ;
        lemma_fundamental_div_mod_converse_div(t as int, pi, qr.0 as int, qr.1 as int);
    }
    qr.0 as i64
}

/// A product bounded in magnitude stays in a symmetric range.
proof fn lemma_scaled_coord_fits_gen(a: int, b: int, bound: int)
    requires
        b >= 1,
        abs1(a) * b <= bound,
    ensures
        -bound <= a * b <= bound,
{
    assert(-(abs1(a) * b) <= a * b <= abs1(a) * b) by (nonlinear_arith)
        requires
            b >= 1,
    ;
}

/// The coordinate round-trip law: splitting a raw coordinate at zoom `z`
/// into a tile index and an in-tile offset loses nothing — scaling the
/// reassembled pair back down recovers the coordinate exactly, with no
/// tolerance. `idx * SCALE + off` is the reassembled point in the scaled
/// plane; dividing by `2^z` returns to true coordinates.
pub proof fn lemma_round_trip(raw: int, z: nat)
    ensures
        tile_index_of(raw, z) * (SCALE as int) + tile_offset_of(raw, z) == raw * (pow2(z) as int),
        0 <= tile_offset_of(raw, z) < SCALE,
        (tile_index_of(raw, z) * (SCALE as int) + tile_offset_of(raw, z)) / (pow2(z) as int)
            == raw,
{
    let s = SCALE as int;
    let p = pow2(z) as int;
    lemma_pow2_pos(z);
    lemma_fundamental_div_mod(raw * p, s);
    assert(raw * p == s * ((raw * p) / s) + (raw * p) % s);
    assert(s * ((raw * p) / s) == ((raw * p) / s) * s) by (nonlinear_arith);
    lemma_fundamental_div_mod_converse_div(raw * p, p, raw, 0);
    assert(raw * p == raw * p + 0);
}

} // verus!
