//! Tile generation: escape counts for every sample position of one tile,
//! the key that identifies a tile's content, and nearest-sample lookup.

use vstd::prelude::*;
use vstd::arithmetic::power2::{pow2, lemma_pow2_pos, lemma_pow2_adds};
use vstd::arithmetic::div_mod::{
    lemma_div_is_ordered, lemma_fundamental_div_mod, lemma_fundamental_div_mod_converse_div,
    lemma_multiply_divide_lt,
};
use vstd::arithmetic::mul::lemma_mul_inequality;
use crate::fixed::{Fix, SCALE, abs1};
use crate::space::{Point, TileSpace, ComplexSpace, corner_ok, tile_origin_raw};
use crate::complex::{Complex, mandel_spec, mandel_iter};

verus! {

/// Iteration data of one generated tile: row-major escape counts, one per
/// sample position, each `0` (in set) or an escape check number.
#[derive(Debug)]
pub struct Tile {
    pub data: Vec<u64>,
}

/// The identity of a tile's content: every parameter that affects the
/// generated data is a field, so two generation requests collide exactly
/// when they would produce the same data.
#[derive(Clone, Copy, PartialEq, Eq, Structural, Debug)]
pub struct TileKey {
    pub width: usize,
    pub height: usize,
    pub max_iter: u64,
    pub x: i64,
    pub y: i64,
    pub zoom: usize,
}

/// Generation parameters: the pixel resolution of every generated tile and
/// the escape-time iteration budget.
#[derive(Clone, Copy, PartialEq, Eq, Structural, Debug)]
pub struct GeneratorConfig {
    pub size: Point<usize>,
    pub max_iter: u64,
}

/// The key for a tile generated with the given parameters.
pub open spec fn key_of(size: Point<usize>, max_iter: u64, t: TileSpace) -> TileKey {
    TileKey {
        width: size.x,
        height: size.y,
        max_iter: max_iter,
        x: t.index.x,
        y: t.index.y,
        zoom: t.zoom,
    }
}

/// The whole tile, both corners included, is representable at its zoom
/// level, so generation cannot overflow.
pub open spec fn gen_tile_ok(t: TileSpace) -> bool {
    &&& t.zoom <= 62
    &&& t.index.x < i64::MAX
    &&& t.index.y < i64::MAX
    &&& corner_ok(t.index.x as int, t.zoom as nat)
    &&& corner_ok(t.index.x as int + 1, t.zoom as nat)
    &&& corner_ok(t.index.y as int, t.zoom as nat)
    &&& corner_ok(t.index.y as int + 1, t.zoom as nat)
}

/// Raw distance between adjacent sample columns of a tile with `n` columns:
/// the tile's raw extent divided by `n`, rounded down.
pub open spec fn gen_step(i: int, z: nat, n: int) -> int {
    (tile_origin_raw(i + 1, z) - tile_origin_raw(i, z)) / n
}

/// Raw real coordinate of sample column `x` of a tile.
pub open spec fn sample_re(t: TileSpace, size: Point<usize>, x: int) -> int {
    tile_origin_raw(t.index.x as int, t.zoom as nat) + x * gen_step(
        t.index.x as int,
        t.zoom as nat,
        size.x as int,
    )
}

/// Raw imaginary coordinate of sample row `y` of a tile.
pub open spec fn sample_im(t: TileSpace, size: Point<usize>, y: int) -> int {
    tile_origin_raw(t.index.y as int, t.zoom as nat) + y * gen_step(
        t.index.y as int,
        t.zoom as nat,
        size.y as int,
    )
}

/// The escape count generated for sample `(x, y)` of a tile.
pub open spec fn tile_value(
    t: TileSpace,
    size: Point<usize>,
    max_iter: u64,
    x: int,
    y: int,
) -> u64 {
    mandel_spec(sample_re(t, size, x), sample_im(t, size, y), max_iter)
}

/// The sample cell a normalized offset selects out of `n`: `floor(offset * n)`.
pub open spec fn sample_cell(raw: int, n: int) -> int {
    (raw * n) / (SCALE as int)
}

/// The escape count of a generated tile at a normalized in-tile offset.
pub open spec fn sampled_value(data: Seq<u64>, size: Point<usize>, coord: Point<Fix>) -> u64 {
    data[sample_cell(coord.y.raw as int, size.y as int) * size.x + sample_cell(
        coord.x.raw as int,
        size.x as int,
    )]
}

/// One axis of tile generation: the exact origin and the per-sample step,
/// with everything the per-sample loop needs to stay in `i64` range.
fn axis_bounds(origin: i64, origin_next: i64, n: usize) -> (step: u64)
    requires
        n >= 1,
        origin <= origin_next,
    ensures
        step == gen_step_from(origin as int, origin_next as int, n as int),
        forall|x: int|
            0 <= x <= n ==> 0 <= #[trigger] (x * step) <= origin_next - origin,
{
    let diff: u128 = (origin_next as i128 - origin as i128) as u128;
    let step_u = diff / (n as u128);
    proof {
        lemma_fundamental_div_mod(diff as int, n as int);
        assert(step_u <= diff) by {
            vstd::arithmetic::div_mod::lemma_div_is_ordered_by_denominator(
                diff as int,
                1,
                n as int,
            );
            vstd::arithmetic::div_mod::lemma_div_basics_1(diff as int);
        }
        assert(diff <= u64::MAX) by {
            assert(origin_next - origin <= u64::MAX);
        }
        assert forall|x: int| 0 <= x <= n implies 0 <= #[trigger] (x * (step_u as int))
            <= origin_next - origin by {
            lemma_mul_inequality(x, n as int, step_u as int);
            assert(n * (step_u as int) <= diff) by (nonlinear_arith)
                requires
                    diff == (n as int) * (step_u as int) + (diff as int) % (n as int),
                    (diff as int) % (n as int) >= 0,
            ;
            assert(x * (step_u as int) >= 0) by (nonlinear_arith)
                requires
                    x >= 0,
                    step_u >= 0,
            ;
        }
    }
    step_u as u64
}

/// The step between adjacent samples given the two corner origins.
pub open spec fn gen_step_from(origin: int, origin_next: int, n: int) -> int {
    (origin_next - origin) / n
}

impl GeneratorConfig {
    /// The cache key of a tile under these parameters: deterministic, and
    /// collision-free because every key-relevant field is carried verbatim.
    pub fn hash(&self, tile: &TileSpace) -> (k: TileKey)
        ensures
            k == key_of(self.size, self.max_iter, *tile),
    {
        TileKey {
            width: self.size.x,
            height: self.size.y,
            max_iter: self.max_iter,
            x: tile.index.x,
            y: tile.index.y,
            zoom: tile.zoom,
        }
    }

    /// Generates the iteration data for one tile: for every sample position
    /// `(x, y)`, the escape count of the complex point at the tile's corner
    /// advanced `x` columns and `y` rows, row-major.
    ///
    /// The data is a function of the tile address and the generation
    /// parameters alone, so repeated calls with equal arguments produce
    /// identical output.
    pub fn generate(&self, tile: &TileSpace) -> (t: Tile)
        requires
            gen_tile_ok(*tile),
            self.size.x >= 1,
            self.size.y >= 1,
            self.size.x * self.size.y <= usize::MAX,
        ensures
            t.data@.len() == self.size.x * self.size.y,
            forall|x: int, y: int|
                0 <= x < self.size.x && 0 <= y < self.size.y ==> t.data@[y * self.size.x + x]
                    == #[trigger] tile_value(*tile, self.size, self.max_iter, x, y),
    {
        let z = tile.zoom;
        let start = ComplexSpace::from(tile);
        let next = TileSpace {
            index: Point { x: tile.index.x + 1, y: tile.index.y + 1 },
            zoom: z,
        };
        let end = ComplexSpace::from(&next);
        proof {
            lemma_origin_monotone(tile.index.x as int, z as nat);
            lemma_origin_monotone(tile.index.y as int, z as nat);
        }
        let step_x = axis_bounds(start.0.re.raw, end.0.re.raw, self.size.x);
        let step_y = axis_bounds(start.0.im.raw, end.0.im.raw, self.size.y);
        let w = self.size.x;
        let h = self.size.y;
        let mut data: Vec<u64> = Vec::new();
        let mut y: usize = 0;
        while y < h
            invariant
                y <= h,
                w == self.size.x,
                h == self.size.y,
                w >= 1,
                h >= 1,
                w * h <= usize::MAX,
                gen_tile_ok(*tile),
                z == tile.zoom,
                start.0.re.raw == tile_origin_raw(tile.index.x as int, z as nat),
                start.0.im.raw == tile_origin_raw(tile.index.y as int, z as nat),
                end.0.re.raw == tile_origin_raw(tile.index.x as int + 1, z as nat),
                end.0.im.raw == tile_origin_raw(tile.index.y as int + 1, z as nat),
                step_x == gen_step(tile.index.x as int, z as nat, w as int),
                step_y == gen_step(tile.index.y as int, z as nat, h as int),
                forall|x2: int|
                    0 <= x2 <= w ==> 0 <= #[trigger] (x2 * step_x) <= end.0.re.raw
                        - start.0.re.raw,
                forall|y2: int|
                    0 <= y2 <= h ==> 0 <= #[trigger] (y2 * step_y) <= end.0.im.raw
                        - start.0.im.raw,
                data@.len() == y * w,
                forall|x2: int, y2: int|
                    0 <= x2 < w && 0 <= y2 < y ==> data@[y2 * w + x2] == #[trigger] tile_value(
                        *tile,
                        self.size,
                        self.max_iter,
                        x2,
                        y2,
                    ),
            decreases h - y,
        {
            proof {
                lemma_mul_inequality(y as int + 1, h as int, w as int);
                assert((y + 1) * w == y * w + w && (h as int) * (w as int) == (w as int) * (
                h as int)) by (nonlinear_arith);
            }
            let cim_i = (start.0.im.raw as i128) + (y as i128) * (step_y as i128);
            let cim = cim_i as i64;
            let mut x: usize = 0;
            while x < w
                invariant
                    x <= w,
                    y < h,
                    w == self.size.x,
                    h == self.size.y,
                    w >= 1,
                    h >= 1,
                    w * h <= usize::MAX,
                    y * w + w <= w * h,
                    gen_tile_ok(*tile),
                    z == tile.zoom,
                    start.0.re.raw == tile_origin_raw(tile.index.x as int, z as nat),
                    start.0.im.raw == tile_origin_raw(tile.index.y as int, z as nat),
                    end.0.re.raw == tile_origin_raw(tile.index.x as int + 1, z as nat),
                    end.0.im.raw == tile_origin_raw(tile.index.y as int + 1, z as nat),
                    step_x == gen_step(tile.index.x as int, z as nat, w as int),
                    step_y == gen_step(tile.index.y as int, z as nat, h as int),
                    forall|x2: int|
                        0 <= x2 <= w ==> 0 <= #[trigger] (x2 * step_x) <= end.0.re.raw
                            - start.0.re.raw,
                    forall|y2: int|
                        0 <= y2 <= h ==> 0 <= #[trigger] (y2 * step_y) <= end.0.im.raw
                            - start.0.im.raw,
                    cim == sample_im(*tile, self.size, y as int),
                    data@.len() == y * w + x,
                    forall|x2: int, y2: int|
                        0 <= x2 < w && 0 <= y2 < y ==> data@[y2 * w + x2] == #[trigger] tile_value(
                            *tile,
                            self.size,
                            self.max_iter,
                            x2,
                            y2,
                        ),
                    forall|x2: int|
                        0 <= x2 < x ==> data@[y * w + x2] == #[trigger] tile_value(
                            *tile,
                            self.size,
                            self.max_iter,
                            x2,
                            y as int,
                        ),
                decreases w - x,
            {
                let cre_i = (start.0.re.raw as i128) + (x as i128) * (step_x as i128);
                let cre = cre_i as i64;
                let count = mandel_iter(
                    self.max_iter,
                    Complex { re: Fix { raw: cre }, im: Fix { raw: cim } },
                );
                data.push(count);
                proof {
                    assert(cre == sample_re(*tile, self.size, x as int));
                    assert forall|x2: int, y2: int|
                        0 <= x2 < w && 0 <= y2 < y implies data@[y2 * w + x2]
                        == #[trigger] tile_value(*tile, self.size, self.max_iter, x2, y2) by {
                        lemma_mul_inequality(y2 + 1, y as int, w as int);
                        assert((y2 + 1) * w == y2 * w + w) by (nonlinear_arith);
                    }
                }
                x = x + 1;
            }
            y = y + 1;
        }
        proof {
            assert((h as int) * (w as int) == (w as int) * (h as int)) by (nonlinear_arith);
        }
        Tile { data }
    }

    /// Nearest-sample lookup: the normalized offset selects column
    /// `floor(coord.x * width)` and row `floor(coord.y * height)`; no
    /// interpolation.
    pub fn sample(&self, tile: &Tile, coord: &Point<Fix>) -> (v: u64)
        requires
            self.size.x >= 1,
            self.size.y >= 1,
            self.size.x * self.size.y <= usize::MAX,
            tile.data@.len() == self.size.x * self.size.y,
            0 <= coord.x.raw < SCALE,
            0 <= coord.y.raw < SCALE,
        ensures
            v == sampled_value(tile.data@, self.size, *coord),
    {
        let w = self.size.x;
        let h = self.size.y;
        let x = cell_of(coord.x, w);
        let y = cell_of(coord.y, h);
        proof {
            lemma_mul_inequality(y as int + 1, h as int, w as int);
            assert((y + 1) * w == y * w + w && (h as int) * (w as int) == (w as int) * (h as int))
                by (nonlinear_arith);
        }
        tile.data[y * w + x]
    }
}

/// The cell out of `n` that a normalized offset falls in.
fn cell_of(c: Fix, n: usize) -> (r: usize)
    requires
        0 <= c.raw < SCALE,
        n >= 1,
    ensures
        r == sample_cell(c.raw as int, n as int),
        r < n,
{
    proof {
        lemma_cell_in_range(c.raw as int, n as int);
        assert((c.raw as int) * (n as int) < 0x1_0000_0000_0000_0000_0000_0000_0000_0000int)
            by (nonlinear_arith)
            requires
                0 <= c.raw < 0x1_0000_0000,
                0 < n <= 0xffff_ffff_ffff_ffffu64,
        ;
    }
    (((c.raw as u128) * (n as u128)) / (SCALE as u128)) as usize
}

/// A normalized offset in `[0, SCALE)` selects a cell in `[0, n)`.
pub proof fn lemma_cell_in_range(raw: int, n: int)
    requires
        0 <= raw < SCALE,
        n >= 1,
    ensures
        0 <= sample_cell(raw, n) < n,
{
    assert(raw * n < (SCALE as int) * n && raw * n >= 0) by (nonlinear_arith)
        requires
            0 <= raw < SCALE,
            n >= 1,
    ;
    lemma_multiply_divide_lt(raw * n, SCALE as int, n);
    vstd::arithmetic::div_mod::lemma_div_pos_is_pos(raw * n, SCALE as int);
}

/// Tile origins do not decrease with the index.
proof fn lemma_origin_monotone(i: int, z: nat)
    ensures
        tile_origin_raw(i, z) <= tile_origin_raw(i + 1, z),
{
    lemma_pow2_pos(z);
    assert(i * SCALE <= (i + 1) * SCALE) by (nonlinear_arith);
    lemma_div_is_ordered(i * SCALE, (i + 1) * SCALE, pow2(z) as int);
}

/// Two keys are equal exactly when every generation parameter is equal: the
/// key is collision-free for distinct parameter tuples.
pub proof fn lemma_key_injective(
    size1: Point<usize>,
    max1: u64,
    t1: TileSpace,
    size2: Point<usize>,
    max2: u64,
    t2: TileSpace,
)
    ensures
        key_of(size1, max1, t1) == key_of(size2, max2, t2) <==> (size1 == size2 && max1 == max2
            && t1.index == t2.index && t1.zoom == t2.zoom),
{
}

/// Tile alignment: at zoom `z <= 32` a tile spans `2^(32-z)` raw units
/// exactly, and when that span is an exact multiple of the column count `n`,
/// the sample grid continues seamlessly across horizontally adjacent tiles:
/// tile `i+1` starts exactly one step after the last column of tile `i`, so
/// adjacent tiles sample adjacent points, none overlapping, none skipped.
pub proof fn lemma_tile_alignment(i: int, z: nat, n: int)
    requires
        z <= 32,
        n >= 1,
        (pow2((32 - z) as nat) as int) % n == 0,
    ensures
        tile_origin_raw(i, z) == i * pow2((32 - z) as nat),
        gen_step(i, z, n) == (pow2((32 - z) as nat) as int) / n,
        tile_origin_raw(i + 1, z) == tile_origin_raw(i, z) + n * gen_step(i, z, n),
{
    let d = pow2((32 - z) as nat) as int;
    let p = pow2(z) as int;
    lemma_pow2_pos(z);
    lemma_pow2_pos((32 - z) as nat);
    assert(pow2(z) * pow2((32 - z) as nat) == pow2(32)) by {
        lemma_pow2_adds(z, (32 - z) as nat);
    }
    assert(pow2(32) == SCALE) by {
        vstd::arithmetic::power2::lemma2_to64();
    }
    lemma_origin_exact(i, z, d, p);
    lemma_origin_exact(i + 1, z, d, p);
    assert((i + 1) * d == i * d + d) by (nonlinear_arith);
    lemma_fundamental_div_mod(d, n);
    assert(d == n * (d / n)) by {
        assert(d % n == 0);
    }
    assert(gen_step(i, z, n) == d / n);
}

/// At zoom `z <= 32` the origin division is exact: `origin(i) == i * 2^(32-z)`.
proof fn lemma_origin_exact(i: int, z: nat, d: int, p: int)
    requires
        d == pow2((32 - z) as nat),
        p == pow2(z),
        z <= 32,
        p * d == SCALE,
        p > 0,
        d > 0,
    ensures
        tile_origin_raw(i, z) == i * d,
{
    assert(i * SCALE == (i * d) * p) by (nonlinear_arith)
        requires
            p * d == SCALE,
    ;
    lemma_fundamental_div_mod_converse_div(i * SCALE, p, i * d, 0);
}

} // verus!
