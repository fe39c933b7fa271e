//! Tile generation, the content key, and the generate-or-reuse store.

use fractal_tiles::{
    Complex, ComplexSpace, Fix, GeneratorConfig, Point, TileSpace, TileStorage, mandel_iter,
};

const SCALE: i64 = 0x1_0000_0000;

fn config() -> GeneratorConfig {
    GeneratorConfig { size: Point { x: 4, y: 4 }, max_iter: 50 }
}

fn tile(x: i64, y: i64, zoom: usize) -> TileSpace {
    TileSpace { index: Point { x, y }, zoom }
}

#[test]
fn generate_fills_every_sample() {
    let g = config();
    let t = g.generate(&tile(0, 0, 2));
    assert_eq!(t.data.len(), 16);
}

#[test]
fn generate_is_deterministic() {
    let g = config();
    let a = g.generate(&tile(-1, 1, 3));
    let b = g.generate(&tile(-1, 1, 3));
    assert_eq!(a.data, b.data);
}

#[test]
fn generate_matches_direct_escape_counts() {
    // The tile at (0, 0), zoom 2 covers [0, 0.25) x [0, 0.25); its corner
    // sample is the origin, which is in the set.
    let g = config();
    let t = g.generate(&tile(0, 0, 2));
    let origin = Complex { re: Fix::from_int(0), im: Fix::from_int(0) };
    assert_eq!(t.data[0], mandel_iter(50, origin));
    // Sample (1, 0) sits one step right of the corner: step = (0.25/4) * SCALE.
    let step = SCALE / 16;
    let c = Complex { re: Fix::from_raw(step), im: Fix::from_int(0) };
    assert_eq!(t.data[1], mandel_iter(50, c));
    // Sample (0, 2) sits two steps up, at row-major position 2 * width.
    let c = Complex { re: Fix::from_int(0), im: Fix::from_raw(2 * step) };
    assert_eq!(t.data[8], mandel_iter(50, c));
}

#[test]
fn keys_carry_every_parameter() {
    let g = config();
    let k1 = g.hash(&tile(3, -4, 5));
    let k2 = g.hash(&tile(3, -4, 5));
    assert_eq!(k1, k2);
    assert_ne!(k1, g.hash(&tile(3, -4, 6)));
    assert_ne!(k1, g.hash(&tile(2, -4, 5)));
    assert_ne!(k1, g.hash(&tile(3, 4, 5)));
    let other = GeneratorConfig { size: Point { x: 4, y: 4 }, max_iter: 51 };
    assert_ne!(k1, other.hash(&tile(3, -4, 5)));
}

#[test]
fn sample_reads_row_major_cells() {
    let g = config();
    let t = g.generate(&tile(0, -1, 1));
    // offset (0.9, 0.1) of a 4x4 tile selects column 3, row 0
    let v = g.sample(&t, &Point { x: Fix::from_raw(9 * SCALE / 10), y: Fix::from_raw(SCALE / 10) });
    assert_eq!(v, t.data[3]);
    // offset (0.1, 0.9) selects column 0, row 3
    let v = g.sample(&t, &Point { x: Fix::from_raw(SCALE / 10), y: Fix::from_raw(9 * SCALE / 10) });
    assert_eq!(v, t.data[12]);
}

#[test]
fn store_generates_once_per_key() {
    let mut store = TileStorage::new(config());
    assert_eq!(store.len(), 0);
    let c = ComplexSpace(Complex { re: Fix::from_raw(-SCALE / 2), im: Fix::from_int(0) });
    let first = store.sample(c, 3);
    assert_eq!(store.len(), 1);
    for _ in 0..10 {
        let again = store.sample(c, 3);
        assert_eq!(again, first);
        assert_eq!(store.len(), 1);
    }
}

#[test]
fn store_keeps_tiles_of_distinct_keys_apart() {
    let mut store = TileStorage::new(config());
    let c = ComplexSpace(Complex { re: Fix::from_raw(SCALE / 4), im: Fix::from_int(0) });
    store.sample(c, 0);
    assert_eq!(store.len(), 1);
    // same point at another zoom needs another tile
    store.sample(c, 1);
    assert_eq!(store.len(), 2);
    // a point in a neighbouring tile at zoom 1
    let d = ComplexSpace(Complex { re: Fix::from_raw(3 * SCALE / 4), im: Fix::from_int(0) });
    store.sample(d, 1);
    assert_eq!(store.len(), 3);
    // all three stay cached
    store.sample(c, 0);
    store.sample(c, 1);
    store.sample(d, 1);
    assert_eq!(store.len(), 3);
}

#[test]
fn adjacent_tiles_sample_adjacent_points() {
    // At zoom 0 a tile spans SCALE raw units; with 4 columns the step is
    // exact, and the first column of tile 1 sits exactly one step after the
    // last column of tile 0: nothing overlaps, nothing is skipped.
    let left = ComplexSpace::from(&tile(0, 0, 0));
    let left_end = ComplexSpace::from(&tile(1, 0, 0));
    let right = ComplexSpace::from(&tile(1, 0, 0));
    let n = 4i64;
    let step = (left_end.0.re.raw - left.0.re.raw) / n;
    let last_left_column = left.0.re.raw + (n - 1) * step;
    let first_right_column = right.0.re.raw;
    assert_eq!(first_right_column, last_left_column + step);
}
