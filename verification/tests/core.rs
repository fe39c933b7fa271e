//! Fixed-point arithmetic, escape counts and coordinate transforms on
//! concrete values.

use fractal_tiles::{
    Complex, ComplexSpace, Fix, Point, SampleSpace, TileSpace, mandel_iter, viewport_to_tilewidth,
};

const SCALE: i64 = 0x1_0000_0000;

fn fix(units: i64, denom: i64) -> Fix {
    Fix::from_raw(units * SCALE / denom)
}

#[test]
fn fix_from_int_scales() {
    assert_eq!(Fix::from_int(3).raw, 3 * SCALE);
    assert_eq!(Fix::from_int(-2).raw, -2 * SCALE);
    assert_eq!(Fix::from_int(0).raw, 0);
}

#[test]
fn fix_times_exact_products() {
    let three = Fix::from_int(3).times(Fix::from_int(1));
    assert_eq!(three.raw, 3 * SCALE);
    let six = fix(3, 2).times(Fix::from_int(4));
    assert_eq!(six.raw, 6 * SCALE);
    let minus_six = fix(-3, 2).times(Fix::from_int(4));
    assert_eq!(minus_six.raw, -6 * SCALE);
    let quarter = fix(1, 2).times(fix(1, 2));
    assert_eq!(quarter.raw, SCALE / 4);
}

#[test]
fn origin_is_in_the_set() {
    let c = Complex { re: Fix::from_int(0), im: Fix::from_int(0) };
    assert_eq!(mandel_iter(100, c), 0);
}

#[test]
fn far_point_escapes_at_first_check() {
    // |2 + 2i|^2 = 8 > 4, so the very first check sees the orbit outside.
    let c = Complex { re: Fix::from_int(2), im: Fix::from_int(2) };
    assert_eq!(mandel_iter(100, c), 1);
}

#[test]
fn escape_counts_stay_under_budget() {
    // A point just outside the set escapes after a few iterations; the
    // count is in [1, max_iter - 1].
    let c = Complex { re: fix(1, 2), im: fix(1, 2) };
    let n = mandel_iter(100, c);
    assert!(n >= 1);
    assert!(n <= 99);
    // In-set points map to the sentinel, not to max_iter.
    let origin = Complex { re: Fix::from_int(0), im: Fix::from_int(0) };
    assert_ne!(mandel_iter(100, origin), 100);
}

#[test]
fn mandel_iter_is_deterministic() {
    let c = Complex { re: fix(-1, 4), im: fix(3, 5) };
    assert_eq!(mandel_iter(500, c), mandel_iter(500, c));
}

#[test]
fn negative_coordinate_gets_floor_tile_and_positive_offset() {
    // -0.25 at zoom 0 falls in tile -1 with offset 0.75, not tile 0 with a
    // negative offset.
    let c = ComplexSpace(Complex { re: fix(-1, 4), im: fix(1, 2) });
    let s = SampleSpace::from_complex(&c, 0);
    assert_eq!(s.tile.index.x, -1);
    assert_eq!(s.coord.x.raw, 3 * SCALE / 4);
    assert_eq!(s.tile.index.y, 0);
    assert_eq!(s.coord.y.raw, SCALE / 2);
    assert_eq!(s.tile.zoom, 0);
}

#[test]
fn from_complex_splits_scaled_coordinate() {
    let c = ComplexSpace(Complex { re: fix(-3, 8), im: fix(5, 8) });
    for zoom in [0usize, 1, 2, 3, 5, 8] {
        let s = SampleSpace::from_complex(&c, zoom);
        let p = 1i128 << zoom;
        // Round trip: tile index and offset together recover the scaled
        // coordinate exactly.
        assert_eq!(
            (s.tile.index.x as i128) * (SCALE as i128) + (s.coord.x.raw as i128),
            (c.0.re.raw as i128) * p
        );
        assert_eq!(
            (s.tile.index.y as i128) * (SCALE as i128) + (s.coord.y.raw as i128),
            (c.0.im.raw as i128) * p
        );
        assert!(s.coord.x.raw >= 0 && s.coord.x.raw < SCALE);
        assert!(s.coord.y.raw >= 0 && s.coord.y.raw < SCALE);
    }
}

#[test]
fn to_complex_inverts_from_complex() {
    let c = ComplexSpace(Complex { re: fix(-7, 16), im: fix(11, 32) });
    for zoom in [0usize, 1, 4, 9] {
        let s = SampleSpace::from_complex(&c, zoom);
        let back = s.to_complex();
        assert_eq!(back.0.re.raw, c.0.re.raw);
        assert_eq!(back.0.im.raw, c.0.im.raw);
    }
}

#[test]
fn tilewidth_halves_with_each_zoom_level() {
    let w = Fix::from_int(3);
    assert_eq!(viewport_to_tilewidth(w, 0).raw, 3 * SCALE);
    assert_eq!(viewport_to_tilewidth(w, 1).raw, 3 * SCALE / 2);
    assert_eq!(viewport_to_tilewidth(w, 5).raw, 3 * SCALE / 32);
}

#[test]
fn round_trip_recovers_the_point() {
    let c = ComplexSpace(Complex { re: fix(-3, 8), im: fix(5, 8) });
    let zoom = 4usize;
    let s = SampleSpace::from_complex(&c, zoom);
    let p = 1i128 << zoom;
    let re = ((s.tile.index.x as i128) * (SCALE as i128) + (s.coord.x.raw as i128)) / p;
    let im = ((s.tile.index.y as i128) * (SCALE as i128) + (s.coord.y.raw as i128)) / p;
    assert_eq!(re, c.0.re.raw as i128);
    assert_eq!(im, c.0.im.raw as i128);
}

#[test]
fn tile_corner_in_true_coordinates() {
    let t = TileSpace { index: Point { x: -3, y: 5 }, zoom: 2 };
    let corner = ComplexSpace::from(&t);
    assert_eq!(corner.0.re.raw, -3 * SCALE / 4);
    assert_eq!(corner.0.im.raw, 5 * SCALE / 4);
}
