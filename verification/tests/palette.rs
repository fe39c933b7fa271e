//! Palette construction and the count-to-color mapping.

use fractal_tiles::{RGB, build_palette, mandel_color, tween_one};

#[test]
fn tween_one_endpoints_and_midpoint() {
    assert_eq!(tween_one(0, 10, 200), 10);
    assert_eq!(tween_one(255, 10, 200), 200);
    assert_eq!(tween_one(128, 0, 255), 128);
    assert_eq!(tween_one(128, 255, 0), 127);
    assert_eq!(tween_one(100, 7, 7), 7);
}

#[test]
fn tween_blends_every_channel() {
    let a = RGB::rgb(0, 100, 255);
    let b = RGB::rgb(255, 100, 0);
    let mid = a.tween(128, &b);
    assert_eq!(mid.r, 128);
    assert_eq!(mid.g, 100);
    assert_eq!(mid.b, 127);
    assert_eq!(mid.a, 255);
}

#[test]
fn build_palette_interpolates_each_gradient() {
    let black = RGB::rgb(0, 0, 0);
    let white = RGB::rgb(255, 255, 255);
    let palette = build_palette(&vec![[black, white]], 4);
    assert_eq!(palette.len(), 4);
    // progress values are step * 255 / 4: 0, 63, 127, 191
    let expected = [0u8, 63, 127, 191];
    for (entry, want) in palette.iter().zip(expected.iter()) {
        assert_eq!(entry.r, *want);
        assert_eq!(entry.g, *want);
        assert_eq!(entry.b, *want);
        assert_eq!(entry.a, 255);
    }
}

#[test]
fn build_palette_concatenates_gradients() {
    let black = RGB::rgb(0, 0, 0);
    let blue = RGB::rgb(0, 183, 255);
    let white = RGB::rgb(255, 255, 255);
    let palette = build_palette(&vec![[black, blue], [blue, white]], 4);
    assert_eq!(palette.len(), 8);
    assert_eq!(palette[0].b, 0);
    assert_eq!(palette[4].b, 255);
    assert_eq!(palette[4].g, 183);
}

#[test]
fn sentinel_takes_bottom_color_not_a_palette_entry() {
    // Even a palette whose entries differ everywhere from black never
    // colors the sentinel: count 0 is the fixed bottom color.
    let palette = vec![RGB::rgb(9, 9, 9), RGB::rgb(200, 10, 10)];
    let c = mandel_color(0, &palette);
    assert_eq!((c.r, c.g, c.b, c.a), (0, 0, 0, 255));
}

#[test]
fn sentinel_boundary_holds_for_palette_of_length_one() {
    let palette = vec![RGB::rgb(250, 1, 2)];
    let c0 = mandel_color(0, &palette);
    assert_eq!((c0.r, c0.g, c0.b, c0.a), (0, 0, 0, 255));
    // every nonzero count selects the single entry
    for i in [1u64, 2, 3, 1000] {
        let c = mandel_color(i, &palette);
        assert_eq!((c.r, c.g, c.b), (250, 1, 2));
    }
}

#[test]
fn nonzero_counts_select_entries_modulo_length() {
    let palette = vec![RGB::rgb(1, 0, 0), RGB::rgb(2, 0, 0), RGB::rgb(3, 0, 0)];
    assert_eq!(mandel_color(1, &palette).r, 2);
    assert_eq!(mandel_color(2, &palette).r, 3);
    assert_eq!(mandel_color(3, &palette).r, 1);
    assert_eq!(mandel_color(4, &palette).r, 2);
}
