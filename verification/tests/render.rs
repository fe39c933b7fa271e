//! Whole-frame rendering and pixel buffers.

use fractal_tiles::{
    Complex, ComplexSpace, Fix, GeneratorConfig, Point, RGB, RenderConfig, RenderError,
    TileBuffer, TileStorage, ViewportConfig, build_palette,
};

const SCALE: i64 = 0x1_0000_0000;

fn renderer(width: usize, height: usize) -> RenderConfig {
    let generator = GeneratorConfig { size: Point { x: 8, y: 8 }, max_iter: 50 };
    RenderConfig {
        manager: TileStorage::new(generator),
        palette: vec![RGB::rgb(255, 255, 255), RGB::rgb(255, 0, 0)],
        bottom: RGB::rgb(0, 0, 0),
        size: Point { x: width, y: height },
        tile_width: Fix::from_int(3),
    }
}

fn standard_viewport() -> ViewportConfig {
    ViewportConfig {
        center: ComplexSpace(Complex { re: Fix::from_raw(-SCALE / 2), im: Fix::from_int(0) }),
        zoom: 0,
    }
}

#[test]
fn four_by_four_frame_is_fully_populated() {
    // A 4x4 viewport centered at (-0.5, 0) with width 3: sixteen pixels,
    // each an in-range color byte quadruple.
    let mut r = renderer(4, 4);
    let frame = r.render(&standard_viewport()).unwrap();
    assert_eq!(frame.len(), 16);
    for px in &frame {
        assert_eq!(px.a, 255);
    }
    let buffer = TileBuffer { w: 4, h: 4, buf: frame };
    let bytes = buffer.to_bytes();
    assert_eq!(bytes.len(), 16 * 4);
}

#[test]
fn render_is_deterministic_across_calls() {
    let mut r1 = renderer(4, 4);
    let mut r2 = renderer(4, 4);
    let a = r1.render(&standard_viewport()).unwrap();
    let b = r2.render(&standard_viewport()).unwrap();
    // the second renderer starts with an empty cache; cached and fresh
    // tiles give identical frames
    let c = r1.render(&standard_viewport()).unwrap();
    assert_eq!(a, b);
    assert_eq!(a, c);
}

#[test]
fn render_reuses_cached_tiles() {
    let mut r = renderer(6, 6);
    r.render(&standard_viewport()).unwrap();
    let tiles_after_first = r.manager.len();
    assert!(tiles_after_first > 0);
    r.render(&standard_viewport()).unwrap();
    assert_eq!(r.manager.len(), tiles_after_first);
}

#[test]
fn malformed_viewport_is_refused() {
    let mut r = renderer(4, 4);
    let too_deep = ViewportConfig { center: standard_viewport().center, zoom: 31 };
    assert_eq!(r.render(&too_deep), Err(RenderError::InvalidInput));
    let far_center = ViewportConfig {
        center: ComplexSpace(Complex { re: Fix::from_int(100), im: Fix::from_int(0) }),
        zoom: 0,
    };
    assert_eq!(r.render(&far_center), Err(RenderError::InvalidInput));
}

#[test]
fn malformed_configuration_is_refused() {
    let mut zero_size = renderer(0, 4);
    assert_eq!(zero_size.render(&standard_viewport()), Err(RenderError::InvalidInput));
    let mut no_palette = renderer(4, 4);
    no_palette.palette = vec![];
    assert_eq!(no_palette.render(&standard_viewport()), Err(RenderError::InvalidInput));
    let mut zero_width = renderer(4, 4);
    zero_width.tile_width = Fix::from_int(0);
    assert_eq!(zero_width.render(&standard_viewport()), Err(RenderError::InvalidInput));
}

#[test]
fn zoom_narrows_the_viewport() {
    // the same center at a deeper zoom samples a narrower window; both
    // render fine and fill the frame
    let mut r = renderer(4, 4);
    let vp = ViewportConfig { center: standard_viewport().center, zoom: 5 };
    let frame = r.render(&vp).unwrap();
    assert_eq!(frame.len(), 16);
}

#[test]
fn gradient_palette_renders_in_range_pixels() {
    let mut r = renderer(5, 3);
    let black = RGB::rgb(0, 0, 0);
    let blue = RGB::rgb(0, 183, 255);
    let white = RGB::rgb(255, 255, 255);
    let orange = RGB::rgb(255, 128, 0);
    r.palette = build_palette(&vec![[black, blue], [blue, white], [white, orange], [orange, black]], 4);
    assert_eq!(r.palette.len(), 16);
    let frame = r.render(&standard_viewport()).unwrap();
    assert_eq!(frame.len(), 15);
}

#[test]
fn buffer_with_size_fills_every_pixel() {
    let fill = RGB::rgb(7, 8, 9);
    let b = TileBuffer::with_size(3, 2, fill);
    assert_eq!(b.w, 3);
    assert_eq!(b.h, 2);
    assert_eq!(b.buf.len(), 6);
    for px in &b.buf {
        assert_eq!((px.r, px.g, px.b, px.a), (7, 8, 9, 255));
    }
}

#[test]
fn buffer_resize_keeps_matching_dimensions() {
    let fill = RGB::rgb(1, 2, 3);
    let b = TileBuffer::with_size(3, 2, fill);
    let same = b.resize(3, 2, RGB::rgb(9, 9, 9));
    assert_eq!(same.buf.len(), 6);
    assert_eq!((same.buf[0].r, same.buf[0].g, same.buf[0].b), (1, 2, 3));
    let grown = same.resize(4, 4, RGB::rgb(9, 9, 9));
    assert_eq!(grown.buf.len(), 16);
    assert_eq!((grown.buf[0].r, grown.buf[0].g, grown.buf[0].b), (9, 9, 9));
}

#[test]
fn bytes_follow_pixel_order() {
    let b = TileBuffer { w: 2, h: 1, buf: vec![RGB::rgb(1, 2, 3), RGB::rgb(4, 5, 6)] };
    let bytes = b.to_bytes();
    assert_eq!(bytes, vec![1, 2, 3, 255, 4, 5, 6, 255]);
}
