//! The per-frame renderer: walks every output pixel, maps it into the tile
//! grid, samples the cached escape count and applies the palette.

use vstd::prelude::*;
use vstd::arithmetic::power2::{pow2, lemma_pow2_pos, lemma_pow2_strictly_increases, lemma2_to64};
use vstd::arithmetic::div_mod::{
    lemma_fundamental_div_mod, lemma_div_pos_is_pos, lemma_div_is_ordered,
    lemma_mul_hoist_inequality,
};
use vstd::arithmetic::mul::lemma_mul_inequality;
use crate::fixed::{Fix, SCALE, abs1, pow2_exec};
use crate::complex::Complex;
use crate::space::{Point, ComplexSpace};
use crate::color::RGB;
use crate::cache::{TileStorage, sample_spec, sample_args_ok, coord_in_range};

verus! {

/// The visible window: a center in the complex plane and a whole-number
/// zoom level; the window's width is the configured tile width divided by
/// `2^zoom`.
pub struct ViewportConfig {
    pub center: ComplexSpace,
    pub zoom: usize,
}

/// A renderer: the tile store it draws from, the palette, the fixed color
/// for in-set pixels, the output resolution, and the viewport width at
/// zoom level zero.
pub struct RenderConfig {
    pub manager: TileStorage,
    pub palette: Vec<RGB>,
    pub bottom: RGB,
    pub size: Point<usize>,
    pub tile_width: Fix,
}

/// Why a render request was refused.
#[derive(Clone, Copy, PartialEq, Eq, Structural, Debug)]
pub enum RenderError {
    /// The viewport or configuration breaks an input invariant: a
    /// non-positive width or output size, an empty palette, or a magnitude
    /// past what the fixed-point plane can address.
    InvalidInput,
}

/// Raw width of the viewport in complex-plane units: `tile_width / 2^zoom`.
pub open spec fn complex_width_raw(tile_width: Fix, zoom: usize) -> int {
    (tile_width.raw as int) / (pow2(zoom as nat) as int)
}

/// Width, in complex-plane units, of one tile's worth of detail at the
/// current zoom: `viewport_width / 2^zoom_level`.
pub fn viewport_to_tilewidth(viewport_width: Fix, zoom_level: usize) -> (r: Fix)
    requires
        zoom_level <= 63,
        viewport_width.raw >= 0,
    ensures
        r.raw == complex_width_raw(viewport_width, zoom_level),
{
    let p = pow2_exec(zoom_level);
    let q = (viewport_width.raw as u64) / p;
    proof {
        vstd::arithmetic::div_mod::lemma_div_nonincreasing(
            viewport_width.raw as int,
            p as int,
        );
        vstd::arithmetic::div_mod::lemma_div_pos_is_pos(viewport_width.raw as int, p as int);
    }
    Fix { raw: q as i64 }
}

/// Raw distance between adjacent output pixels.
pub open spec fn render_step(tile_width: Fix, zoom: usize, size: Point<usize>) -> int {
    complex_width_raw(tile_width, zoom) / (size.x as int)
}

/// Raw real coordinate of the left edge.
pub open spec fn render_start_re(
    center: ComplexSpace,
    tile_width: Fix,
    zoom: usize,
) -> int {
    center.0.re.raw - complex_width_raw(tile_width, zoom) / 2
}

/// Raw imaginary coordinate of the top edge; the height is the width
/// corrected by the output's aspect ratio.
pub open spec fn render_start_im(
    center: ComplexSpace,
    tile_width: Fix,
    zoom: usize,
    size: Point<usize>,
) -> int {
    center.0.im.raw - ((size.y * complex_width_raw(tile_width, zoom)) / (size.x as int)) / 2
}

/// The complex point that output pixel `(px, py)` samples.
pub open spec fn pixel_point(
    center: ComplexSpace,
    tile_width: Fix,
    zoom: usize,
    size: Point<usize>,
    px: int,
    py: int,
) -> ComplexSpace {
    ComplexSpace(
        Complex {
            re: Fix {
                raw: (render_start_re(center, tile_width, zoom) + px * render_step(
                    tile_width,
                    zoom,
                    size,
                )) as i64,
            },
            im: Fix {
                raw: (render_start_im(center, tile_width, zoom, size) + py * render_step(
                    tile_width,
                    zoom,
                    size,
                )) as i64,
            },
        },
    )
}

/// The color written to output pixel `(px, py)`: the sampled escape count
/// sent through the palette, with the in-set sentinel taking the fixed
/// bottom color.
pub open spec fn pixel_color(
    g: crate::tile::GeneratorConfig,
    palette: Seq<RGB>,
    bottom: RGB,
    size: Point<usize>,
    tile_width: Fix,
    viewport: ViewportConfig,
    px: int,
    py: int,
) -> RGB {
    let count = sample_spec(
        g,
        pixel_point(viewport.center, tile_width, viewport.zoom, size, px, py),
        viewport.zoom,
    );
    if count == 0 {
        bottom
    } else {
        palette[(count as int) % (palette.len() as int)]
    }
}

impl RenderConfig {
    /// The inputs a render call accepts: positive output size and width,
    /// a palette to index, and center, width and zoom within the range the
    /// fixed-point plane addresses.
    pub open spec fn render_args_ok(self, viewport: ViewportConfig) -> bool {
        &&& 1 <= self.size.x <= 16384
        &&& 1 <= self.size.y <= 16384
        &&& self.palette@.len() >= 1
        &&& 1 <= self.tile_width.raw <= 0x8_0000_0000
        &&& viewport.zoom <= 30
        &&& abs1(viewport.center.0.re.raw as int) <= 0x8_0000_0000
        &&& abs1(viewport.center.0.im.raw as int) <= 0x8_0000_0000
    }

    /// Checks `render_args_ok` at run time.
    fn validate(&self, viewport: &ViewportConfig) -> (ok: bool)
        ensures
            ok == self.render_args_ok(*viewport),
    {
        1 <= self.size.x && self.size.x <= 16384 && 1 <= self.size.y && self.size.y <= 16384
            && self.palette.len() >= 1 && 1 <= self.tile_width.raw && self.tile_width.raw
            <= 0x8_0000_0000 && viewport.zoom <= 30 && -0x8_0000_0000 <= viewport.center.0.re.raw
            && viewport.center.0.re.raw <= 0x8_0000_0000 && -0x8_0000_0000
            <= viewport.center.0.im.raw && viewport.center.0.im.raw <= 0x8_0000_0000
    }

    /// Renders one frame: a row-major buffer with one color per output
    /// pixel, each pixel's color fixed by the configuration and the
    /// viewport alone. A malformed viewport or configuration is refused,
    /// and exactly then.
    pub fn render(&mut self, viewport: &ViewportConfig) -> (r: Result<Vec<RGB>, RenderError>)
        requires
            old(self).manager.wf(),
        ensures
            final(self).manager.wf(),
            final(self).manager.generator == old(self).manager.generator,
            final(self).palette@ == old(self).palette@,
            final(self).bottom == old(self).bottom,
            final(self).size == old(self).size,
            final(self).tile_width == old(self).tile_width,
            r is Ok <==> old(self).render_args_ok(*viewport),
            match r {
                Ok(data) => {
                    &&& data@.len() == old(self).size.x * old(self).size.y
                    &&& forall|px: int, py: int|
                        0 <= px < old(self).size.x && 0 <= py < old(self).size.y ==> data@[py
                            * old(self).size.x + px] == #[trigger] pixel_color(
                            old(self).manager.generator,
                            old(self).palette@,
                            old(self).bottom,
                            old(self).size,
                            old(self).tile_width,
                            *viewport,
                            px,
                            py,
                        )
                },
                Err(e) => {
                    &&& e == RenderError::InvalidInput
                    &&& final(self).manager.storage@ == old(self).manager.storage@
                },
            },
    {
        if !self.validate(viewport) {
            return Err(RenderError::InvalidInput);
        }
        let w = self.size.x;
        let h = self.size.y;
        let zoom = viewport.zoom;
        let p = pow2_exec(zoom);
        proof {
            lemma_pow2_pos(zoom as nat);
            if zoom < 32 {
                lemma_pow2_strictly_increases(zoom as nat, 32);
            }
            lemma2_to64();
        }
        let cw = (self.tile_width.raw as u64) / p;
        proof {
            lemma_div_pos_is_pos(self.tile_width.raw as int, p as int);
            lemma_div_is_ordered(self.tile_width.raw as int, 0x8_0000_0000, p as int);
            vstd::arithmetic::div_mod::lemma_div_is_ordered_by_denominator(
                0x8_0000_0000,
                1,
                p as int,
            );
            assert(cw == complex_width_raw(self.tile_width, zoom));
            assert(cw <= 0x8_0000_0000);
        }
        let step = cw / (w as u64);
        proof {
            assert((h as int) * (cw as int) <= 0x2_0000_0000_0000int) by (nonlinear_arith)
                requires
                    0 <= h <= 16384,
                    0 <= cw <= 0x8_0000_0000,
            ;
        }
        let ch = ((h as u64) * cw) / (w as u64);
        proof {
            lemma_div_pos_is_pos((h as int) * (cw as int), w as int);
            lemma_div_is_ordered((h as int) * (cw as int), 0x2_0000_0000_0000, w as int);
            vstd::arithmetic::div_mod::lemma_div_is_ordered_by_denominator(
                0x2_0000_0000_0000,
                1,
                w as int,
            );
            lemma_div_pos_is_pos(cw as int, w as int);
            lemma_div_is_ordered(cw as int, 0x8_0000_0000, w as int);
            vstd::arithmetic::div_mod::lemma_div_is_ordered_by_denominator(
                0x8_0000_0000,
                1,
                w as int,
            );
            assert(step <= 0x8_0000_0000 && ch <= 0x2_0000_0000_0000);
            // the whole row of steps stays inside the viewport width
            lemma_fundamental_div_mod(cw as int, w as int);
            assert((w as int) * (step as int) <= cw) by (nonlinear_arith)
                requires
                    cw == (w as int) * (step as int) + (cw as int) % (w as int),
                    (cw as int) % (w as int) >= 0,
            ;
            // and the whole column stays inside the viewport height
            lemma_mul_hoist_inequality(h as int, cw as int, w as int);
            assert((h as int) * (step as int) <= (h as int) * ((cw as int) / (w as int))) by {
                lemma_mul_inequality(step as int, (cw as int) / (w as int), h as int);
                assert((step as int) * (h as int) == (h as int) * (step as int) && ((cw as int)
                    / (w as int)) * (h as int) == (h as int) * ((cw as int) / (w as int)))
                    by (nonlinear_arith);
            }
            assert((h as int) * (step as int) <= ch);
        }
        let start_re = self.center_start(viewport.center.0.re.raw, cw / 2);
        let start_im = self.center_start(viewport.center.0.im.raw, ch / 2);
        proof {
            assert(start_re == render_start_re(viewport.center, self.tile_width, zoom));
            assert(start_im == render_start_im(viewport.center, self.tile_width, zoom, self.size));
        }
        let mut data: Vec<RGB> = Vec::new();
        let ghost g0 = self.manager.generator;
        let ghost palette0 = self.palette@;
        let ghost bottom0 = self.bottom;
        let ghost size0 = self.size;
        let ghost tw0 = self.tile_width;
        let ghost vp0 = *viewport;
        let mut py: usize = 0;
        while py < h
            invariant
                py <= h,
                self.manager.wf(),
                self.manager.generator == g0,
                self.palette@ == palette0,
                self.bottom == bottom0,
                self.size == size0,
                self.tile_width == tw0,
                w == size0.x,
                h == size0.y,
                1 <= w <= 16384,
                1 <= h <= 16384,
                palette0.len() >= 1,
                1 <= tw0.raw <= 0x8_0000_0000,
                zoom == vp0.zoom <= 30,
                vp0.center == viewport.center,
                abs1(vp0.center.0.re.raw as int) <= 0x8_0000_0000,
                abs1(vp0.center.0.im.raw as int) <= 0x8_0000_0000,
                cw == complex_width_raw(tw0, zoom),
                cw <= 0x8_0000_0000,
                step == render_step(tw0, zoom, size0),
                step <= 0x8_0000_0000,
                ch == ((h as int) * (cw as int)) / (w as int),
                ch <= 0x2_0000_0000_0000,
                (w as int) * (step as int) <= cw,
                (h as int) * (step as int) <= ch,
                start_re == render_start_re(vp0.center, tw0, zoom),
                start_im == render_start_im(vp0.center, tw0, zoom, size0),
                abs1(start_re as int) <= 0xC_0000_0000,
                abs1(start_im as int) <= 0x1_0008_0000_0000,
                data@.len() == py * w,
                forall|px2: int, py2: int|
                    0 <= px2 < w && 0 <= py2 < py ==> data@[py2 * w + px2] == #[trigger] pixel_color(
                        g0,
                        palette0,
                        bottom0,
                        size0,
                        tw0,
                        vp0,
                        px2,
                        py2,
                    ),
            decreases h - py,
        {
            proof {
                lemma_mul_inequality(py as int + 1, h as int, w as int);
                assert((py + 1) * w == py * w + w && (h as int) * (w as int) == (w as int) * (
                h as int)) by (nonlinear_arith);
                lemma_mul_inequality(py as int, h as int, step as int);
                assert((py as int) * (step as int) >= 0) by (nonlinear_arith)
                    requires
                        py >= 0,
                        step >= 0,
                ;
            }
            let c_im = start_im + (py as i64) * (step as i64);
            let mut px: usize = 0;
            while px < w
                invariant
                    px <= w,
                    py < h,
                    self.manager.wf(),
                    self.manager.generator == g0,
                    self.palette@ == palette0,
                    self.bottom == bottom0,
                    self.size == size0,
                    self.tile_width == tw0,
                    w == size0.x,
                    h == size0.y,
                    1 <= w <= 16384,
                    1 <= h <= 16384,
                    palette0.len() >= 1,
                    1 <= tw0.raw <= 0x8_0000_0000,
                    zoom == vp0.zoom <= 30,
                    vp0.center == viewport.center,
                    cw == complex_width_raw(tw0, zoom),
                    cw <= 0x8_0000_0000,
                    step == render_step(tw0, zoom, size0),
                    step <= 0x8_0000_0000,
                    (w as int) * (step as int) <= cw,
                    start_re == render_start_re(vp0.center, tw0, zoom),
                    abs1(start_re as int) <= 0xC_0000_0000,
                    abs1(start_im as int) <= 0x1_0008_0000_0000,
                    c_im == render_start_im(vp0.center, tw0, zoom, size0) + (py as int) * (
                    step as int),
                    abs1(c_im as int) <= 0x3_0008_0000_0000,
                    data@.len() == py * w + px,
                    py * w + w <= w * h,
                    forall|px2: int, py2: int|
                        0 <= px2 < w && 0 <= py2 < py ==> data@[py2 * w + px2]
                            == #[trigger] pixel_color(g0, palette0, bottom0, size0, tw0, vp0, px2, py2),
                    forall|px2: int|
                        0 <= px2 < px ==> data@[py * w + px2] == #[trigger] pixel_color(
                            g0,
                            palette0,
                            bottom0,
                            size0,
                            tw0,
                            vp0,
                            px2,
                            py as int,
                        ),
                decreases w - px,
            {
                proof {
                    lemma_mul_inequality(px as int, w as int, step as int);
                    assert((px as int) * (step as int) >= 0) by (nonlinear_arith)
                        requires
                            px >= 0,
                            step >= 0,
                    ;
                }
                let c_re = start_re + (px as i64) * (step as i64);
                let location = ComplexSpace(
                    Complex { re: Fix { raw: c_re }, im: Fix { raw: c_im } },
                );
                proof {
                    assert(location == pixel_point(vp0.center, tw0, zoom, size0, px as int, py as int));
                    assert(coord_in_range(c_re as int) && coord_in_range(c_im as int));
                }
                let count = self.manager.sample(location, zoom);
                let color = if count == 0 {
                    self.bottom
                } else {
                    let idx = count % (self.palette.len() as u64);
                    self.palette[idx as usize]
                };
                data.push(color);
                proof {
                    assert(data@[py * w + px] == pixel_color(
                        g0,
                        palette0,
                        bottom0,
                        size0,
                        tw0,
                        vp0,
                        px as int,
                        py as int,
                    ));
                    assert forall|px2: int, py2: int|
                        0 <= px2 < w && 0 <= py2 < py implies data@[py2 * w + px2]
                        == #[trigger] pixel_color(g0, palette0, bottom0, size0, tw0, vp0, px2, py2) by {
                        lemma_mul_inequality(py2 + 1, py as int, w as int);
                        assert((py2 + 1) * w == py2 * w + w) by (nonlinear_arith);
                    }
                }
                px = px + 1;
            }
            py = py + 1;
        }
        proof {
            assert((h as int) * (w as int) == (w as int) * (h as int)) by (nonlinear_arith);
        }
        Ok(data)
    }

    /// One start edge of the viewport: the center minus half the extent.
    fn center_start(&self, center: i64, half: u64) -> (r: i64)
        requires
            abs1(center as int) <= 0x8_0000_0000,
            half <= 0x1_0000_0000_0000,
        ensures
            r == center - half,
    {
        center - (half as i64)
    }
}

} // verus!
