//! Colors, palette construction, and the mapping from escape counts to
//! colors.

use vstd::prelude::*;
use vstd::arithmetic::div_mod::{lemma_div_is_ordered, lemma_div_multiples_vanish};
use vstd::arithmetic::mul::lemma_mul_inequality;

verus! {

/// An 8-bit color with alpha, in the byte order a canvas buffer expects.
#[derive(Clone, Copy, PartialEq, Eq, Structural, Debug)]
pub struct RGB {
    pub r: u8,
    pub g: u8,
    pub b: u8,
    pub a: u8,
}

/// Linear interpolation of one channel: `from + (to - from) * progress / 255`
/// with the division rounded toward zero, for `progress` in `[0, 255]`.
pub open spec fn tween_one_spec(progress: int, from: int, to: int) -> int {
    if to >= from {
        from + ((to - from) * progress) / 255
    } else {
        from - ((from - to) * progress) / 255
    }
}

/// The fixed "bottom" color that the in-set sentinel maps to: opaque black.
pub open spec fn bottom_color() -> RGB {
    RGB { r: 0, g: 0, b: 0, a: 255 }
}

/// The color an escape count selects: the bottom color for the in-set
/// sentinel `0`, else the palette entry at `count % palette_len`.
pub open spec fn color_of_count(count: u64, palette: Seq<RGB>) -> RGB
    recommends
        palette.len() >= 1,
{
    if count == 0 {
        bottom_color()
    } else {
        palette[(count as int) % (palette.len() as int)]
    }
}

/// Interpolates one color channel `progress/255` of the way from `from`
/// to `to`.
pub fn tween_one(progress: i32, from: u8, to: u8) -> (r: u8)
    requires
        0 <= progress <= 255,
    ensures
        r == tween_one_spec(progress as int, from as int, to as int),
        if to >= from {
            from <= r <= to
        } else {
            to <= r <= from
        },
{
    proof {
        lemma_tween_channel_bounds(progress as int, from as int, to as int);
    }
    if to >= from {
        let d: u32 = (((to - from) as u32) * (progress as u32)) / 255;
        from + (d as u8)
    } else {
        let d: u32 = (((from - to) as u32) * (progress as u32)) / 255;
        from - (d as u8)
    }
}

/// The interpolated channel stays between its endpoints.
proof fn lemma_tween_channel_bounds(progress: int, from: int, to: int)
    requires
        0 <= progress <= 255,
        0 <= from <= 255,
        0 <= to <= 255,
    ensures
        to >= from ==> 0 <= ((to - from) * progress) / 255 <= to - from,
        to < from ==> 0 <= ((from - to) * progress) / 255 <= from - to,
{
    let d = if to >= from {
        to - from
    } else {
        from - to
    };
    lemma_mul_inequality(progress, 255, d);
    assert(d * progress == progress * d) by (nonlinear_arith);
    assert(d * 255 == 255 * d) by (nonlinear_arith);
    lemma_div_is_ordered(d * progress, d * 255, 255);
    lemma_div_multiples_vanish(d, 255);
    assert((d * progress) / 255 >= 0) by {
        vstd::arithmetic::div_mod::lemma_div_pos_is_pos(d * progress, 255);
        assert(d * progress >= 0) by (nonlinear_arith)
            requires
                d >= 0,
                progress >= 0,
        ;
    }
}

impl RGB {
    /// An opaque color from its three channels.
    pub fn rgb(r: u8, g: u8, b: u8) -> (c: Self)
        ensures
            c.r == r,
            c.g == g,
            c.b == b,
            c.a == 255,
    {
        Self { r, g, b, a: 255 }
    }

    /// The color `progress/255` of the way from `self` to `to`, channel by
    /// channel; alpha stays opaque.
    pub fn tween(&self, progress: i32, to: &RGB) -> (c: RGB)
        requires
            0 <= progress <= 255,
        ensures
            c == tween_spec(*self, progress as int, *to),
    {
        RGB::rgb(
            tween_one(progress, self.r, to.r),
            tween_one(progress, self.g, to.g),
            tween_one(progress, self.b, to.b),
        )
    }
}

/// Channel-wise interpolation of a whole color.
pub open spec fn tween_spec(from: RGB, progress: int, to: RGB) -> RGB {
    RGB {
        r: tween_one_spec(progress, from.r as int, to.r as int) as u8,
        g: tween_one_spec(progress, from.g as int, to.g as int) as u8,
        b: tween_one_spec(progress, from.b as int, to.b as int) as u8,
        a: 255,
    }
}

/// The palette entry a gradient contributes at one step: the interpolation
/// progress is `step * 255 / steps_per_grad`.
pub open spec fn palette_entry(from: RGB, to: RGB, step: int, steps_per_grad: int) -> RGB
    recommends
        steps_per_grad >= 1,
{
    tween_spec(from, (step * 255) / steps_per_grad, to)
}

/// Builds a palette from a list of gradients: each gradient `[from, to]`
/// contributes `steps_per_grad` entries interpolated from `from` toward
/// `to`, in order.
pub fn build_palette(gradients: &Vec<[RGB; 2]>, steps_per_grad: usize) -> (palette: Vec<RGB>)
    requires
        steps_per_grad >= 1,
        steps_per_grad * 255 <= usize::MAX,
        gradients@.len() * steps_per_grad <= usize::MAX,
    ensures
        palette@.len() == gradients@.len() * steps_per_grad,
        forall|i: int, step: int|
            0 <= i < gradients@.len() && 0 <= step < steps_per_grad ==> palette@[i
                * steps_per_grad + step] == #[trigger] palette_entry(
                gradients@[i][0],
                gradients@[i][1],
                step,
                steps_per_grad as int,
            ),
{
    let num_gradients = gradients.len();
    let mut palette: Vec<RGB> = Vec::new();
    let mut i: usize = 0;
    while i < num_gradients
        invariant
            i <= num_gradients == gradients@.len(),
            steps_per_grad >= 1,
            steps_per_grad * 255 <= usize::MAX,
            gradients@.len() * steps_per_grad <= usize::MAX,
            palette@.len() == i * steps_per_grad,
            forall|i2: int, step: int|
                0 <= i2 < i && 0 <= step < steps_per_grad ==> palette@[i2 * steps_per_grad + step]
                    == #[trigger] palette_entry(
                    gradients@[i2][0],
                    gradients@[i2][1],
                    step,
                    steps_per_grad as int,
                ),
        decreases num_gradients - i,
    {
        let color = gradients[i][0];
        let next_color = gradients[i][1];
        proof {
            lemma_mul_inequality(i as int + 1, gradients@.len() as int, steps_per_grad as int);
            assert((i + 1) * steps_per_grad == i * steps_per_grad + steps_per_grad)
                by (nonlinear_arith);
        }
        let mut step: usize = 0;
        while step < steps_per_grad
            invariant
                step <= steps_per_grad,
                i < num_gradients == gradients@.len(),
                steps_per_grad >= 1,
                steps_per_grad * 255 <= usize::MAX,
                gradients@.len() * steps_per_grad <= usize::MAX,
                i * steps_per_grad + steps_per_grad <= gradients@.len() * steps_per_grad,
                color == gradients@[i as int][0],
                next_color == gradients@[i as int][1],
                palette@.len() == i * steps_per_grad + step,
                forall|i2: int, step2: int|
                    0 <= i2 < i && 0 <= step2 < steps_per_grad ==> palette@[i2 * steps_per_grad
                        + step2] == #[trigger] palette_entry(
                        gradients@[i2][0],
                        gradients@[i2][1],
                        step2,
                        steps_per_grad as int,
                    ),
                forall|step2: int|
                    0 <= step2 < step ==> palette@[i as int * steps_per_grad + step2]
                        == #[trigger] palette_entry(
                        gradients@[i as int][0],
                        gradients@[i as int][1],
                        step2,
                        steps_per_grad as int,
                    ),
            decreases steps_per_grad - step,
        {
            proof {
                lemma_mul_inequality(step as int, steps_per_grad as int, 255);
                assert(step * 255 == 255 * step && steps_per_grad * 255 == 255 * steps_per_grad)
                    by (nonlinear_arith);
                lemma_div_is_ordered(step * 255, steps_per_grad * 255, steps_per_grad as int);
                lemma_div_multiples_vanish(255, steps_per_grad as int);
                assert((step * 255) / (steps_per_grad as int) >= 0) by {
                    vstd::arithmetic::div_mod::lemma_div_pos_is_pos(
                        step * 255,
                        steps_per_grad as int,
                    );
                }
            }
            let progress = ((step * 255) / steps_per_grad) as i32;
            palette.push(color.tween(progress, &next_color));
            proof {
                assert forall|i2: int, step2: int|
                    0 <= i2 < i && 0 <= step2 < steps_per_grad implies palette@[i2 * steps_per_grad
                    + step2] == #[trigger] palette_entry(
                    gradients@[i2][0],
                    gradients@[i2][1],
                    step2,
                    steps_per_grad as int,
                ) by {
                    lemma_mul_inequality(i2 + 1, i as int, steps_per_grad as int);
                    assert((i2 + 1) * steps_per_grad == i2 * steps_per_grad + steps_per_grad)
                        by (nonlinear_arith);
                }
            }
            step = step + 1;
        }
        i = i + 1;
    }
    palette
}

/// Maps an escape count to a color: the in-set sentinel `0` always takes the
/// fixed bottom color and never selects a palette entry; any other count
/// selects the entry at `count % palette.len()`.
pub fn mandel_color(i: u64, palette: &Vec<RGB>) -> (c: RGB)
    requires
        palette@.len() >= 1,
    ensures
        c == color_of_count(i, palette@),
        i == 0 ==> c == bottom_color(),
{
    if i == 0 {
        RGB::rgb(0, 0, 0)
    } else {
        let idx = i % (palette.len() as u64);
        palette[idx as usize]
    }
}

} // verus!
