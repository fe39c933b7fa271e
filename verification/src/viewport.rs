//! Pixel buffers that hold a rendered frame.

use vstd::prelude::*;
use crate::color::RGB;

verus! {

/// A `w` by `h` pixel buffer, row-major.
pub struct TileBuffer<T> {
    pub w: usize,
    pub h: usize,
    pub buf: Vec<T>,
}

impl<T: Copy> TileBuffer<T> {
    /// The buffer holds exactly one element per pixel.
    pub open spec fn wf(self) -> bool {
        self.buf@.len() == self.w * self.h
    }

    /// A buffer of the given dimensions with every pixel set to `fill`.
    pub fn with_size(width: usize, height: usize, fill: T) -> (t: Self)
        requires
            width * height <= usize::MAX,
        ensures
            t.wf(),
            t.w == width,
            t.h == height,
            forall|i: int| 0 <= i < t.buf@.len() ==> t.buf@[i] == fill,
    {
        let n = width * height;
        let mut buf: Vec<T> = Vec::new();
        let mut i: usize = 0;
        while i < n
            invariant
                i <= n,
                buf@.len() == i,
                forall|j: int| 0 <= j < i ==> buf@[j] == fill,
            decreases n - i,
        {
            buf.push(fill);
            i = i + 1;
        }
        TileBuffer { w: width, h: height, buf }
    }

    /// The same buffer if the dimensions already match, else a fresh one of
    /// the new dimensions filled with `fill`.
    pub fn resize(self, width: usize, height: usize, fill: T) -> (t: TileBuffer<T>)
        requires
            self.wf(),
            width * height <= usize::MAX,
        ensures
            t.wf(),
            t.w == width,
            t.h == height,
            self.w == width && self.h == height ==> t.buf@ == self.buf@,
    {
        if self.w == width && self.h == height {
            self
        } else {
            Self::with_size(width, height, fill)
        }
    }
}

impl TileBuffer<RGB> {
    /// The frame as raw bytes, four per pixel in `r, g, b, a` order, the
    /// layout a canvas or image encoder consumes directly.
    pub fn to_bytes(&self) -> (bytes: Vec<u8>)
        requires
            self.buf@.len() * 4 <= usize::MAX,
        ensures
            bytes@.len() == self.buf@.len() * 4,
            forall|i: int|
                0 <= i < self.buf@.len() ==> {
                    &&& bytes@[4 * i] == #[trigger] self.buf@[i].r
                    &&& bytes@[4 * i + 1] == self.buf@[i].g
                    &&& bytes@[4 * i + 2] == self.buf@[i].b
                    &&& bytes@[4 * i + 3] == self.buf@[i].a
                },
    {
        let n = self.buf.len();
        let mut bytes: Vec<u8> = Vec::new();
        let mut i: usize = 0;
        while i < n
            invariant
                i <= n == self.buf@.len(),
                self.buf@.len() * 4 <= usize::MAX,
                bytes@.len() == i * 4,
                forall|j: int|
                    0 <= j < i ==> {
                        &&& bytes@[4 * j] == #[trigger] self.buf@[j].r
                        &&& bytes@[4 * j + 1] == self.buf@[j].g
                        &&& bytes@[4 * j + 2] == self.buf@[j].b
                        &&& bytes@[4 * j + 3] == self.buf@[j].a
                    },
            decreases n - i,
        {
            proof {
                vstd::arithmetic::mul::lemma_mul_inequality(i as int + 1, n as int, 4);
                assert((i + 1) * 4 == i * 4 + 4 && (n as int) * 4 == 4 * (n as int))
                    by (nonlinear_arith);
            }
            let px = self.buf[i];
            bytes.push(px.r);
            bytes.push(px.g);
            bytes.push(px.b);
            bytes.push(px.a);
            i = i + 1;
        }
        proof {
            assert((n as int) * 4 == 4 * (n as int)) by (nonlinear_arith);
        }
        bytes
    }
}

} // verus!
