use vstd::prelude::*;

verus! {

/// A solid color, one byte per channel, stored in R, G, B, A order.
#[derive(Clone, Copy, PartialEq, Eq, Structural, Debug)]
pub struct Rgba {
    pub r: u8,
    pub g: u8,
    pub b: u8,
    pub a: u8,
}

/// The color every byte of a cleared frame holds: fully transparent black.
pub open spec fn clear_color() -> Rgba {
    Rgba { r: 0, g: 0, b: 0, a: 0 }
}

/// A flat RGBA pixel buffer of fixed dimensions. Each pixel `(x, y)` with
/// `0 <= x < width` and `0 <= y < height` occupies the four bytes starting
/// at offset `(y * width + x) * 4`; the byte vector has exactly
/// `width * height * 4` bytes, so every byte belongs to exactly one pixel.
pub struct PixelBuffer {
    width: usize,
    height: usize,
    data: Vec<u8>,
}

impl View for PixelBuffer {
    type V = Seq<u8>;

    closed spec fn view(&self) -> Seq<u8> {
        self.data@
    }
}

impl PixelBuffer {
    pub closed spec fn spec_width(self) -> int {
        self.width as int
    }

    pub closed spec fn spec_height(self) -> int {
        self.height as int
    }

    /// The buffer's sole well-formedness invariant: the byte vector covers
    /// the whole `width x height` grid, four bytes per pixel, exactly.
    pub open spec fn wf(self) -> bool {
        self@.len() == self.spec_width() * self.spec_height() * 4
            && self@.len() <= usize::MAX
            && 0 <= self.spec_width()
            && 0 <= self.spec_height()
    }

    /// Whether `(x, y)` names a pixel inside the buffer.
    pub open spec fn in_bounds(self, x: int, y: int) -> bool {
        0 <= x < self.spec_width() && 0 <= y < self.spec_height()
    }

    /// Offset of the first of the four bytes of pixel `(x, y)`.
    pub open spec fn pixel_offset(self, x: int, y: int) -> int {
        (y * self.spec_width() + x) * 4
    }

    /// The color stored at pixel `(x, y)`; meaningful when `in_bounds(x, y)`.
    pub open spec fn pixel(self, x: int, y: int) -> Rgba {
        Rgba {
            r: self@[self.pixel_offset(x, y)],
            g: self@[self.pixel_offset(x, y) + 1],
            b: self@[self.pixel_offset(x, y) + 2],
            a: self@[self.pixel_offset(x, y) + 3],
        }
    }

    /// Distinct in-bounds pixels own disjoint byte ranges: their offsets
    /// differ by at least one whole pixel.
    proof fn lemma_offset_injective(self, x1: int, y1: int, x2: int, y2: int)
        requires
            self.in_bounds(x1, y1),
            self.in_bounds(x2, y2),
            !(x1 == x2 && y1 == y2),
        ensures
            self.pixel_offset(x2, y2) + 4 <= self.pixel_offset(x1, y1)
                || self.pixel_offset(x1, y1) + 4 <= self.pixel_offset(x2, y2),
    {
        let w = self.spec_width();
        if y1 < y2 {
            assert(y1 * w + x1 < y2 * w + x2) by (nonlinear_arith)
                requires 0 <= x1 < w && 0 <= x2 && 0 <= y1 && y1 < y2;
        } else if y2 < y1 {
            assert(y2 * w + x2 < y1 * w + x1) by (nonlinear_arith)
                requires 0 <= x2 < w && 0 <= x1 && 0 <= y2 && y2 < y1;
        }
    }

    /// In-bounds pixels have all four of their bytes inside the vector.
    proof fn lemma_offset_in_range(self, x: int, y: int)
        requires
            self.wf(),
            self.in_bounds(x, y),
        ensures
            0 <= y * self.spec_width() + x,
            (y * self.spec_width() + x) * 4 + 4 <= self@.len(),
            0 <= self.pixel_offset(x, y),
            self.pixel_offset(x, y) + 4 <= self@.len(),
    {
        let w = self.spec_width();
        let h = self.spec_height();
        assert(0 <= y * w + x && y * w + x <= w * h - 1) by (nonlinear_arith)
            requires 0 <= x < w && 0 <= y < h;
    }

    /// A fresh buffer of the given dimensions with every byte zero, that is,
    /// every pixel holding the clear color.
    pub fn new(width: usize, height: usize) -> (buf: PixelBuffer)
        requires
            width * height * 4 <= usize::MAX,
        ensures
            buf.wf(),
            buf.spec_width() == width,
            buf.spec_height() == height,
            forall|i: int| 0 <= i < buf@.len() ==> buf@[i] == 0u8,
            forall|x: int, y: int| buf.in_bounds(x, y) ==> buf.pixel(x, y) == clear_color(),
    {
        let total: usize = width * height * 4;
        let mut data: Vec<u8> = Vec::new();
        let mut i: usize = 0;
        while i < total
            invariant
                i <= total,
                data.len() == i,
                forall|k: int| 0 <= k < i ==> data@[k] == 0u8,
            decreases total - i,
        {
            data.push(0u8);
            i = i + 1;
        }
        let buf = PixelBuffer { width, height, data };
        proof {
            assert forall|x: int, y: int| buf.in_bounds(x, y) implies buf.pixel(x, y)
                == clear_color() by {
                buf.lemma_offset_in_range(x, y);
            }
        }
        buf
    }

    pub fn width(&self) -> (w: usize)
        ensures
            w == self.spec_width(),
    {
        self.width
    }

    pub fn height(&self) -> (h: usize)
        ensures
            h == self.spec_height(),
    {
        self.height
    }

    /// Read access to the raw bytes, for handing a composed frame on to a
    /// display surface.
    pub fn bytes(&self) -> (bytes: &Vec<u8>)
        ensures
            bytes@ == self@,
    {
        &self.data
    }

    /// Overwrite every byte of the buffer with zero, leaving every pixel at
    /// the clear color.
    pub fn clear(&mut self)
        requires
            old(self).wf(),
        ensures
            final(self).wf(),
            final(self).spec_width() == old(self).spec_width(),
            final(self).spec_height() == old(self).spec_height(),
            final(self)@.len() == old(self)@.len(),
            forall|i: int| 0 <= i < final(self)@.len() ==> final(self)@[i] == 0u8,
            forall|x: int, y: int|
                final(self).in_bounds(x, y) ==> final(self).pixel(x, y) == clear_color(),
    {
        let n: usize = self.data.len();
        let mut i: usize = 0;
        while i < n
            invariant
                i <= n,
                self.data.len() == n,
                self.width == old(self).width,
                self.height == old(self).height,
                forall|k: int| 0 <= k < i ==> self.data@[k] == 0u8,
            decreases n - i,
        {
            self.data[i] = 0u8;
            i = i + 1;
        }
        proof {
            assert forall|x: int, y: int|
                self.in_bounds(x, y) implies self.pixel(x, y) == clear_color() by {
                self.lemma_offset_in_range(x, y);
            }
        }
    }

    /// Write `color` to pixel `(x, y)` if it lies inside the buffer, and do
    /// nothing at all otherwise. Out-of-range coordinates, including negative
    /// ones, are skipped silently; no other pixel is ever touched.
    pub fn plot(&mut self, x: i64, y: i64, color: Rgba)
        requires
            old(self).wf(),
        ensures
            final(self).wf(),
            final(self).spec_width() == old(self).spec_width(),
            final(self).spec_height() == old(self).spec_height(),
            final(self)@.len() == old(self)@.len(),
            old(self).in_bounds(x as int, y as int) ==> final(self).pixel(
                x as int,
                y as int,
            ) == color,
            forall|xx: int, yy: int|
                old(self).in_bounds(xx, yy) && !(xx == x as int && yy == y as int)
                    ==> final(self).pixel(xx, yy) == old(self).pixel(xx, yy),
            !old(self).in_bounds(x as int, y as int) ==> final(self)@ == old(self)@,
    {
        if x >= 0 && y >= 0 && (x as u64) < (self.width as u64) && (y as u64)
            < (self.height as u64) {
            let xi = x as usize;
            let yi = y as usize;
            {
                proof {
                    self.lemma_offset_in_range(xi as int, yi as int);
                }
                let off: usize = (yi * self.width + xi) * 4;
                self.data[off] = color.r;
                self.data[off + 1] = color.g;
                self.data[off + 2] = color.b;
                self.data[off + 3] = color.a;
                proof {
                    assert forall|xx: int, yy: int|
                        old(self).in_bounds(xx, yy) && !(xx == x as int && yy == y as int)
                            implies self.pixel(xx, yy) == old(self).pixel(xx, yy) by {
                        old(self).lemma_offset_injective(xx, yy, x as int, y as int);
                        old(self).lemma_offset_in_range(xx, yy);
                    }
                }
            }
        }
    }
}

} // verus!
