//! ARGB8888 pixels laid out in rows, and rectangles of them.

use vstd::prelude::*;

verus! {

/// The number of whole rows of `stride` pixels in a buffer of `len`.
pub open spec fn whole_rows(len: int, stride: int) -> int {
    if stride > 0 {
        len / stride
    } else {
        0
    }
}

/// Whether the pixel at `index` belongs to a whole row.
pub open spec fn in_a_row(len: int, stride: int, index: int) -> bool {
    stride > 0 && index / stride < len / stride
}

/// Whether the pixel at `index` lies in columns `x0..x1` and rows `y0..y1`.
pub open spec fn inside(stride: int, index: int, x0: int, y0: int, x1: int, y1: int) -> bool {
    x0 <= index % stride < x1 && y0 <= index / stride < y1
}

/// A buffer with the part of columns `x0..x1` and rows `y0..y1` that lies on it
/// painted in one colour, and nothing else changed.
pub open spec fn filled(
    cells: Seq<u32>,
    stride: int,
    x0: int,
    y0: int,
    x1: int,
    y1: int,
    colour: u32,
) -> Seq<u32> {
    Seq::new(
        cells.len(),
        |i: int|
            if in_a_row(cells.len() as int, stride, i) && inside(stride, i, x0, y0, x1, y1) {
                colour
            } else {
                cells[i]
            },
    )
}

/// A borrowed ARGB8888 pixel buffer laid out as `stride`-pixel rows.
#[derive(Debug)]
pub struct Canvas<'a> {
    pub pixels: &'a mut [u32],
    pub stride: usize,
}

impl<'a> Canvas<'a> {
    /// The pixels as they are now.
    pub open spec fn cells(self) -> Seq<u32> {
        self.pixels@
    }

    #[must_use]
    pub fn rows(&self) -> (rows: usize)
        requires
            self.stride > 0,
        ensures
            rows == whole_rows(self.cells().len() as int, self.stride as int),
    {
        self.pixels.len() / self.stride
    }

    /// Writes one pixel, ignoring coordinates outside the buffer.
    pub fn put(&mut self, x: i64, y: i64, colour: u32)
        ensures
            final(self).stride == old(self).stride,
            final(final(self).pixels)@ == final(old(self).pixels)@,
            final(self).cells() == filled(
                old(self).cells(),
                old(self).stride as int,
                x as int,
                y as int,
                x + 1,
                y + 1,
                colour,
            ),
    {
        if x >= 0 && y >= 0 && (x as u64) < self.stride as u64 && (y as u64) < self.rows() as u64 {
            let len: usize = self.pixels.len();
            assert(0 <= y * self.stride && y * self.stride + x < len) by (nonlinear_arith)
                requires
                    0 <= y < len / self.stride,
                    0 <= x < self.stride,
            ;
            self.pixels[y as usize * self.stride + x as usize] = colour;
        }
        proof {
            let before = old(self).cells();
            let stride = self.stride as int;
            assert forall|i: int| 0 <= i < before.len() implies self.cells()[i] == filled(
                before,
                stride,
                x as int,
                y as int,
                x + 1,
                y + 1,
                colour,
            )[i] by {
                if stride > 0 {
                    pixel_coordinates(stride, i, x as int, y as int);
                }
            }
            assert(self.cells() =~= filled(before, stride, x as int, y as int, x + 1, y + 1, colour));
        }
    }

    /// Paints columns `x0..x1` of rows `y0..y1`, ignoring what lies outside the
    /// buffer.
    pub fn fill(&mut self, x0: i64, y0: i64, x1: i64, y1: i64, colour: u32)
        ensures
            final(self).stride == old(self).stride,
            final(final(self).pixels)@ == final(old(self).pixels)@,
            final(self).cells() == filled(
                old(self).cells(),
                old(self).stride as int,
                x0 as int,
                y0 as int,
                x1 as int,
                y1 as int,
                colour,
            ),
    {
        let ghost before = self.cells();
        let ghost stride = self.stride as int;
        let ghost done = filled(before, stride, x0 as int, y0 as int, x1 as int, y1 as int, colour);
        if self.stride == 0 {
            assert(before =~= done);
            return;
        }
        let rows: usize = self.rows();
        let left: i64 = if x0 < 0 { 0 } else { x0 };
        let top: i64 = if y0 < 0 { 0 } else { y0 };
        let right: i64 = if x1 < 0 {
            0
        } else if (x1 as u64) < self.stride as u64 {
            x1
        } else {
            self.stride as i64
        };
        let bottom: i64 = if y1 < 0 {
            0
        } else if (y1 as u64) < rows as u64 {
            y1
        } else {
            rows as i64
        };
        let mut y: i64 = top;
        assert(self.cells() =~= filled(
            before,
            stride,
            left as int,
            top as int,
            right as int,
            y as int,
            colour,
        ));
        while y < bottom
            invariant
                stride > 0,
                self.stride == stride,
                final(self.pixels)@ == final(old(self).pixels)@,
                0 <= left,
                top <= y,
                y <= bottom || y == top,
                self.cells() == filled(
                    before,
                    stride,
                    left as int,
                    top as int,
                    right as int,
                    y as int,
                    colour,
                ),
            decreases bottom - y,
        {
            let ghost above = self.cells();
            let mut x: i64 = left;
            assert(above =~= filled(above, stride, left as int, y as int, x as int, y + 1, colour));
            while x < right
                invariant
                    stride > 0,
                    self.stride == stride,
                    final(self.pixels)@ == final(old(self).pixels)@,
                    left <= x,
                    x <= right || x == left,
                    y < i64::MAX,
                    self.cells() == filled(
                        above,
                        stride,
                        left as int,
                        y as int,
                        x as int,
                        y + 1,
                        colour,
                    ),
                decreases right - x,
            {
                let ghost so_far = self.cells();
                self.put(x, y, colour);
                assert(self.cells() =~= filled(
                    above,
                    stride,
                    left as int,
                    y as int,
                    x + 1,
                    y + 1,
                    colour,
                ));
                x = x + 1;
            }
            assert(self.cells() =~= filled(
                before,
                stride,
                left as int,
                top as int,
                right as int,
                y + 1,
                colour,
            ));
            y = y + 1;
        }
        proof {
            assert forall|i: int| 0 <= i < before.len() implies self.cells()[i] == done[i] by {
                index_on_canvas(before.len() as int, stride, i);
            }
            assert(self.cells() =~= done);
        }
    }
}

/// An index and the coordinates of its pixel determine each other.
pub proof fn pixel_coordinates(stride: int, index: int, x: int, y: int)
    requires
        stride > 0,
    ensures
        index == (index / stride) * stride + index % stride,
        0 <= index % stride < stride,
        0 <= x < stride ==> ((index % stride == x && index / stride == y) <==> index == y * stride + x),
{
    assert(index == (index / stride) * stride + index % stride && 0 <= index % stride < stride)
        by (nonlinear_arith)
        requires
            stride > 0,
    ;
    if 0 <= x < stride && index == y * stride + x {
        vstd::arithmetic::div_mod::lemma_fundamental_div_mod_converse(index, stride, y, x);
    }
}

/// The coordinates of a pixel of a buffer are not negative, and bounded by its
/// stride and its length.
pub proof fn index_on_canvas(len: int, stride: int, index: int)
    requires
        stride > 0,
        0 <= index < len,
    ensures
        0 <= index % stride < stride,
        0 <= index / stride <= len / stride,
{
    assert(0 <= index % stride < stride && 0 <= index / stride <= len / stride) by (nonlinear_arith)
        requires
            stride > 0,
            0 <= index < len,
    ;
}

} // verus!
