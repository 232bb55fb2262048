//! Sprites: pairs of 1-bit images, and the blit that turns one into ARGB8888
//! pixels.
//!
//! The mask is the silhouette (filled with the background colour) and the
//! bitmap is the line art on top (the outline colour). Bits are in xbm order:
//! LSB first within each byte, rows padded up to a whole number of bytes.

use vstd::prelude::*;

use crate::canvas::{Canvas, filled, in_a_row};

verus! {

/// The two colours a 1-bit sprite is drawn with, as ARGB8888.
#[derive(Debug, Clone, Copy, PartialEq, Eq, Structural)]
pub struct Palette {
    /// Fills the silhouette.
    pub background: u32,
    /// Draws the line art on top of it.
    pub outline: u32,
}

impl Default for Palette {
    fn default() -> (palette: Palette)
        ensures
            palette.background == 0xffff_ffff,
            palette.outline == 0xff00_0000,
    {
        Palette { background: 0xffff_ffff, outline: 0xff00_0000 }
    }
}

/// A single animation frame.
#[derive(Debug)]
pub struct Sprite {
    /// The name of the frame, e.g. `"upleft1"` or `"sleep2"`.
    pub name: String,
    pub width: u32,
    pub height: u32,
    /// The line art, 1 bit per pixel.
    pub bits: Vec<u8>,
    /// The silhouette, 1 bit per pixel, same dimensions.
    pub mask: Vec<u8>,
}

/// The bytes that a row of `width` bits takes up.
pub open spec fn bytes_per_row(width: int) -> int {
    (width + 7) / 8
}

/// The bit at column `x` and row `y` of a 1-bit image.
pub open spec fn bit_at(bits: Seq<u8>, stride: int, x: int, y: int) -> bool {
    (bits[y * stride + x / 8] >> ((x % 8) as u8)) & 1 == 1
}

/// A byte's place in a 1-bit image.
proof fn byte_in_image(stride: int, height: int, x: int, y: int)
    requires
        0 <= x / 8 < stride,
        0 <= y < height,
    ensures
        0 <= y * stride + x / 8 < stride * height,
        0 <= y * stride <= stride * height,
{
    assert(0 <= y * stride && (y + 1) * stride <= stride * height) by (nonlinear_arith)
        requires
            0 <= y < height,
            stride >= 0,
    ;
    assert((y + 1) * stride == y * stride + stride) by (nonlinear_arith);
}

/// The bytes a row of `width` bits takes up.
pub fn row_bytes(width: u32) -> (bytes: usize)
    ensures
        bytes == bytes_per_row(width as int),
{
    let rest: u32 = if width % 8 == 0 { 0 } else { 1 };
    (width / 8 + rest) as usize
}

impl Sprite {
    /// Whether both images hold a bit for every pixel.
    pub open spec fn well_formed(self) -> bool {
        &&& self.bits@.len() >= bytes_per_row(self.width as int) * self.height
        &&& self.mask@.len() >= bytes_per_row(self.width as int) * self.height
    }

    /// Whether every pixel of the sprite, scaled up and drawn with its top-left
    /// at `(left, top)`, has coordinates that fit in 64 bits.
    pub open spec fn fits(self, left: int, top: int, scale: int) -> bool {
        &&& self.width * scale <= i64::MAX
        &&& self.height * scale <= i64::MAX
        &&& left + self.width * scale <= i64::MAX
        &&& top + self.height * scale <= i64::MAX
    }

    /// The colour of the pixel at column `x` and row `y`, if the sprite has one
    /// there.
    pub open spec fn ink(self, palette: Palette, x: int, y: int) -> Option<u32> {
        let stride = bytes_per_row(self.width as int);
        if !(0 <= x < self.width && 0 <= y < self.height) || !bit_at(self.mask@, stride, x, y) {
            None
        } else if bit_at(self.bits@, stride, x, y) {
            Some(palette.outline)
        } else {
            Some(palette.background)
        }
    }

    /// The bit at column `x` and row `y` of a 1-bit image with rows of `stride`
    /// bytes.
    pub fn get(bits: &[u8], stride: usize, x: u32, y: u32) -> (bit: bool)
        requires
            y * stride + x / 8 < bits@.len(),
        ensures
            bit == bit_at(bits@, stride as int, x as int, y as int),
    {
        let len: usize = bits.len();
        assert(0 <= y * stride) by (nonlinear_arith)
            requires
                y >= 0,
                stride >= 0,
        ;
        let index: usize = y as usize * stride + (x / 8) as usize;
        (bits[index] >> ((x % 8) as u8)) & 1 == 1
    }

    /// Blits onto `canvas` with its top-left at `(dst_x, dst_y)`, scaled up by
    /// an integer factor with nearest-neighbour sampling so the 1-bit art stays
    /// crisp. Pixels outside the canvas are clipped, and anything outside the
    /// mask is left untouched - the surface stays transparent there.
    pub fn blit_argb(
        &self,
        canvas: &mut Canvas,
        dst_x: i32,
        dst_y: i32,
        scale: u32,
        palette: Palette,
    )
        requires
            self.well_formed(),
            scale > 0,
            self.fits(dst_x as int, dst_y as int, scale as int),
        ensures
            final(canvas).stride == old(canvas).stride,
            final(final(canvas).pixels)@ == final(old(canvas).pixels)@,
            final(canvas).cells() == painted(
                *self,
                palette,
                old(canvas).cells(),
                old(canvas).stride as int,
                dst_x as int,
                dst_y as int,
                scale as int,
            ),
    {
        let stride: usize = row_bytes(self.width);
        let ghost before = canvas.cells();
        let ghost row = canvas.stride as int;
        let (left, top, side): (i64, i64, i64) = (dst_x as i64, dst_y as i64, scale as i64);
        let mut y: u32 = 0;
        proof {
            nothing_painted(*self, palette, before, row, dst_x as int, dst_y as int, scale as int);
        }
        while y < self.height
            invariant
                self.well_formed(),
                stride == bytes_per_row(self.width as int),
                scale > 0,
                left == dst_x,
                top == dst_y,
                side == scale,
                self.fits(dst_x as int, dst_y as int, scale as int),
                y <= self.height,
                canvas.stride == row,
                final(canvas.pixels)@ == final(old(canvas).pixels)@,
                canvas.cells() == painted_up_to(
                    *self,
                    palette,
                    before,
                    row,
                    dst_x as int,
                    dst_y as int,
                    scale as int,
                    0,
                    y as int,
                ),
            decreases self.height - y,
        {
            let mut x: u32 = 0;
            while x < self.width
                invariant
                    self.well_formed(),
                    stride == bytes_per_row(self.width as int),
                    scale > 0,
                    left == dst_x,
                    top == dst_y,
                    side == scale,
                    self.fits(dst_x as int, dst_y as int, scale as int),
                    y < self.height,
                    x <= self.width,
                    canvas.stride == row,
                    final(canvas.pixels)@ == final(old(canvas).pixels)@,
                    canvas.cells() == painted_up_to(
                        *self,
                        palette,
                        before,
                        row,
                        dst_x as int,
                        dst_y as int,
                        scale as int,
                        x as int,
                        y as int,
                    ),
                decreases self.width - x,
            {
                proof {
                    byte_in_image(stride as int, self.height as int, x as int, y as int);
                    paint_one_more(
                        *self,
                        palette,
                        before,
                        row,
                        dst_x as int,
                        dst_y as int,
                        scale as int,
                        x as int,
                        y as int,
                    );
                }
                if Sprite::get(self.mask.as_slice(), stride, x, y) {
                    let colour: u32 = if Sprite::get(self.bits.as_slice(), stride, x, y) {
                        palette.outline
                    } else {
                        palette.background
                    };
                    // One source pixel becomes a scale x scale block.
                    proof {
                        block_corner(x as int, self.width as int, scale as int);
                        block_corner(y as int, self.height as int, scale as int);
                    }
                    let base_x: i64 = left + x as i64 * side;
                    let base_y: i64 = top + y as i64 * side;
                    canvas.fill(base_x, base_y, base_x + side, base_y + side, colour);
                }
                x = x + 1;
            }
            proof {
                next_row(
                    *self,
                    palette,
                    before,
                    row,
                    dst_x as int,
                    dst_y as int,
                    scale as int,
                    y as int,
                );
            }
            y = y + 1;
        }
        proof {
            all_painted(*self, palette, before, row, dst_x as int, dst_y as int, scale as int);
        }
    }
}

/// The end of a block of `scale` pixels is within the scaled image.
proof fn block_corner(x: int, width: int, scale: int)
    requires
        0 <= x < width,
        scale > 0,
    ensures
        0 <= x * scale,
        x * scale + scale <= width * scale,
        (x + 1) * scale == x * scale + scale,
{
    assert(0 <= x * scale && x * scale + scale <= width * scale && (x + 1) * scale == x * scale + scale)
        by (nonlinear_arith)
        requires
            0 <= x < width,
            scale > 0,
    ;
}

/// The column or row of a sprite that lands on the pixel `offset` pixels past
/// its top-left, when each of its pixels is `scale` pixels large.
pub open spec fn source(offset: int, scale: int) -> int {
    offset / scale
}

/// The colour that a sprite gives the pixel at `index`, if any.
pub open spec fn ink_over(
    sprite: Sprite,
    palette: Palette,
    stride: int,
    index: int,
    left: int,
    top: int,
    scale: int,
) -> Option<u32> {
    sprite.ink(
        palette,
        source(index % stride - left, scale),
        source(index / stride - top, scale),
    )
}

/// A buffer with a sprite drawn over it, its top-left at `(left, top)`. Every
/// pixel that the sprite has ink for takes it; the others stay as they were.
pub open spec fn painted(
    sprite: Sprite,
    palette: Palette,
    cells: Seq<u32>,
    stride: int,
    left: int,
    top: int,
    scale: int,
) -> Seq<u32> {
    Seq::new(
        cells.len(),
        |i: int|
            if !in_a_row(cells.len() as int, stride, i) {
                cells[i]
            } else {
                match ink_over(sprite, palette, stride, i, left, top, scale) {
                    Some(colour) => colour,
                    None => cells[i],
                }
            },
    )
}

/// A sprite leaves every pixel alone that it does not cover or that its mask
/// leaves out.
pub proof fn a_blit_leaves_the_rest_alone(
    sprite: Sprite,
    palette: Palette,
    cells: Seq<u32>,
    stride: int,
    left: int,
    top: int,
    scale: int,
    index: int,
)
    requires
        scale > 0,
        0 <= index < cells.len(),
        ({
            let (dx, dy) = (index % stride - left, index / stride - top);
            ||| !(0 <= dx < sprite.width * scale && 0 <= dy < sprite.height * scale)
            ||| !bit_at(
                sprite.mask@,
                bytes_per_row(sprite.width as int),
                source(dx, scale),
                source(dy, scale),
            )
        }),
    ensures
        painted(sprite, palette, cells, stride, left, top, scale)[index] == cells[index],
{
    let (dx, dy) = (index % stride - left, index / stride - top);
    source_range(dx, scale, sprite.width as int);
    source_range(dy, scale, sprite.height as int);
}

/// The source of a pixel is part of the image exactly if the scaled image
/// reaches the pixel.
pub proof fn source_range(offset: int, scale: int, extent: int)
    requires
        scale > 0,
    ensures
        0 <= source(offset, scale) < extent <==> 0 <= offset < extent * scale,
{
    assert(0 <= offset / scale < extent <==> 0 <= offset < extent * scale) by (nonlinear_arith)
        requires
            scale > 0,
    ;
}

/// On a transparent canvas, with two colours that are not transparent black, a
/// blit fills the part of the mask that lies on the canvas and nothing else.
pub proof fn a_blit_fills_the_mask(
    sprite: Sprite,
    palette: Palette,
    cells: Seq<u32>,
    stride: int,
    left: int,
    top: int,
    scale: int,
    index: int,
)
    requires
        scale > 0,
        palette.background != 0,
        palette.outline != 0,
        0 <= index < cells.len(),
        cells[index] == 0,
    ensures
        painted(sprite, palette, cells, stride, left, top, scale)[index] != 0 <==> {
            let (x, y) = (
                source(index % stride - left, scale),
                source(index / stride - top, scale),
            );
            &&& in_a_row(cells.len() as int, stride, index)
            &&& 0 <= x < sprite.width
            &&& 0 <= y < sprite.height
            &&& bit_at(sprite.mask@, bytes_per_row(sprite.width as int), x, y)
        },
{
}

/// Drawing a sprite where it already is changes nothing.
pub proof fn a_blit_repeated_changes_nothing(
    sprite: Sprite,
    palette: Palette,
    cells: Seq<u32>,
    stride: int,
    left: int,
    top: int,
    scale: int,
)
    ensures
        ({
            let once = painted(sprite, palette, cells, stride, left, top, scale);
            painted(sprite, palette, once, stride, left, top, scale) == once
        }),
{
    let once = painted(sprite, palette, cells, stride, left, top, scale);
    assert(painted(sprite, palette, once, stride, left, top, scale) =~= once);
}

/// Whether the sprite pixel at column `x` and row `y` comes before the one at
/// column `until_x` and row `until_y`.
spec fn comes_before(x: int, y: int, until_x: int, until_y: int) -> bool {
    y < until_y || (y == until_y && x < until_x)
}

/// A buffer with the part of a sprite drawn over it that comes before one of its
/// pixels.
spec fn painted_up_to(
    sprite: Sprite,
    palette: Palette,
    cells: Seq<u32>,
    stride: int,
    left: int,
    top: int,
    scale: int,
    until_x: int,
    until_y: int,
) -> Seq<u32> {
    Seq::new(
        cells.len(),
        |i: int|
            if !in_a_row(cells.len() as int, stride, i) || !comes_before(
                source(i % stride - left, scale),
                source(i / stride - top, scale),
                until_x,
                until_y,
            ) {
                cells[i]
            } else {
                match ink_over(sprite, palette, stride, i, left, top, scale) {
                    Some(colour) => colour,
                    None => cells[i],
                }
            },
    )
}

/// No pixel of a sprite comes before its first.
proof fn nothing_painted(
    sprite: Sprite,
    palette: Palette,
    cells: Seq<u32>,
    stride: int,
    left: int,
    top: int,
    scale: int,
)
    ensures
        painted_up_to(sprite, palette, cells, stride, left, top, scale, 0, 0) == cells,
{
    assert(painted_up_to(sprite, palette, cells, stride, left, top, scale, 0, 0) =~= cells);
}

/// The pixels that one pixel of a sprite is scaled up to.
proof fn source_block(offset: int, scale: int, x: int)
    requires
        scale > 0,
    ensures
        source(offset, scale) == x <==> x * scale <= offset < x * scale + scale,
{
    assert(offset / scale == x <==> x * scale <= offset < x * scale + scale) by (nonlinear_arith)
        requires
            scale > 0,
    ;
}

/// Drawing one pixel more is filling its block with its ink, if it has any.
proof fn paint_one_more(
    sprite: Sprite,
    palette: Palette,
    cells: Seq<u32>,
    stride: int,
    left: int,
    top: int,
    scale: int,
    x: int,
    y: int,
)
    requires
        scale > 0,
        0 <= x < sprite.width,
        0 <= y < sprite.height,
    ensures
        painted_up_to(sprite, palette, cells, stride, left, top, scale, x + 1, y) == match sprite.ink(
            palette,
            x,
            y,
        ) {
            None => painted_up_to(sprite, palette, cells, stride, left, top, scale, x, y),
            Some(colour) => filled(
                painted_up_to(sprite, palette, cells, stride, left, top, scale, x, y),
                stride,
                left + x * scale,
                top + y * scale,
                left + x * scale + scale,
                top + y * scale + scale,
                colour,
            ),
        },
{
    let before = painted_up_to(sprite, palette, cells, stride, left, top, scale, x, y);
    let now = painted_up_to(sprite, palette, cells, stride, left, top, scale, x + 1, y);
    let want = match sprite.ink(palette, x, y) {
        None => before,
        Some(colour) => filled(
            before,
            stride,
            left + x * scale,
            top + y * scale,
            left + x * scale + scale,
            top + y * scale + scale,
            colour,
        ),
    };
    assert forall|i: int| 0 <= i < cells.len() implies now[i] == want[i] by {
        source_block(i % stride - left, scale, x);
        source_block(i / stride - top, scale, y);
    }
    assert(now =~= want);
}

/// Past the end of a row there is nothing more to draw before the next one.
proof fn next_row(
    sprite: Sprite,
    palette: Palette,
    cells: Seq<u32>,
    stride: int,
    left: int,
    top: int,
    scale: int,
    y: int,
)
    ensures
        painted_up_to(sprite, palette, cells, stride, left, top, scale, sprite.width as int, y)
            == painted_up_to(sprite, palette, cells, stride, left, top, scale, 0, y + 1),
{
    assert(painted_up_to(sprite, palette, cells, stride, left, top, scale, sprite.width as int, y)
        =~= painted_up_to(sprite, palette, cells, stride, left, top, scale, 0, y + 1));
}

/// Past the last row the whole sprite is drawn.
proof fn all_painted(
    sprite: Sprite,
    palette: Palette,
    cells: Seq<u32>,
    stride: int,
    left: int,
    top: int,
    scale: int,
)
    ensures
        painted_up_to(sprite, palette, cells, stride, left, top, scale, 0, sprite.height as int)
            == painted(sprite, palette, cells, stride, left, top, scale),
{
    assert(painted_up_to(sprite, palette, cells, stride, left, top, scale, 0, sprite.height as int)
        =~= painted(sprite, palette, cells, stride, left, top, scale));
}

} // verus!
