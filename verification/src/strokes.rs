//! What drawing leaves behind, told pixel by pixel: a pixel is a column and a row of
//! a buffer, and a sprite's pixel a bit of one of its bytes.

use vstd::arithmetic::power2::{lemma2_to64, pow2};
use vstd::prelude::*;

use crate::canvas::{filled, in_a_row, pixel_coordinates, whole_rows};
use crate::screen::{Placement, Rect, cleared, cleared_if, repainted};
use crate::sprite::{Palette, Sprite, bit_at, bytes_per_row, painted, source};

verus! {

/// Where a pixel of a whole row is in a buffer, and that it is in one.
proof fn pixel_in_a_row(len: int, stride: int, x: int, y: int)
    requires
        0 <= x < stride,
        0 <= y,
        (y + 1) * stride <= len,
    ensures
        0 <= y * stride + x < len,
        (y * stride + x) % stride == x,
        (y * stride + x) / stride == y,
        in_a_row(len, stride, y * stride + x),
        0 <= y < whole_rows(len, stride),
{
    pixel_coordinates(stride, y * stride + x, x, y);
    assert((y + 1) * stride == y * stride + stride) by (nonlinear_arith);
    assert(0 <= y * stride) by (nonlinear_arith)
        requires
            0 <= y,
            stride > 0,
    ;
    assert(y < len / stride) by (nonlinear_arith)
        requires
            (y + 1) * stride <= len,
            stride > 0,
    ;
}

/// Filling a rectangle paints the pixels whose column and row are in it, and leaves
/// the others of every whole row alone.
pub proof fn a_fill_paints_columns_and_rows(
    cells: Seq<u32>,
    stride: int,
    x0: int,
    y0: int,
    x1: int,
    y1: int,
    colour: u32,
    x: int,
    y: int,
)
    requires
        0 <= x < stride,
        0 <= y,
        (y + 1) * stride <= cells.len(),
    ensures
        filled(cells, stride, x0, y0, x1, y1, colour).len() == cells.len(),
        filled(cells, stride, x0, y0, x1, y1, colour)[y * stride + x] == (if x0 <= x && x < x1 && y0 <= y
            && y < y1 {
            colour
        } else {
            cells[y * stride + x]
        }),
{
    pixel_in_a_row(cells.len() as int, stride, x, y);
}

/// What is left over after the last whole row of a buffer is never painted.
pub proof fn the_last_pixels_are_left_alone(
    cells: Seq<u32>,
    stride: int,
    x0: int,
    y0: int,
    x1: int,
    y1: int,
    colour: u32,
    rows: int,
    index: int,
)
    requires
        stride > 0,
        rows >= 0,
        rows * stride <= cells.len() < (rows + 1) * stride,
        rows * stride <= index < cells.len(),
    ensures
        filled(cells, stride, x0, y0, x1, y1, colour)[index] == cells[index],
{
    assert(index / stride >= cells.len() as int / stride) by (nonlinear_arith)
        requires
            stride > 0,
            rows * stride <= index,
            cells.len() < (rows + 1) * stride,
    ;
    assert(index >= 0) by (nonlinear_arith)
        requires
            rows * stride <= index,
            rows >= 0,
            stride > 0,
    ;
}

/// A buffer has as many whole rows as fit into it.
pub proof fn rows_are_whole(len: int, stride: int)
    requires
        len >= 0,
        stride > 0,
    ensures
        whole_rows(len, stride) * stride <= len,
        len < (whole_rows(len, stride) + 1) * stride,
{
    assert(len / stride * stride <= len < (len / stride + 1) * stride) by (nonlinear_arith)
        requires
            stride > 0,
    ;
}

/// Bits stand in their bytes with the least significant one first: the bit of column
/// `8 * byte + place` is the one that counts 2 to the `place` in that byte of its row.
pub proof fn the_lowest_bit_comes_first(bits: Seq<u8>, stride: int, byte: int, place: int, y: int)
    requires
        0 <= place < 8,
        0 <= byte,
        0 <= y * stride + byte < bits.len(),
    ensures
        bit_at(bits, stride, 8 * byte + place, y) <==> bits[y * stride + byte] as int / pow2(
            place as nat,
        ) as int % 2 == 1,
{
    lemma2_to64();
    let b = bits[y * stride + byte];
    assert((8 * byte + place) / 8 == byte && (8 * byte + place) % 8 == place);
    assert((b >> 0u8) & 1 == 1 <==> b / 1 % 2 == 1) by (bit_vector);
    assert((b >> 1u8) & 1 == 1 <==> b / 2 % 2 == 1) by (bit_vector);
    assert((b >> 2u8) & 1 == 1 <==> b / 4 % 2 == 1) by (bit_vector);
    assert((b >> 3u8) & 1 == 1 <==> b / 8 % 2 == 1) by (bit_vector);
    assert((b >> 4u8) & 1 == 1 <==> b / 16 % 2 == 1) by (bit_vector);
    assert((b >> 5u8) & 1 == 1 <==> b / 32 % 2 == 1) by (bit_vector);
    assert((b >> 6u8) & 1 == 1 <==> b / 64 % 2 == 1) by (bit_vector);
    assert((b >> 7u8) & 1 == 1 <==> b / 128 % 2 == 1) by (bit_vector);
}

/// Eight columns make up a byte: it is the sum of what the set ones count.
pub proof fn eight_columns_make_a_byte(bits: Seq<u8>, stride: int, byte: int, y: int)
    requires
        0 <= byte,
        0 <= y * stride + byte < bits.len(),
    ensures
        bits[y * stride + byte] == (if bit_at(bits, stride, 8 * byte, y) { 1int } else { 0 }) + (
        if bit_at(bits, stride, 8 * byte + 1, y) { 2int } else { 0 }) + (
        if bit_at(bits, stride, 8 * byte + 2, y) { 4int } else { 0 }) + (
        if bit_at(bits, stride, 8 * byte + 3, y) { 8int } else { 0 }) + (
        if bit_at(bits, stride, 8 * byte + 4, y) { 16int } else { 0 }) + (
        if bit_at(bits, stride, 8 * byte + 5, y) { 32int } else { 0 }) + (
        if bit_at(bits, stride, 8 * byte + 6, y) { 64int } else { 0 }) + (
        if bit_at(bits, stride, 8 * byte + 7, y) { 128int } else { 0 }),
{
    lemma2_to64();
    the_lowest_bit_comes_first(bits, stride, byte, 0, y);
    the_lowest_bit_comes_first(bits, stride, byte, 1, y);
    the_lowest_bit_comes_first(bits, stride, byte, 2, y);
    the_lowest_bit_comes_first(bits, stride, byte, 3, y);
    the_lowest_bit_comes_first(bits, stride, byte, 4, y);
    the_lowest_bit_comes_first(bits, stride, byte, 5, y);
    the_lowest_bit_comes_first(bits, stride, byte, 6, y);
    the_lowest_bit_comes_first(bits, stride, byte, 7, y);
    let b = bits[y * stride + byte];
    assert(b == b / 1 % 2 + 2 * (b / 2 % 2) + 4 * (b / 4 % 2) + 8 * (b / 8 % 2) + 16 * (b / 16 % 2) + 32
        * (b / 32 % 2) + 64 * (b / 64 % 2) + 128 * (b / 128 % 2)) by (bit_vector);
}

/// The rows of a 1-bit image are padded to whole bytes, and to no more of them than
/// its columns need.
pub proof fn rows_are_whole_bytes(width: int)
    requires
        width >= 0,
    ensures
        8 * bytes_per_row(width) >= width,
        8 * bytes_per_row(width) < width + 8,
{
}

/// Every pixel of a sprite becomes a square of `scale` pixels: `(u, v)` is a place in
/// the square of the sprite's column `8 * byte + place` and row `row`, and what is
/// seen there, if that is on the canvas, is the outline where both of the images have
/// a bit, the background where only the mask has one, and what was there before where
/// the mask has none.
pub proof fn a_blit_draws_squares(
    sprite: Sprite,
    palette: Palette,
    cells: Seq<u32>,
    stride: int,
    left: int,
    top: int,
    scale: int,
    byte: int,
    place: int,
    row: int,
    u: int,
    v: int,
)
    requires
        sprite.well_formed(),
        scale > 0,
        0 <= byte,
        0 <= place < 8,
        8 * byte + place < sprite.width,
        0 <= row < sprite.height,
        0 <= u < scale,
        0 <= v < scale,
        ({
            let (x, y) = (left + (8 * byte + place) * scale + u, top + row * scale + v);
            0 <= x < stride && 0 <= y && (y + 1) * stride <= cells.len()
        }),
    ensures
        ({
            let (x, y) = (left + (8 * byte + place) * scale + u, top + row * scale + v);
            let at = row * ((sprite.width + 7) / 8) + byte;
            let weight = pow2(place as nat) as int;
            let now = painted(sprite, palette, cells, stride, left, top, scale);
            &&& 0 <= at < sprite.mask@.len()
            &&& 0 <= at < sprite.bits@.len()
            &&& now.len() == cells.len()
            &&& now[y * stride + x] == (if sprite.mask@[at] as int / weight % 2 != 1 {
                cells[y * stride + x]
            } else if sprite.bits@[at] as int / weight % 2 == 1 {
                palette.outline
            } else {
                palette.background
            })
        }),
{
    let column = 8 * byte + place;
    let (x, y) = (left + column * scale + u, top + row * scale + v);
    pixel_in_a_row(cells.len() as int, stride, x, y);
    let bytes = bytes_per_row(sprite.width as int);
    assert(byte < bytes);
    assert(0 <= row * bytes && row * bytes + bytes <= bytes * sprite.height) by (nonlinear_arith)
        requires
            0 <= row < sprite.height,
            bytes >= 0,
    ;
    vstd::arithmetic::div_mod::lemma_fundamental_div_mod_converse(column * scale + u, scale, column, u);
    vstd::arithmetic::div_mod::lemma_fundamental_div_mod_converse(row * scale + v, scale, row, v);
    assert(source(x - left, scale) == column && source(y - top, scale) == row);
    the_lowest_bit_comes_first(sprite.mask@, bytes, byte, place, row);
    the_lowest_bit_comes_first(sprite.bits@, bytes, byte, place, row);
}

/// Pixels beyond the scaled sprite, on any side of it, stay as they were.
pub proof fn a_blit_stays_in_its_box(
    sprite: Sprite,
    palette: Palette,
    cells: Seq<u32>,
    stride: int,
    left: int,
    top: int,
    scale: int,
    x: int,
    y: int,
)
    requires
        scale > 0,
        0 <= x < stride,
        0 <= y,
        (y + 1) * stride <= cells.len(),
        x < left || x >= left + sprite.width * scale || y < top || y >= top + sprite.height * scale,
    ensures
        painted(sprite, palette, cells, stride, left, top, scale)[y * stride + x] == cells[y * stride + x],
{
    pixel_in_a_row(cells.len() as int, stride, x, y);
    crate::sprite::source_range(x - left, scale, sprite.width as int);
    crate::sprite::source_range(y - top, scale, sprite.height as int);
}

/// Clearing a rectangle makes its pixels transparent and leaves the others alone.
pub proof fn clearing_leaves_nothing(cells: Seq<u32>, stride: int, rect: Rect, x: int, y: int)
    requires
        0 <= x < stride,
        0 <= y,
        (y + 1) * stride <= cells.len(),
    ensures
        cleared(cells, stride, rect).len() == cells.len(),
        cleared(cells, stride, rect)[y * stride + x] == (if rect.x <= x && x < rect.x + rect.width
            && rect.y <= y && y < rect.y + rect.height {
            0
        } else {
            cells[y * stride + x]
        }),
{
    pixel_in_a_row(cells.len() as int, stride, x, y);
}

/// Repainting wipes both stale rectangles before it draws: beyond the new sprite, a
/// pixel of either is transparent, and every other pixel stays as it was.
pub proof fn a_repaint_wipes_what_is_stale(
    cells: Seq<u32>,
    stride: int,
    one: Rect,
    other: Rect,
    sprite: Sprite,
    placement: Placement,
    palette: Palette,
    x: int,
    y: int,
)
    requires
        placement.pixel_scale > 0,
        0 <= x < stride,
        0 <= y,
        (y + 1) * stride <= cells.len(),
        ({
            let (left, top) = (placement.target.x as int, placement.target.y as int);
            let scale = placement.pixel_scale as int;
            x < left || x >= left + sprite.width * scale || y < top || y >= top + sprite.height * scale
        }),
    ensures
        ({
            let index = y * stride + x;
            let in_one = one.x <= x && x < one.x + one.width && one.y <= y && y < one.y + one.height;
            let in_other = other.x <= x && x < other.x + other.width && other.y <= y && y < other.y
                + other.height;
            let none: Option<Rect> = None;
            &&& repainted(cells, stride, (Some(one), Some(other)), sprite, placement, palette)[index] == (
            if in_one || in_other { 0 } else { cells[index] })
            &&& repainted(cells, stride, (Some(one), none), sprite, placement, palette)[index] == (
            if in_one { 0 } else { cells[index] })
            &&& repainted(cells, stride, (none, Some(other)), sprite, placement, palette)[index] == (
            if in_other { 0 } else { cells[index] })
            &&& repainted(cells, stride, (none, none), sprite, placement, palette)[index]
                == cells[index]
        }),
{
    let (left, top) = (placement.target.x as int, placement.target.y as int);
    let scale = placement.pixel_scale as int;
    let none: Option<Rect> = None;
    clearing_leaves_nothing(cells, stride, one, x, y);
    clearing_leaves_nothing(cells, stride, other, x, y);
    clearing_leaves_nothing(cleared(cells, stride, one), stride, other, x, y);
    a_blit_stays_in_its_box(sprite, palette, cells, stride, left, top, scale, x, y);
    a_blit_stays_in_its_box(
        sprite,
        palette,
        cleared(cells, stride, one),
        stride,
        left,
        top,
        scale,
        x,
        y,
    );
    a_blit_stays_in_its_box(
        sprite,
        palette,
        cleared(cells, stride, other),
        stride,
        left,
        top,
        scale,
        x,
        y,
    );
    a_blit_stays_in_its_box(
        sprite,
        palette,
        cleared(cleared(cells, stride, one), stride, other),
        stride,
        left,
        top,
        scale,
        x,
        y,
    );
}

/// Where the mask has a bit, a repaint shows the sprite, whatever was there before.
pub proof fn a_repaint_draws_at_its_target(
    cells: Seq<u32>,
    stride: int,
    stale: (Option<Rect>, Option<Rect>),
    sprite: Sprite,
    placement: Placement,
    palette: Palette,
    byte: int,
    place: int,
    row: int,
    u: int,
    v: int,
)
    requires
        sprite.well_formed(),
        placement.pixel_scale > 0,
        0 <= byte,
        0 <= place < 8,
        8 * byte + place < sprite.width,
        0 <= row < sprite.height,
        0 <= u < placement.pixel_scale,
        0 <= v < placement.pixel_scale,
        ({
            let scale = placement.pixel_scale as int;
            let (x, y) = (
                placement.target.x + (8 * byte + place) * scale + u,
                placement.target.y + row * scale + v,
            );
            0 <= x < stride && 0 <= y && (y + 1) * stride <= cells.len()
        }),
    ensures
        ({
            let scale = placement.pixel_scale as int;
            let (x, y) = (
                placement.target.x + (8 * byte + place) * scale + u,
                placement.target.y + row * scale + v,
            );
            let at = row * ((sprite.width + 7) / 8) + byte;
            let weight = pow2(place as nat) as int;
            sprite.mask@[at] as int / weight % 2 == 1 ==> repainted(
                cells,
                stride,
                stale,
                sprite,
                placement,
                palette,
            )[y * stride + x] == (if sprite.bits@[at] as int / weight % 2 == 1 {
                palette.outline
            } else {
                palette.background
            })
        }),
{
    a_blit_draws_squares(
        sprite,
        palette,
        cleared_if(cleared_if(cells, stride, stale.0), stride, stale.1),
        stride,
        placement.target.x as int,
        placement.target.y as int,
        placement.pixel_scale as int,
        byte,
        place,
        row,
        u,
        v,
    );
}

/// A rectangle that has a pixel on a surface reaches it, and one that reaches it has
/// the pixel of its corner, pulled onto the surface, there.
pub proof fn a_rectangle_reaches_where_it_has_a_pixel(
    rect: Rect,
    width: int,
    height: int,
    x: int,
    y: int,
)
    ensures
        0 <= x < width && 0 <= y < height && rect.x <= x && x < rect.x + rect.width && rect.y <= y && y
            < rect.y + rect.height ==> rect.reaches(width, height),
        rect.reaches(width, height) ==> ({
            let (a, b) = (
                if rect.x < 0 { 0 } else { rect.x as int },
                if rect.y < 0 { 0 } else { rect.y as int },
            );
            a < width && b < height && a < rect.x + rect.width && b < rect.y + rect.height
        }),
        rect.covers(x, y) <==> rect.x <= x && x < rect.x + rect.width && rect.y <= y && y < rect.y
            + rect.height,
{
}

} // verus!
