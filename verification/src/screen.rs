//! One output: where it sits in the layout, what its two buffers hold, and what
//! a frame changes on it.

use vstd::prelude::*;

use crate::bytes::{CastError, cast_slice, pixels_are};
use crate::canvas::{Canvas, filled, in_a_row};
use crate::rounding::{clamped, magnitude, rounded, rounded_up, rounding_is_to_nearest, saturated};
use crate::significant::{
    divide, quotient, quotient_is_near, round_significant, significant, significant_is_near,
};
use crate::sprite::{Palette, Sprite, painted, source_range};

verus! {

/// The unit a preferred scale is reported in: 120ths of a scale factor.
pub const SCALE_DENOMINATOR: u32 = 120;

/// A rectangle in surface-local pixels.
#[derive(Debug, Clone, Copy, PartialEq, Eq, Structural)]
pub struct Rect {
    pub x: i32,
    pub y: i32,
    pub width: i32,
    pub height: i32,
}

impl Rect {
    /// Whether a pixel lies in the rectangle.
    pub open spec fn covers(self, x: int, y: int) -> bool {
        self.x <= x < self.x + self.width && self.y <= y < self.y + self.height
    }

    /// Whether neither the rectangle nor a surface `width` x `height` is empty, and
    /// the rectangle reaches past all four edges of the surface, from the outside
    /// in.
    pub open spec fn reaches(self, width: int, height: int) -> bool {
        &&& self.width > 0 && self.height > 0 && width > 0 && height > 0
        &&& self.x < width && self.y < height && self.x + self.width > 0 && self.y + self.height > 0
    }

    /// Whether any pixel of this rectangle lands on a surface `width` x `height`
    /// - i.e. whether that surface has anything to redraw.
    pub fn hits(self, width: i32, height: i32) -> (hits: bool)
        ensures
            hits == exists|x: int, y: int|
                0 <= x < width && 0 <= y < height && #[trigger] self.covers(x, y),
            hits == self.reaches(width as int, height as int),
    {
        proof {
            hitting_is_sharing_a_pixel(self, width as int, height as int);
        }
        self.width > 0 && self.height > 0 && width > 0 && height > 0 && self.x < width && self.y < height
            && self.x as i64 + self.width as i64 > 0 && self.y as i64 + self.height as i64 > 0
    }
}

/// A rectangle hits a surface exactly if the two have a pixel in common.
pub proof fn hitting_is_sharing_a_pixel(rect: Rect, width: int, height: int)
    ensures
        rect.reaches(width, height) <==> exists|x: int, y: int|
            0 <= x < width && 0 <= y < height && #[trigger] rect.covers(x, y),
{
    if rect.reaches(width, height) {
        let x = if rect.x < 0 { 0 } else { rect.x as int };
        let y = if rect.y < 0 { 0 } else { rect.y as int };
        assert(rect.covers(x, y));
    }
}

/// A buffer with a rectangle of it made transparent.
pub open spec fn cleared(cells: Seq<u32>, stride: int, rect: Rect) -> Seq<u32> {
    filled(
        cells,
        stride,
        rect.x as int,
        rect.y as int,
        rect.x + rect.width,
        rect.y + rect.height,
        0,
    )
}

/// Makes a rectangle of a canvas transparent.
pub fn clear(canvas: &mut Canvas, rect: Rect)
    ensures
        final(canvas).stride == old(canvas).stride,
        final(final(canvas).pixels)@ == final(old(canvas).pixels)@,
        final(canvas).cells() == cleared(old(canvas).cells(), old(canvas).stride as int, rect),
{
    canvas.fill(
        rect.x as i64,
        rect.y as i64,
        rect.x as i64 + rect.width as i64,
        rect.y as i64 + rect.height as i64,
        0,
    );
}

/// Identifies a screen across the protocol objects hung off it.
#[derive(Debug, Clone, Copy, PartialEq, Eq, Structural)]
pub struct ScreenId(pub u32);

/// One of the two buffers, and where the sprite went on it.
#[derive(Debug, Clone, Copy, PartialEq, Eq, Structural)]
pub struct Slot {
    pub allocated: bool,
    pub last_drawn: Option<Rect>,
}

/// A slot without a buffer.
pub open spec fn empty_slot() -> Slot {
    Slot { allocated: false, last_drawn: None }
}

impl Slot {
    pub fn empty() -> (slot: Slot)
        ensures
            slot == empty_slot(),
    {
        Slot { allocated: false, last_drawn: None }
    }
}

/// Which of the two buffers.
#[derive(Debug, Clone, Copy, PartialEq, Eq, Structural)]
pub enum Side {
    First,
    Second,
}

/// The side that is not this one.
pub open spec fn opposite(side: Side) -> Side {
    match side {
        Side::First => Side::Second,
        Side::Second => Side::First,
    }
}

impl Side {
    pub fn other(self) -> (side: Side)
        ensures
            side == opposite(self),
    {
        match self {
            Side::First => Side::Second,
            Side::Second => Side::First,
        }
    }
}

/// Two buffers, alternated. A single one would never come back: the compositor
/// holds an attached buffer until another is attached, so we would be waiting
/// for a release that only our own next frame can cause.
#[derive(Debug, Clone, Copy, PartialEq, Eq, Structural)]
pub struct Slots {
    pub first: Slot,
    pub second: Slot,
}

/// Two slots without buffers.
pub open spec fn empty_slots() -> Slots {
    Slots { first: empty_slot(), second: empty_slot() }
}

impl Slots {
    /// The slot on one side.
    pub open spec fn at(self, side: Side) -> Slot {
        match side {
            Side::First => self.first,
            Side::Second => self.second,
        }
    }

    /// The slots with one of them replaced.
    pub open spec fn with(self, side: Side, slot: Slot) -> Slots {
        match side {
            Side::First => Slots { first: slot, ..self },
            Side::Second => Slots { second: slot, ..self },
        }
    }

    pub fn empty() -> (slots: Slots)
        ensures
            slots == empty_slots(),
    {
        Slots { first: Slot::empty(), second: Slot::empty() }
    }

    pub fn get(&self, side: Side) -> (slot: Slot)
        ensures
            slot == self.at(side),
    {
        match side {
            Side::First => self.first,
            Side::Second => self.second,
        }
    }

    pub fn set(&mut self, side: Side, slot: Slot)
        ensures
            *final(self) == old(self).with(side, slot),
    {
        match side {
            Side::First => {
                self.first = slot;
            },
            Side::Second => {
                self.second = slot;
            },
        }
    }
}

/// A number of pixels times a scale in 120ths. The scale is a quotient, and this a
/// product, to 53 significant bits: the result `(a, b)` stands for `a / b`.
pub open spec fn scaled(value: int, scale_120: int) -> (int, int) {
    let (factor, bottom) = quotient(scale_120, SCALE_DENOMINATOR as int);
    let top = significant(magnitude(value) * factor);
    (
        if value < 0 {
            -top
        } else {
            top
        },
        bottom,
    )
}

/// How many device pixels `logical` pixels take up at a scale in 120ths.
/// Rounding up: a buffer a hair too small would leave a gap along the right or
/// bottom edge.
pub open spec fn device_pixels(logical: int, scale_120: int) -> int {
    let (top, bottom) = scaled(logical, scale_120);
    saturated(rounded_up(top, bottom))
}

/// The device pixel closest to a logical coordinate at a scale in 120ths.
pub open spec fn device_coordinate(logical: int, scale_120: int) -> int {
    let (top, bottom) = scaled(logical, scale_120);
    saturated(rounded(top, bottom))
}

/// How large one sprite pixel is on a screen, in device pixels: the requested
/// scale times the screen's, to the nearest whole number but at least one. A
/// 1-bit bitmap resampled by 1.25 turns to mush.
pub open spec fn pixel_scale_of(scale: int, scale_120: int) -> int {
    let (top, bottom) = scaled(scale, scale_120);
    clamped(rounded(top, bottom), 1, i32::MAX as int)
}

/// The product of a coordinate and a scale is well within 128 bits.
proof fn scaled_range(coordinate: int, scale: int)
    requires
        -0x8000_0000 <= coordinate <= 0xffff_ffff,
        0 <= scale <= 0xffff_ffff,
    ensures
        -0x1_0000_0000_0000_0000 <= coordinate * scale <= 0x1_0000_0000_0000_0000,
        coordinate >= 0 ==> coordinate * scale >= 0,
{
    assert(-0x1_0000_0000_0000_0000 <= coordinate * scale <= 0x1_0000_0000_0000_0000 && (coordinate >= 0
        ==> coordinate * scale >= 0)) by (nonlinear_arith)
        requires
            -0x8000_0000 <= coordinate <= 0xffff_ffff,
            0 <= scale <= 0xffff_ffff,
    ;
}

/// The two halves of a scaled number are of moderate size.
proof fn scaled_is_moderate(value: int, scale_120: int)
    requires
        -0x8000_0000 <= value <= 0xffff_ffff,
        0 <= scale_120 <= 0xffff_ffff,
    ensures
        ({
            let (factor, bottom) = quotient(scale_120, 120);
            let (top, _) = scaled(value, scale_120);
            &&& 0 <= factor <= 0x20_0000_0000_0000
            &&& 0 <= magnitude(value) * factor <= 0x1_0000_0000 * 0x20_0000_0000_0000
            &&& 1 <= bottom <= 0x1000_0000_0000_0000
            &&& 0 <= magnitude(top) <= 2 * (0x1_0000_0000 * 0x20_0000_0000_0000)
            &&& value < 0 ==> top <= 0
            &&& value >= 0 ==> top >= 0
        }),
{
    quotient_is_near(scale_120, 120);
    let (factor, bottom) = quotient(scale_120, 120);
    if scale_120 > 0 {
        assert(bottom <= 0x1000_0000_0000_0000) by (nonlinear_arith)
            requires
                scale_120 >= 1,
                scale_120 * bottom < 0x20_0000_0000_0000 * 120,
                bottom > 0,
        ;
    }
    assert(0 <= magnitude(value) * factor <= 0x1_0000_0000 * 0x20_0000_0000_0000) by (nonlinear_arith)
        requires
            0 <= magnitude(value) <= 0x1_0000_0000,
            0 <= factor <= 0x20_0000_0000_0000,
    ;
    significant_is_near(magnitude(value) * factor);
}

/// Rounding to 53 significant bits twice makes no visible difference: as long as
/// the result has no more than 33 bits, it is within a two-thousandth of a 120th of
/// the exact product.
proof fn scaling_is_close(value: int, scale_120: int)
    requires
        -0x8000_0000 <= value <= 0xffff_ffff,
        0 <= scale_120 <= 0xffff_ffff,
        magnitude(value) * scale_120 <= 120 * 0x2_0000_0000,
    ensures
        ({
            let (top, bottom) = scaled(value, scale_120);
            &&& bottom > 0
            &&& -bottom <= 2048 * (120 * top - (value * scale_120) * bottom) <= bottom
        }),
{
    let (factor, b) = quotient(scale_120, 120);
    let size = magnitude(value);
    let product = size * factor;
    let top = significant(product);
    scaled_is_moderate(value, scale_120);
    quotient_is_near(scale_120, 120);
    significant_is_near(product);
    let whole = (size * scale_120) * b;
    if scale_120 == 0 {
        assert(product == 0) by (nonlinear_arith)
            requires
                product == size * factor,
                factor == 0,
        ;
        assert(size * 0 == 0 && 0 * b == 0 && value * 0 == 0);
    } else {
        // What the quotient is off by.
        assert(120 * product - whole == size * (120 * factor - scale_120 * b)) by (nonlinear_arith)
            requires
                product == size * factor,
                whole == (size * scale_120) * b,
        ;
        assert(-60 * size <= size * (120 * factor - scale_120 * b) <= 60 * size) by (nonlinear_arith)
            requires
                -60 <= 120 * factor - scale_120 * b <= 60,
                size >= 0,
        ;
        // The quotient's divisor is large against that.
        assert(size * 0x8_0000 <= b + b) by (nonlinear_arith)
            requires
                0x10_0000_0000_0000 * 120 <= scale_120 * b,
                size * scale_120 <= 120 * 0x2_0000_0000,
                size >= 0,
                scale_120 >= 1,
                b > 0,
        {
            assert(size * (0x10_0000_0000_0000 * 120) <= size * (scale_120 * b));
            assert(size * (scale_120 * b) == (size * scale_120) * b);
            assert((size * scale_120) * b <= (120 * 0x2_0000_0000) * b);
        }
        assert(whole <= (120 * 0x2_0000_0000) * b) by (nonlinear_arith)
            requires
                whole == (size * scale_120) * b,
                size * scale_120 <= 120 * 0x2_0000_0000,
                b > 0,
        ;
        assert(-b <= 2048 * (120 * top - whole) <= b);
        if value < 0 {
            assert((value * scale_120) * b == -whole) by (nonlinear_arith)
                requires
                    whole == (size * scale_120) * b,
                    size == -value,
            ;
        }
    }
}

/// The device pixel of a coordinate is the one closest to the exact product: they
/// are at most half a device pixel apart.
pub proof fn coordinates_are_closest(value: int, scale_120: int)
    requires
        -0x8000_0000 <= value <= 0xffff_ffff,
        0 <= scale_120 <= 0xffff_ffff,
        magnitude(value) * scale_120 <= 120 * 0x1_0000_0000,
    ensures
        ({
            let (top, bottom) = scaled(value, scale_120);
            -60 <= 120 * rounded(top, bottom) - value * scale_120 <= 60
        }),
{
    scaling_is_close(value, scale_120);
    let (top, bottom) = scaled(value, scale_120);
    let (device, exact) = (rounded(top, bottom), value * scale_120);
    rounding_is_to_nearest(top, bottom);
    assert(-60 <= 120 * device - exact <= 60) by (nonlinear_arith)
        requires
            bottom > 0,
            -bottom <= 2048 * (120 * top - exact * bottom) <= bottom,
            -bottom <= 2 * (device * bottom - top) <= bottom,
    {
        let gap = 120 * device - exact;
        assert(gap * bottom == 120 * (device * bottom - top) + (120 * top - exact * bottom));
        assert(-61 * bottom < gap * bottom < 61 * bottom);
    }
}

/// A buffer is never too small for its surface, and by less than a device pixel and
/// a bit too large.
pub proof fn buffers_are_large_enough(logical: int, scale_120: int)
    requires
        0 <= logical <= i32::MAX,
        0 <= scale_120 <= 0xffff_ffff,
        logical * scale_120 <= 120 * i32::MAX,
    ensures
        logical * scale_120 <= 120 * device_pixels(logical, scale_120) <= logical * scale_120 + 120,
{
    scaling_is_close(logical, scale_120);
    let (top, bottom) = scaled(logical, scale_120);
    let (device, exact) = (rounded_up(top, bottom), logical * scale_120);
    let (q, r) = ((-top) / bottom, (-top) % bottom);
    assert(-top == q * bottom + r && 0 <= r < bottom) by (nonlinear_arith)
        requires
            bottom > 0,
            q == (-top) / bottom,
            r == (-top) % bottom,
    ;
    assert(exact <= 120 * device <= exact + 120) by (nonlinear_arith)
        requires
            bottom > 0,
            -bottom <= 2048 * (120 * top - exact * bottom) <= bottom,
            -top == q * bottom + r,
            0 <= r < bottom,
            device == -q,
    {
        let gap = 120 * device - exact;
        assert(gap * bottom == 120 * r + (120 * top - exact * bottom));
        assert(-1 * bottom < gap * bottom < 121 * bottom);
    }
    assert(exact >= 0) by (nonlinear_arith)
        requires
            exact == logical * scale_120,
            logical >= 0,
            scale_120 >= 0,
    ;
}

/// Scales a number of pixels.
fn scale_by(value: i64, scale_120: u32) -> (result: (i128, i128))
    requires
        -0x8000_0000 <= value <= 0xffff_ffff,
    ensures
        (result.0 as int, result.1 as int) == scaled(value as int, scale_120 as int),
        1 <= result.1 <= 0x1000_0000_0000_0000,
        magnitude(result.0 as int) <= 2 * (0x1_0000_0000 * 0x20_0000_0000_0000),
{
    proof {
        scaled_is_moderate(value as int, scale_120 as int);
    }
    let (factor, bottom): (u128, u128) = divide(scale_120 as u128, 120);
    let size: u128 = if value < 0 { (-value) as u128 } else { value as u128 };
    let top: u128 = round_significant(size * factor);
    if value < 0 {
        (-(top as i128), bottom as i128)
    } else {
        (top as i128, bottom as i128)
    }
}

fn scale_up(logical: i32, scale_120: u32) -> (device: i32)
    ensures
        device == device_pixels(logical as int, scale_120 as int),
{
    let (top, bottom): (i128, i128) = scale_by(logical as i64, scale_120);
    let device: i128 = if top >= 0 { (top + (bottom - 1)) / bottom } else { -((-top) / bottom) };
    proof {
        if top >= 0 {
            rounded_up_by_adding(top as int, bottom as int);
        }
    }
    narrow(device)
}

/// Rounding up is cutting off after adding all but one of a divisor.
proof fn rounded_up_by_adding(num: int, den: int)
    requires
        num >= 0,
        den > 0,
    ensures
        (num + (den - 1)) / den == rounded_up(num, den),
{
    let (q, r) = ((-num) / den, (-num) % den);
    assert(-num == q * den + r && 0 <= r < den) by (nonlinear_arith)
        requires
            den > 0,
            q == (-num) / den,
            r == (-num) % den,
    ;
    assert(num + (den - 1) == (-q) * den + (den - 1 - r)) by (nonlinear_arith)
        requires
            -num == q * den + r,
    ;
    vstd::arithmetic::div_mod::lemma_fundamental_div_mod_converse(num + (den - 1), den, -q, den - 1 - r);
}

fn scale_coordinate(logical: i32, scale_120: u32) -> (device: i32)
    ensures
        device == device_coordinate(logical as int, scale_120 as int),
{
    let (top, bottom): (i128, i128) = scale_by(logical as i64, scale_120);
    narrow(round_quotient(top, bottom))
}

/// Divides to the nearest whole number.
fn round_quotient(top: i128, bottom: i128) -> (quotient: i128)
    requires
        1 <= bottom <= 0x1000_0000_0000_0000,
        magnitude(top as int) <= 2 * (0x1_0000_0000 * 0x20_0000_0000_0000),
    ensures
        quotient == rounded(top as int, bottom as int),
{
    if top >= 0 {
        (2 * top + bottom) / (2 * bottom)
    } else {
        -((2 * -top + bottom) / (2 * bottom))
    }
}

/// Narrows to `i32`, stopping at the ends of its range.
fn narrow(value: i128) -> (narrow: i32)
    ensures
        narrow == saturated(value as int),
{
    if value < i32::MIN as i128 {
        i32::MIN
    } else if value > i32::MAX as i128 {
        i32::MAX
    } else {
        value as i32
    }
}

/// One output: its surface, its buffers, and where it sits in the layout.
#[derive(Debug)]
pub struct Screen {
    pub id: ScreenId,
    /// The number the compositor announced the output under.
    pub output: u32,
    /// The compositor's name for this output, e.g. `"HDMI-A-1"`. What the caller
    /// uses to say which screens are covered by a fullscreen window.
    pub name: String,
    /// Whether the buffer is scaled down to the logical size the surface was
    /// given, so that it can hold real device pixels.
    pub viewport: bool,
    /// The compositor's preferred scale, in 120ths. 120 means 1.0.
    pub scale_120: u32,
    /// Where this output's top-left sits in the global logical layout.
    pub position: (i32, i32),
    /// Surface size in logical pixels.
    pub size: (i32, i32),
    /// How much of the layout this output takes up, as far as is known: the size
    /// its surface was last configured at. It outlives the surface, so that the
    /// layout stays the same while the surface is off the screen.
    pub area: Option<(i32, i32)>,
    pub slots: Slots,
    /// Which slot to prefer next frame - the one not currently on screen.
    pub next_slot: Side,
    pub configured: bool,
    /// Set while something is fullscreen here. The surface is unmapped rather
    /// than drawn transparent: a mapped overlay, however empty, keeps the
    /// compositor from handing the fullscreen window straight to the display
    /// controller.
    pub hidden: bool,
}

/// A sprite's place on one screen, in the pixels of the screen's buffers.
#[derive(Debug, Clone, Copy, PartialEq, Eq)]
pub struct Placement {
    /// The size of the buffers.
    pub device_size: (i32, i32),
    /// How large one sprite pixel is.
    pub pixel_scale: u32,
    /// What the sprite covers.
    pub target: Rect,
}

/// What to do about one screen in one frame.
#[derive(Debug, Clone, Copy, PartialEq, Eq)]
pub enum Frame {
    /// The sprite neither was nor will be here. Committing anyway would wake the
    /// compositor for every screen eight times a second to change nothing.
    Untouched,
    /// Both buffers are still held by the compositor. The frame is skipped rather
    /// than tearing what is on screen.
    Busy,
    /// Draw on a buffer, after clearing the stale rectangles.
    Paint { side: Side, stale: (Option<Rect>, Option<Rect>) },
}

/// Whether a number can be the side of a rectangle when scaled.
pub open spec fn side_fits(side: u32, pixel_scale: int) -> bool {
    side * pixel_scale <= i32::MAX
}

impl Screen {
    /// Whether there is a surface to draw on.
    pub open spec fn drawable(self) -> bool {
        !self.hidden && self.configured && self.size.0 > 0 && self.size.1 > 0
    }

    /// The buffer size.
    pub open spec fn device_size_of(self) -> (int, int) {
        if self.viewport {
            (
                device_pixels(self.size.0 as int, self.scale_120 as int),
                device_pixels(self.size.1 as int, self.scale_120 as int),
            )
        } else {
            (self.size.0 as int, self.size.1 as int)
        }
    }

    /// Whether a sprite of a certain size, scaled up, is still an `i32` wide and
    /// high here.
    pub open spec fn has_room(self, scale: u32, width: u32, height: u32) -> bool {
        let pixel_scale = pixel_scale_of(scale as int, self.scale_120 as int);
        side_fits(width, pixel_scale) && side_fits(height, pixel_scale)
    }

    /// Where a sprite with its top-left at the logical pixel `(x, y)` of this
    /// output goes.
    pub open spec fn placement_of(
        self,
        scale: u32,
        width: u32,
        height: u32,
        x: int,
        y: int,
    ) -> Placement {
        let pixel_scale = pixel_scale_of(scale as int, self.scale_120 as int);
        Placement {
            device_size: (self.device_size_of().0 as i32, self.device_size_of().1 as i32),
            pixel_scale: pixel_scale as u32,
            target: Rect {
                x: (if self.viewport { device_coordinate(x, self.scale_120 as int) } else { x }) as i32,
                y: (if self.viewport { device_coordinate(y, self.scale_120 as int) } else { y }) as i32,
                width: (width * pixel_scale) as i32,
                height: (height * pixel_scale) as i32,
            },
        }
    }

    /// The buffer size in real device pixels, which is what is painted into when
    /// there is a viewport to scale it back down.
    pub fn device_size(&self) -> (size: (i32, i32))
        ensures
            (size.0 as int, size.1 as int) == self.device_size_of(),
    {
        if !self.viewport {
            return self.size;
        }
        (scale_up(self.size.0, self.scale_120), scale_up(self.size.1, self.scale_120))
    }

    /// How large one sprite pixel is here.
    pub fn pixel_scale(&self, scale: u32) -> (pixel_scale: u32)
        ensures
            pixel_scale == pixel_scale_of(scale as int, self.scale_120 as int),
            1 <= pixel_scale <= i32::MAX,
    {
        let (top, bottom): (i128, i128) = scale_by(scale as i64, self.scale_120);
        let scaled: i128 = round_quotient(top, bottom);
        if scaled < 1 {
            1
        } else if scaled > i32::MAX as i128 {
            i32::MAX as u32
        } else {
            scaled as u32
        }
    }

    /// Whether a sprite of a certain size can be placed here.
    pub fn sprite_fits(&self, scale: u32, width: u32, height: u32) -> (fits: bool)
        ensures
            fits == self.has_room(scale, width, height),
    {
        let pixel_scale: u128 = self.pixel_scale(scale) as u128;
        proof {
            scaled_range(width as int, pixel_scale as int);
            scaled_range(height as int, pixel_scale as int);
        }
        width as u128 * pixel_scale <= i32::MAX as u128 && height as u128 * pixel_scale <= i32::MAX as u128
    }

    /// Where the viewport has to squeeze the device-pixel buffer to: the logical
    /// size the layer surface was configured at.
    ///
    /// The preferred scale can arrive before the first configure, and a
    /// destination of 0x0 is a protocol error rather than a no-op.
    pub fn destination(&self) -> (size: Option<(i32, i32)>)
        ensures
            size == (if self.viewport && self.size.0 > 0 && self.size.1 > 0 {
                Some(self.size)
            } else {
                None
            }),
    {
        if self.size.0 <= 0 || self.size.1 <= 0 {
            return None;
        }
        if self.viewport {
            Some(self.size)
        } else {
            None
        }
    }

    /// Places a sprite with its top-left at `(x, y)` in this output's own logical
    /// pixels, if there is a surface to draw on.
    ///
    /// The caller has already translated out of the layout-wide space, so an
    /// animal standing on another monitor simply lands outside this surface and
    /// is clipped away - and one straddling the edge is drawn half here.
    pub fn place(&self, scale: u32, width: u32, height: u32, x: i32, y: i32) -> (placement: Option<
        Placement,
    >)
        requires
            self.drawable() ==> self.has_room(scale, width, height),
        ensures
            placement == (if self.drawable() {
                Some(self.placement_of(scale, width, height, x as int, y as int))
            } else {
                None
            }),
    {
        if self.hidden || !self.configured || self.size.0 <= 0 || self.size.1 <= 0 {
            return None;
        }
        let pixel_scale: u32 = self.pixel_scale(scale);
        let (left, top): (i32, i32) = if self.viewport {
            (scale_coordinate(x, self.scale_120), scale_coordinate(y, self.scale_120))
        } else {
            (x, y)
        };
        proof {
            scaled_range(width as int, pixel_scale as int);
            scaled_range(height as int, pixel_scale as int);
        }
        Some(
            Placement {
                device_size: self.device_size(),
                pixel_scale,
                target: Rect {
                    x: left,
                    y: top,
                    width: (width as u64 * pixel_scale as u64) as i32,
                    height: (height as u64 * pixel_scale as u64) as i32,
                },
            },
        )
    }

    /// Whether a slot's sprite reaches onto a surface.
    pub open spec fn shows_on(slot: Slot, width: int, height: int) -> bool {
        slot.last_drawn matches Some(rect) && rect.reaches(width, height)
    }

    /// Whether drawing a sprite changes anything on this screen: it is going to be
    /// here, or one of the buffers still shows it here.
    pub open spec fn involved(self, placement: Placement) -> bool {
        let (width, height) = (placement.device_size.0 as int, placement.device_size.1 as int);
        ||| placement.target.reaches(width, height)
        ||| Screen::shows_on(self.slots.first, width, height)
        ||| Screen::shows_on(self.slots.second, width, height)
    }

    /// Whether drawing a sprite changes anything on this screen. With several
    /// monitors most of them have nothing to do on most frames: the animal is
    /// elsewhere and was elsewhere last frame too.
    pub fn touched(&self, placement: &Placement) -> (touched: bool)
        ensures
            touched == self.involved(*placement),
    {
        let (width, height): (i32, i32) = placement.device_size;
        if placement.target.hits(width, height) {
            return true;
        }
        if let Some(rect) = self.slots.first.last_drawn {
            if rect.hits(width, height) {
                return true;
            }
        }
        if let Some(rect) = self.slots.second.last_drawn {
            if rect.hits(width, height) {
                return true;
            }
        }
        false
    }

    /// Notes that a slot has a fresh, transparent buffer.
    pub fn allocated(&mut self, side: Side)
        ensures
            *final(self) == (Screen {
                slots: old(self).slots.with(side, (Slot { allocated: true, last_drawn: None })),
                ..*old(self)
            }),
    {
        self.slots.set(side, Slot { allocated: true, last_drawn: None });
    }

    /// The slot to draw the next frame on, given which buffers the compositor has
    /// released: the one not on screen if it can be had, else the other.
    pub open spec fn free_slot(self, first_released: bool, second_released: bool) -> Option<Side> {
        let free = |side: Side|
            self.slots.at(side).allocated && match side {
                Side::First => first_released,
                Side::Second => second_released,
            };
        if free(self.next_slot) {
            Some(self.next_slot)
        } else if free(opposite(self.next_slot)) {
            Some(opposite(self.next_slot))
        } else {
            None
        }
    }

    /// Picks the slot to draw the next frame on. If both buffers are still held
    /// by the compositor there is none, and the frame is skipped rather than
    /// tearing what is on screen.
    pub fn pick_slot(&self, first_released: bool, second_released: bool) -> (side: Option<Side>)
        ensures
            side == self.free_slot(first_released, second_released),
    {
        let first: bool = self.slots.first.allocated && first_released;
        let second: bool = self.slots.second.allocated && second_released;
        match self.next_slot {
            Side::First => if first {
                Some(Side::First)
            } else if second {
                Some(Side::Second)
            } else {
                None
            },
            Side::Second => if second {
                Some(Side::Second)
            } else if first {
                Some(Side::First)
            } else {
                None
            },
        }
    }

    /// The rectangles that have to go before drawing on a slot: where its own
    /// sprite was two frames ago, and where the visible buffer shows it.
    fn stale(&self, side: Side) -> (stale: (Option<Rect>, Option<Rect>))
        ensures
            stale == (self.slots.at(side).last_drawn, self.slots.at(opposite(side)).last_drawn),
    {
        (self.slots.get(side).last_drawn, self.slots.get(side.other()).last_drawn)
    }

    /// The screen with a sprite drawn on a slot.
    pub open spec fn drawn_on(self, side: Side, target: Rect) -> Screen {
        Screen {
            next_slot: opposite(side),
            slots: self.slots.with(side, Slot { last_drawn: Some(target), ..self.slots.at(side) }),
            ..self
        }
    }

    /// Notes that a sprite is drawn on a slot, which is then the one on screen.
    fn drawn(&mut self, side: Side, target: Rect)
        ensures
            *final(self) == old(self).drawn_on(side, target),
    {
        let slot: Slot = self.slots.get(side);
        self.slots.set(side, Slot { allocated: slot.allocated, last_drawn: Some(target) });
        self.next_slot = side.other();
    }

    /// Decides what to do about this screen in a frame that puts the sprite at
    /// `placement`, given which buffers the compositor has released. A slot that
    /// is to be painted counts as drawn on from here on.
    pub fn begin_frame(
        &mut self,
        placement: &Placement,
        first_released: bool,
        second_released: bool,
    ) -> (frame: Frame)
        ensures
            !old(self).involved(*placement) ==> frame == Frame::Untouched && *final(self) == *old(self),
            old(self).involved(*placement) ==> match old(self).free_slot(
                first_released,
                second_released,
            ) {
                None => frame == Frame::Busy && *final(self) == *old(self),
                Some(side) => {
                    &&& frame == (Frame::Paint {
                        side,
                        stale: (
                            old(self).slots.at(side).last_drawn,
                            old(self).slots.at(opposite(side)).last_drawn,
                        ),
                    })
                    &&& *final(self) == old(self).drawn_on(side, placement.target)
                },
            },
    {
        if !self.touched(placement) {
            return Frame::Untouched;
        }
        match self.pick_slot(first_released, second_released) {
            None => Frame::Busy,
            Some(side) => {
                let stale: (Option<Rect>, Option<Rect>) = self.stale(side);
                self.drawn(side, placement.target);
                Frame::Paint { side, stale }
            },
        }
    }

    /// Notes that a buffer could not be attached and is gone.
    pub fn lost(&mut self, side: Side)
        ensures
            *final(self) == (Screen {
                slots: old(self).slots.with(
                    side,
                    (Slot { allocated: false, ..old(self).slots.at(side) }),
                ),
                ..*old(self)
            }),
    {
        let slot: Slot = self.slots.get(side);
        self.slots.set(side, Slot { allocated: false, last_drawn: slot.last_drawn });
    }

    /// Notes that the surface is taken off the screen entirely. The buffers go
    /// with it, so that the frame after a remap starts from a cleared canvas, and
    /// it counts as unconfigured until the compositor configures it again.
    pub fn unmap(&mut self)
        ensures
            *final(self) == old(self).unmapped(),
    {
        self.slots = Slots::empty();
        self.configured = false;
    }

    pub open spec fn unmapped(self) -> Screen {
        Screen { slots: empty_slots(), configured: false, ..self }
    }

    /// Notes that the surface was replaced by a fresh one, which the coming
    /// configure will fill in again.
    pub fn rebuild(&mut self)
        ensures
            *final(self) == old(self).rebuilt(),
    {
        self.size = (0, 0);
        self.slots = Slots::empty();
        self.next_slot = Side::First;
        self.configured = false;
    }

    pub open spec fn rebuilt(self) -> Screen {
        Screen {
            size: (0, 0),
            slots: empty_slots(),
            next_slot: Side::First,
            configured: false,
            ..self
        }
    }
}

/// The buffers alternate: once a frame is painted, the next one goes to the
/// other buffer as soon as the compositor lets go of it.
pub proof fn the_buffers_alternate(
    screen: Screen,
    side: Side,
    target: Rect,
    first_released: bool,
    second_released: bool,
)
    requires
        screen.slots.at(opposite(side)).allocated,
        match opposite(side) {
            Side::First => first_released,
            Side::Second => second_released,
        },
    ensures
        screen.drawn_on(side, target).free_slot(first_released, second_released) == Some(opposite(side)),
{
}

/// A buffer with up to one rectangle of it made transparent.
pub open spec fn cleared_if(cells: Seq<u32>, stride: int, rect: Option<Rect>) -> Seq<u32> {
    match rect {
        None => cells,
        Some(rect) => cleared(cells, stride, rect),
    }
}

/// A buffer with the stale rectangles made transparent and a sprite drawn over
/// the rest.
pub open spec fn repainted(
    cells: Seq<u32>,
    stride: int,
    stale: (Option<Rect>, Option<Rect>),
    sprite: Sprite,
    placement: Placement,
    palette: Palette,
) -> Seq<u32> {
    painted(
        sprite,
        palette,
        cleared_if(cleared_if(cells, stride, stale.0), stride, stale.1),
        stride,
        placement.target.x as int,
        placement.target.y as int,
        placement.pixel_scale as int,
    )
}

/// Whether a placement is one of a certain sprite.
pub open spec fn places_sprite(placement: Placement, sprite: Sprite) -> bool {
    &&& placement.pixel_scale > 0
    &&& placement.target.width == sprite.width * placement.pixel_scale
    &&& placement.target.height == sprite.height * placement.pixel_scale
}

/// Moves the sprite on a canvas. Only the stale rectangles and the one it is
/// going to ever change: repainting a 4K screen eight times a second to move 32
/// pixels would be silly.
pub fn repaint(
    canvas: &mut Canvas,
    stale: (Option<Rect>, Option<Rect>),
    sprite: &Sprite,
    placement: &Placement,
    palette: Palette,
)
    requires
        sprite.well_formed(),
        places_sprite(*placement, *sprite),
    ensures
        final(canvas).stride == old(canvas).stride,
        final(final(canvas).pixels)@ == final(old(canvas).pixels)@,
        final(canvas).cells() == repainted(
            old(canvas).cells(),
            old(canvas).stride as int,
            stale,
            *sprite,
            *placement,
            palette,
        ),
{
    if let Some(rect) = stale.0 {
        clear(canvas, rect);
    }
    if let Some(rect) = stale.1 {
        clear(canvas, rect);
    }
    sprite.blit_argb(
        canvas,
        placement.target.x,
        placement.target.y,
        placement.pixel_scale,
        palette,
    );
}

/// Moves the sprite in the bytes of a buffer with rows of `stride` pixels.
pub fn repaint_bytes(
    bytes: &mut [u8],
    stride: usize,
    stale: (Option<Rect>, Option<Rect>),
    sprite: &Sprite,
    placement: &Placement,
    palette: Palette,
) -> (done: Result<(), CastError>)
    requires
        sprite.well_formed(),
        places_sprite(*placement, *sprite),
    ensures
        match done {
            Ok(()) => exists|little_endian: bool, before: Seq<u32>| #[trigger]
                pixels_are(little_endian, old(bytes)@, before) && pixels_are(
                    little_endian,
                    final(bytes)@,
                    repainted(before, stride as int, stale, *sprite, *placement, palette),
                ),
            Err(error) => {
                &&& final(bytes)@ == old(bytes)@
                &&& error == CastError::Ragged <==> old(bytes)@.len() % 4 != 0
            },
        },
{
    if bytes.len() % 4 != 0 {
        return Err(CastError::Ragged);
    }
    match cast_slice(bytes) {
        Ok(pixels) => {
            let mut canvas: Canvas = Canvas { pixels, stride };
            repaint(&mut canvas, stale, sprite, placement, palette);
            Ok(())
        },
        Err(_) => Err(CastError::Misaligned),
    }
}

/// Whether a pixel of a buffer lies in a rectangle.
pub open spec fn pixel_in(len: int, stride: int, index: int, rect: Option<Rect>) -> bool {
    match rect {
        None => false,
        Some(rect) => in_a_row(len, stride, index) && rect.covers(index % stride, index / stride),
    }
}

/// Whether a buffer is transparent everywhere outside the rectangle that its
/// sprite was drawn in.
pub open spec fn transparent_outside(cells: Seq<u32>, stride: int, rect: Option<Rect>) -> bool {
    forall|i: int|
        0 <= i < cells.len() && !pixel_in(cells.len() as int, stride, i, rect) ==> #[trigger] cells[i]
            == 0
}

/// A fully transparent buffer.
pub open spec fn transparent(len: nat) -> Seq<u32> {
    Seq::new(len, |i: int| 0u32)
}

/// A buffer that was transparent but for its last sprite shows, after a frame,
/// the new sprite on a transparent ground and nothing else - though only the
/// stale rectangles and the new one were touched.
pub proof fn a_frame_shows_the_sprite_alone(
    cells: Seq<u32>,
    stride: int,
    stale: (Option<Rect>, Option<Rect>),
    sprite: Sprite,
    placement: Placement,
    palette: Palette,
)
    requires
        places_sprite(placement, sprite),
        transparent_outside(cells, stride, stale.0),
    ensures
        repainted(cells, stride, stale, sprite, placement, palette) == painted(
            sprite,
            palette,
            transparent(cells.len()),
            stride,
            placement.target.x as int,
            placement.target.y as int,
            placement.pixel_scale as int,
        ),
        transparent_outside(
            repainted(cells, stride, stale, sprite, placement, palette),
            stride,
            Some(placement.target),
        ),
{
    let once = cleared_if(cells, stride, stale.0);
    let twice = cleared_if(once, stride, stale.1);
    assert forall|i: int| 0 <= i < cells.len() implies once[i] == 0 by {
        assert(pixel_in(cells.len() as int, stride, i, stale.0) || cells[i] == 0);
    }
    assert(twice =~= transparent(cells.len()));
    let now = repainted(cells, stride, stale, sprite, placement, palette);
    assert forall|i: int|
        0 <= i < now.len() && !pixel_in(now.len() as int, stride, i, Some(placement.target)) implies now[i]
        == 0 by {
        let target = placement.target;
        let scale = placement.pixel_scale as int;
        source_range(i % stride - target.x, scale, sprite.width as int);
        source_range(i / stride - target.y, scale, sprite.height as int);
    }
}

/// Every pixel that a frame changes on the screen lies in one of the rectangles
/// that are reported as damaged: the one the visible buffer shows the sprite in,
/// and the one it is going to.
pub proof fn damage_covers_every_change(
    cells: Seq<u32>,
    shown: Seq<u32>,
    stride: int,
    stale: (Option<Rect>, Option<Rect>),
    sprite: Sprite,
    placement: Placement,
    palette: Palette,
    index: int,
)
    requires
        places_sprite(placement, sprite),
        transparent_outside(cells, stride, stale.0),
        shown.len() == cells.len(),
        transparent_outside(shown, stride, stale.1),
        0 <= index < shown.len(),
        repainted(cells, stride, stale, sprite, placement, palette)[index] != shown[index],
    ensures
        pixel_in(shown.len() as int, stride, index, stale.1) || pixel_in(
            shown.len() as int,
            stride,
            index,
            Some(placement.target),
        ),
{
    a_frame_shows_the_sprite_alone(cells, stride, stale, sprite, placement, palette);
    let now = repainted(cells, stride, stale, sprite, placement, palette);
    assert(now.len() == cells.len());
    assert(now[index] != 0 || shown[index] != 0);
}

} // verus!
