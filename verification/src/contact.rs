//! Every frame of a sheet in one picture, for eyeballing that the bitmaps and the
//! blit produce a recognisable cat.

use vstd::prelude::*;

use crate::canvas::Canvas;
use crate::sprite::{Palette, Sprite, painted};

verus! {

/// How many frames stand side by side.
pub const COLUMNS: usize = 8;

/// How large one sprite pixel is drawn.
pub const CELL_SCALE: u32 = 4;

/// How far frames are apart: one sprite, scaled up.
pub const CELL: usize = 128;

/// How wide the picture is.
pub const SHEET_WIDTH: usize = 1024;

/// Mid grey, so that both the white fill and the black outline show.
pub const GROUND: u32 = 0xff80_8080;

/// How high the picture of a number of frames is.
pub open spec fn sheet_height(frames: int) -> int {
    (frames + COLUMNS - 1) / (COLUMNS as int) * CELL
}

/// The colours that the frames are drawn with.
pub open spec fn plain() -> Palette {
    Palette { background: 0xffff_ffff, outline: 0xff00_0000 }
}

/// A picture with frames laid out on it, row by row.
pub open spec fn laid_out(sprites: Seq<Sprite>, ground: Seq<u32>) -> Seq<u32>
    decreases sprites.len(),
{
    if sprites.len() == 0 {
        ground
    } else {
        let index = sprites.len() - 1;
        painted(
            sprites.last(),
            plain(),
            laid_out(sprites.drop_last(), ground),
            SHEET_WIDTH as int,
            index % (COLUMNS as int) * CELL,
            index / (COLUMNS as int) * CELL,
            CELL_SCALE as int,
        )
    }
}

/// The picture that a sheet's frames make on a grey ground.
pub open spec fn contact_of(sprites: Seq<Sprite>) -> Seq<u32> {
    laid_out(
        sprites,
        Seq::new(
            (SHEET_WIDTH * sheet_height(sprites.len() as int)) as nat,
            |i: int| GROUND,
        ),
    )
}

/// A number in decimal digits.
pub open spec fn decimal(value: int) -> Seq<u8>
    decreases value,
{
    if value < 10 {
        seq![(48 + value) as u8]
    } else {
        decimal(value / 10).push((48 + value % 10) as u8)
    }
}

/// What a PPM file of a certain size begins with.
pub open spec fn ppm_header(width: int, height: int) -> Seq<u8> {
    seq![80u8, 54u8, 10u8] + decimal(width) + seq![32u8] + decimal(height) + seq![
        10u8,
        50u8,
        53u8,
        53u8,
        10u8,
    ]
}

/// The red, green and blue of a pixel.
pub open spec fn channels(pixel: u32) -> Seq<u8> {
    seq![(pixel / 0x1_0000 % 0x100) as u8, (pixel / 0x100 % 0x100) as u8, (pixel % 0x100) as u8]
}

/// What a PPM file holds of some pixels.
pub open spec fn ppm_body(pixels: Seq<u32>) -> Seq<u8>
    decreases pixels.len(),
{
    if pixels.len() == 0 {
        Seq::empty()
    } else {
        ppm_body(pixels.drop_last()) + channels(pixels.last())
    }
}

/// Whether so many frames make a picture with a length and coordinates that a
/// machine can hold.
pub open spec fn drawable_count(frames: int) -> bool {
    &&& sheet_height(frames) <= i32::MAX
    &&& 3 * (SHEET_WIDTH * sheet_height(frames)) + 64 <= usize::MAX
}

fn write_decimal(out: &mut Vec<u8>, value: u64)
    ensures
        final(out)@ == old(out)@ + decimal(value as int),
    decreases value,
{
    if value < 10 {
        out.push(48 + value as u8);
        assert(out@ =~= old(out)@ + decimal(value as int));
    } else {
        write_decimal(out, value / 10);
        out.push(48 + (value % 10) as u8);
        assert(out@ =~= old(out)@ + decimal(value as int));
    }
}

/// Draws the frames of a sheet into one PPM picture.
pub fn contact_sheet(sprites: &[Sprite]) -> (ppm: Vec<u8>)
    requires
        drawable_count(sprites@.len() as int),
        forall|i: int| 0 <= i < sprites@.len() ==> (#[trigger] sprites@[i]).well_formed(),
    ensures
        ppm@ == ppm_header(SHEET_WIDTH as int, sheet_height(sprites@.len() as int)) + ppm_body(
            contact_of(sprites@),
        ),
{
    let rows: usize = if sprites.len() % COLUMNS == 0 {
        sprites.len() / COLUMNS
    } else {
        sprites.len() / COLUMNS + 1
    };
    assert(rows == (sprites@.len() + 7) / 8);
    let height: usize = rows * CELL;
    let mut pixels: Vec<u32> = vec![GROUND; SHEET_WIDTH * height];
    let ghost ground = Seq::new(
        (SHEET_WIDTH * sheet_height(sprites@.len() as int)) as nat,
        |i: int| GROUND,
    );
    assert(pixels@ =~= ground);
    draw_all(&mut pixels, sprites, Ghost(ground));
    let mut ppm: Vec<u8> = vec![80u8, 54u8, 10u8];
    write_decimal(&mut ppm, SHEET_WIDTH as u64);
    ppm.push(32);
    write_decimal(&mut ppm, height as u64);
    ppm.push(10);
    ppm.push(50);
    ppm.push(53);
    ppm.push(53);
    ppm.push(10);
    assert(ppm@ =~= ppm_header(SHEET_WIDTH as int, height as int));
    write_pixels(&mut ppm, &pixels);
    ppm
}

/// Draws the frames where they belong.
fn draw_all(pixels: &mut Vec<u32>, sprites: &[Sprite], Ghost(ground): Ghost<Seq<u32>>)
    requires
        old(pixels)@ == ground,
        sheet_height(sprites@.len() as int) <= i32::MAX,
        forall|i: int| 0 <= i < sprites@.len() ==> (#[trigger] sprites@[i]).well_formed(),
    ensures
        final(pixels)@ == laid_out(sprites@, ground),
{
    let mut i: usize = 0;
    assert(sprites@.take(0) =~= Seq::empty());
    while i < sprites.len()
        invariant
            i <= sprites@.len(),
            sheet_height(sprites@.len() as int) <= i32::MAX,
            forall|i: int| 0 <= i < sprites@.len() ==> (#[trigger] sprites@[i]).well_formed(),
            pixels@ == laid_out(sprites@.take(i as int), ground),
        decreases sprites@.len() - i,
    {
        assert(sprites@.take(i + 1).drop_last() =~= sprites@.take(i as int));
        assert(sprites@.take(i + 1).last() == sprites@[i as int]);
        let x: usize = i % COLUMNS * CELL;
        let y: usize = i / COLUMNS * CELL;
        let mut canvas: Canvas = Canvas { pixels: pixels.as_mut_slice(), stride: SHEET_WIDTH };
        sprites[i].blit_argb(&mut canvas, x as i32, y as i32, CELL_SCALE, Palette::default());
        i = i + 1;
    }
    assert(sprites@.take(i as int) =~= sprites@);
}

fn write_pixels(out: &mut Vec<u8>, pixels: &Vec<u32>)
    ensures
        final(out)@ == old(out)@ + ppm_body(pixels@),
{
    let mut i: usize = 0;
    assert(out@ =~= old(out)@ + ppm_body(pixels@.take(0)));
    while i < pixels.len()
        invariant
            i <= pixels@.len(),
            out@ == old(out)@ + ppm_body(pixels@.take(i as int)),
        decreases pixels@.len() - i,
    {
        assert(pixels@.take(i + 1).drop_last() =~= pixels@.take(i as int));
        assert(pixels@.take(i + 1).last() == pixels@[i as int]);
        let pixel: u32 = pixels[i];
        out.push((pixel / 0x1_0000 % 0x100) as u8);
        out.push((pixel / 0x100 % 0x100) as u8);
        out.push((pixel % 0x100) as u8);
        assert(out@ =~= old(out)@ + ppm_body(pixels@.take(i + 1)));
        i = i + 1;
    }
    assert(pixels@.take(i as int) =~= pixels@);
}

/// A picture file holds three bytes for every pixel after its header.
pub proof fn three_bytes_a_pixel(pixels: Seq<u32>)
    ensures
        ppm_body(pixels).len() == 3 * pixels.len(),
        forall|i: int|
            0 <= i < pixels.len() ==> ppm_body(pixels).subrange(3 * i, 3 * i + 3) == channels(
                #[trigger] pixels[i],
            ),
    decreases pixels.len(),
{
    if pixels.len() > 0 {
        let rest = pixels.drop_last();
        three_bytes_a_pixel(rest);
        let last = pixels.len() - 1;
        assert(ppm_body(pixels).subrange(3 * last, 3 * last + 3) =~= channels(pixels.last()));
        assert forall|i: int| 0 <= i < last implies ppm_body(pixels).subrange(3 * i, 3 * i + 3) == channels(
            #[trigger] pixels[i],
        ) by {
            assert(rest[i] == pixels[i]);
            assert(ppm_body(pixels).subrange(3 * i, 3 * i + 3) =~= ppm_body(rest).subrange(
                3 * i,
                3 * i + 3,
            ));
        }
    }
}

} // verus!
