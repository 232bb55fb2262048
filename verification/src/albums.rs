//! Where the sprites of a sheet come from, and where a contact sheet shows them.

use vstd::arithmetic::power2::pow2;
use vstd::prelude::*;

use crate::contact::{
    channels, contact_of, decimal, laid_out, plain, ppm_body, ppm_header, sheet_height,
    three_bytes_a_pixel,
};
use crate::sheet::{
    Animal, BitmapFile, Fault, Pair, SheetError, Sheets, collected, comes_to, fault_of, frame_of,
    holds_mask, with_bitmap,
};
use crate::sprite::{Sprite, painted};
use crate::strokes::{a_blit_draws_squares, a_blit_stays_in_its_box};
use crate::xbm::{Bitmap, XbmError, bitmap_of};

verus! {

/// An ending that was put on a text is one it ends with, and taking as much off again
/// gives the text back.
proof fn ending_comes_off(text: Seq<char>, ending: Seq<char>)
    ensures
        ending.is_suffix_of(text + ending),
        (text + ending).take((text + ending).len() - ending.len()) == text,
{
    let whole = text + ending;
    assert(whole.subrange(whole.len() - ending.len(), whole.len() as int) =~= ending);
    assert(whole.take(whole.len() - ending.len()) =~= text);
}

/// A file is named after its frame, then its animal if that is told, then that it is a
/// mask if it is one.
pub proof fn files_are_named_by_frame_animal_and_mask(frame: Seq<char>, animal: Seq<char>)
    requires
        !("_mask"@).is_suffix_of(frame),
        !("_mask"@).is_suffix_of(frame + ("_"@ + animal)),
        !("_"@ + animal).is_suffix_of(frame),
    ensures
        frame_of(frame, animal) == frame,
        !holds_mask(frame),
        frame_of(frame + ("_"@ + animal), animal) == frame,
        !holds_mask(frame + ("_"@ + animal)),
        frame_of(frame + "_mask"@, animal) == frame,
        holds_mask(frame + "_mask"@),
        frame_of(frame + ("_"@ + animal) + "_mask"@, animal) == frame,
        holds_mask(frame + ("_"@ + animal) + "_mask"@),
{
    ending_comes_off(frame, "_mask"@);
    ending_comes_off(frame, "_"@ + animal);
    ending_comes_off(frame + ("_"@ + animal), "_mask"@);
}

/// One more file fills in the mask of its frame if it is a mask, and the image if it is
/// not, and leaves everything else alone.
pub proof fn a_file_fills_in_its_half(
    frames: Map<Seq<char>, Pair>,
    animal: Seq<char>,
    stem: Seq<char>,
    bitmap: Bitmap,
    name: Seq<char>,
)
    ensures
        ({
            let now = with_bitmap(frames, animal, stem, bitmap);
            let own = frame_of(stem, animal);
            let masked = ("_mask"@).is_suffix_of(stem);
            let none: Option<Bitmap> = None;
            &&& now.dom().contains(own)
            &&& masked ==> now[own].mask == Some(bitmap)
            &&& masked ==> now[own].image == (if frames.dom().contains(own) { frames[own].image } else { none })
            &&& !masked ==> now[own].image == Some(bitmap)
            &&& !masked ==> now[own].mask == (if frames.dom().contains(own) { frames[own].mask } else { none })
            &&& name != own ==> (now.dom().contains(name) <==> frames.dom().contains(name))
            &&& name != own && frames.dom().contains(name) ==> now[name] == frames[name]
        }),
{
}

/// Files are read in their order. The first that is no bitmap is to blame, and no sheet
/// comes of them.
pub proof fn files_are_read_in_their_order(
    animal: Seq<char>,
    files: Seq<BitmapFile>,
    file: BitmapFile,
    outcome: Result<Vec<Sprite>, SheetError>,
)
    ensures
        collected(animal, Seq::empty()) == Ok::<Map<Seq<char>, Pair>, (Seq<char>, XbmError)>(Map::empty()),
        collected(animal, files) is Err ==> collected(animal, files.push(file)) == collected(animal, files),
        collected(animal, files) matches Ok(frames) ==> match bitmap_of(file.source@) {
            Ok(bitmap) => collected(animal, files.push(file)) == Ok::<
                Map<Seq<char>, Pair>,
                (Seq<char>, XbmError),
            >(with_bitmap(frames, animal, file.stem@, bitmap)),
            Err(cause) => {
                &&& collected(animal, files.push(file)) is Err
                &&& comes_to(animal, files.push(file), outcome) ==> (outcome matches Err(error)
                    && error.name@ == file.stem@ && error.fault == Fault::Unreadable(cause))
            },
        },
{
    assert(files.push(file).drop_last() =~= files);
}

/// The halves of a frame are what its files say, and every file belongs to a frame.
proof fn halves_come_from_files(animal: Seq<char>, files: Seq<BitmapFile>, name: Seq<char>) -> (halves: (
    int,
    int,
))
    requires
        collected(animal, files) is Ok,
        collected(animal, files)->Ok_0.dom().contains(name),
    ensures
        ({
            let pair = collected(animal, files)->Ok_0[name];
            &&& pair.image matches Some(image) ==> {
                &&& 0 <= halves.0 < files.len()
                &&& frame_of(files[halves.0].stem@, animal) == name
                &&& !("_mask"@).is_suffix_of(files[halves.0].stem@)
                &&& bitmap_of(files[halves.0].source@) == Ok::<Bitmap, XbmError>(image)
            }
            &&& pair.mask matches Some(mask) ==> {
                &&& 0 <= halves.1 < files.len()
                &&& frame_of(files[halves.1].stem@, animal) == name
                &&& ("_mask"@).is_suffix_of(files[halves.1].stem@)
                &&& bitmap_of(files[halves.1].source@) == Ok::<Bitmap, XbmError>(mask)
            }
        }),
    decreases files.len(),
{
    let rest = files.drop_last();
    let last = files.len() - 1;
    let before = collected(animal, rest)->Ok_0;
    let own = frame_of(files.last().stem@, animal);
    let bitmap = bitmap_of(files.last().source@)->Ok_0;
    a_file_fills_in_its_half(before, animal, files.last().stem@, bitmap, name);
    let (a, b) = if before.dom().contains(name) {
        halves_come_from_files(animal, rest, name)
    } else {
        (0, 0)
    };
    assert(forall|k: int| 0 <= k < rest.len() ==> #[trigger] rest[k] == files[k]);
    assert(files[last] == files.last());
    if name != own {
        (a, b)
    } else if ("_mask"@).is_suffix_of(files.last().stem@) {
        (a, last)
    } else {
        (last, b)
    }
}

/// Every sprite of a sheet is made of two of the files, both of its name and of its size:
/// the one that is no mask is its line art, and the one that is a mask its silhouette.
pub proof fn sprites_come_from_their_files(
    animal: Seq<char>,
    files: Seq<BitmapFile>,
    sheet: Vec<Sprite>,
    i: int,
) -> (halves: (int, int))
    requires
        comes_to(animal, files, Ok::<Vec<Sprite>, SheetError>(sheet)),
        0 <= i < sheet@.len(),
    ensures
        0 <= halves.0 < files.len(),
        0 <= halves.1 < files.len(),
        frame_of(files[halves.0].stem@, animal) == sheet@[i].name@,
        frame_of(files[halves.1].stem@, animal) == sheet@[i].name@,
        !("_mask"@).is_suffix_of(files[halves.0].stem@),
        ("_mask"@).is_suffix_of(files[halves.1].stem@),
        bitmap_of(files[halves.0].source@) is Ok,
        bitmap_of(files[halves.1].source@) is Ok,
        ({
            let (art, silhouette) = (
                bitmap_of(files[halves.0].source@)->Ok_0,
                bitmap_of(files[halves.1].source@)->Ok_0,
            );
            &&& art.bits == sheet@[i].bits@
            &&& silhouette.bits == sheet@[i].mask@
            &&& art.width == sheet@[i].width && silhouette.width == sheet@[i].width
            &&& art.height == sheet@[i].height && silhouette.height == sheet@[i].height
        }),
{
    let frames = collected(animal, files)->Ok_0;
    assert(frames.dom().contains(sheet@[i].name@));
    halves_come_from_files(animal, files, sheet@[i].name@)
}

/// No file is passed over: its frame is in the sheet, once.
pub proof fn every_file_is_in_the_sheet(
    animal: Seq<char>,
    files: Seq<BitmapFile>,
    sheet: Vec<Sprite>,
    k: int,
) -> (i: int)
    requires
        comes_to(animal, files, Ok::<Vec<Sprite>, SheetError>(sheet)),
        0 <= k < files.len(),
    ensures
        0 <= i < sheet@.len(),
        sheet@[i].name@ == frame_of(files[k].stem@, animal),
{
    let frames = collected(animal, files)->Ok_0;
    files_have_frames(animal, files, k);
    let name = frame_of(files[k].stem@, animal);
    assert(frames.dom().contains(name));
    choose|i: int| 0 <= i < sheet@.len() && #[trigger] sheet@[i].name@ == name
}

proof fn files_have_frames(animal: Seq<char>, files: Seq<BitmapFile>, k: int)
    requires
        collected(animal, files) is Ok,
        0 <= k < files.len(),
    ensures
        collected(animal, files)->Ok_0.dom().contains(frame_of(files[k].stem@, animal)),
    decreases files.len(),
{
    if k < files.len() - 1 {
        files_have_frames(animal, files.drop_last(), k);
    }
}

/// A frame is whole if it has both of its halves and they are of one size, and what is
/// wrong with it otherwise is the half that it lacks or that they are not.
pub proof fn a_frame_needs_two_halves_of_one_size(image: Bitmap, mask: Bitmap)
    ensures
        fault_of(Pair { image: None, mask: Some(mask) }) == Some(Fault::MaskWithoutBitmap),
        fault_of(Pair { image: Some(image), mask: None }) == Some(Fault::BitmapWithoutMask),
        fault_of(Pair { image: Some(image), mask: Some(mask) }) is None <==> image.width == mask.width
            && image.height == mask.height,
        image.width != mask.width || image.height != mask.height ==> fault_of(
            Pair { image: Some(image), mask: Some(mask) },
        ) == Some(Fault::SizesDisagree),
{
}

/// Each animal has a sheet of its own.
pub proof fn animals_have_their_own_sheets(sheets: Sheets)
    ensures
        Animal::Neko.sheet(sheets) == sheets.neko@,
        Animal::Dog.sheet(sheets) == sheets.dog@,
{
}

/// A picture has room for eight frames in a row, and no more rows than it takes.
pub proof fn eight_frames_make_a_row(frames: int)
    requires
        frames >= 0,
    ensures
        128 * frames <= 8 * sheet_height(frames) < 128 * (frames + 8),
        sheet_height(frames) % 128 == 0,
{
    let rows = (frames + 7) / 8;
    assert(sheet_height(frames) == rows * 128);
}

/// What the picture of frames is as large as.
proof fn laid_out_keeps_its_size(sprites: Seq<Sprite>, ground: Seq<u32>)
    ensures
        laid_out(sprites, ground).len() == ground.len(),
    decreases sprites.len(),
{
    if sprites.len() > 0 {
        laid_out_keeps_its_size(sprites.drop_last(), ground);
    }
}

/// Frames of 32 pixels a side only show in their own cells.
proof fn frames_keep_to_their_cells(sprites: Seq<Sprite>, ground: Seq<u32>, k: int, x: int, y: int)
    requires
        0 <= k,
        forall|i: int|
            0 <= i < sprites.len() ==> (#[trigger] sprites[i]).width == 32 && sprites[i].height == 32,
        128 * (k % 8) <= x < 128 * (k % 8) + 128,
        128 * (k / 8) <= y < 128 * (k / 8) + 128,
        (y + 1) * 1024 <= ground.len(),
    ensures
        laid_out(sprites, ground)[y * 1024 + x] == (if k < sprites.len() {
            painted(
                sprites[k],
                plain(),
                laid_out(sprites.take(k), ground),
                1024,
                128 * (k % 8),
                128 * (k / 8),
                4,
            )[y * 1024 + x]
        } else {
            ground[y * 1024 + x]
        }),
    decreases sprites.len(),
{
    if sprites.len() > 0 {
        let last = sprites.len() - 1;
        let rest = sprites.drop_last();
        laid_out_keeps_its_size(rest, ground);
        if last == k {
            assert(sprites.take(k) =~= rest);
            assert(sprites.last() == sprites[k]);
        } else {
            assert(forall|i: int| 0 <= i < rest.len() ==> #[trigger] rest[i] == sprites[i]);
            frames_keep_to_their_cells(rest, ground, k, x, y);
            if k < rest.len() {
                assert(rest.take(k) =~= sprites.take(k));
            }
            let (left, top) = (last % 8 * 128, last / 8 * 128);
            assert(left != 128 * (k % 8) || top != 128 * (k / 8));
            assert(sprites[last].width == 32 && sprites[last].height == 32);
            assert(x < left || x >= left + 32 * 4 || y < top || y >= top + 32 * 4);
            a_blit_stays_in_its_box(
                sprites.last(),
                plain(),
                laid_out(rest, ground),
                1024,
                left,
                top,
                4,
                x,
                y,
            );
        }
    }
}

/// A contact sheet shows frames of 32 pixels a side in rows of eight, each in a cell of
/// 128 pixels a side, with each of its pixels four pixels large: black where it has a line,
/// white where it only has its silhouette, and the grey of the ground where it has neither.
pub proof fn frames_stand_in_rows_of_eight(
    sprites: Seq<Sprite>,
    k: int,
    byte: int,
    place: int,
    row: int,
    u: int,
    v: int,
)
    requires
        0 <= k < sprites.len(),
        sprites[k].well_formed(),
        forall|i: int|
            0 <= i < sprites.len() ==> (#[trigger] sprites[i]).width == 32 && sprites[i].height == 32,
        0 <= byte < 4,
        0 <= place < 8,
        0 <= row < 32,
        0 <= u < 4,
        0 <= v < 4,
    ensures
        ({
            let (x, y) = (
                128 * (k % 8) + (8 * byte + place) * 4 + u,
                128 * (k / 8) + row * 4 + v,
            );
            let at = row * 4 + byte;
            let weight = pow2(place as nat) as int;
            contact_of(sprites)[y * 1024 + x] == (if sprites[k].mask@[at] as int / weight % 2 != 1 {
                0xff80_8080u32
            } else if sprites[k].bits@[at] as int / weight % 2 == 1 {
                0xff00_0000u32
            } else {
                0xffff_ffffu32
            })
        }),
{
    let (x, y) = (128 * (k % 8) + (8 * byte + place) * 4 + u, 128 * (k / 8) + row * 4 + v);
    let height = sheet_height(sprites.len() as int);
    let ground = Seq::new((1024 * height) as nat, |i: int| 0xff80_8080u32);
    assert(contact_of(sprites) == laid_out(sprites, ground)) by {
        assert(ground =~= Seq::new(
            (crate::contact::SHEET_WIDTH * height) as nat,
            |i: int| crate::contact::GROUND,
        ));
    }
    eight_frames_make_a_row(sprites.len() as int);
    assert(y < height) by {
        let rows = (sprites.len() + 7) as int / 8;
        assert(height == rows * 128);
        assert(k / 8 < rows);
    }
    assert((y + 1) * 1024 <= ground.len());
    frames_keep_to_their_cells(sprites, ground, k, x, y);
    let before = laid_out(sprites.take(k), ground);
    let earlier = sprites.take(k);
    assert(forall|i: int| 0 <= i < earlier.len() ==> #[trigger] earlier[i] == sprites[i]);
    laid_out_keeps_its_size(earlier, ground);
    frames_keep_to_their_cells(earlier, ground, k, x, y);
    assert(ground[y * 1024 + x] == 0xff80_8080u32);
    a_blit_draws_squares(
        sprites[k],
        plain(),
        before,
        1024,
        128 * (k % 8),
        128 * (k / 8),
        4,
        byte,
        place,
        row,
        u,
        v,
    );
}

/// A picture file tells the red, the green and the blue of each pixel, a byte each and in
/// that order; the alpha is left out.
pub proof fn a_picture_file_tells_its_colours(pixels: Seq<u32>, i: int)
    requires
        0 <= i < pixels.len(),
    ensures
        ppm_body(pixels).len() == 3 * pixels.len(),
        pixels[i] as int % 0x100_0000 == 0x1_0000 * ppm_body(pixels)[3 * i] + 0x100 * ppm_body(
            pixels,
        )[3 * i + 1] + ppm_body(pixels)[3 * i + 2],
{
    three_bytes_a_pixel(pixels);
    let own = ppm_body(pixels).subrange(3 * i, 3 * i + 3);
    assert(own == channels(pixels[i]));
    assert(own[0] == ppm_body(pixels)[3 * i]);
    assert(own[1] == ppm_body(pixels)[3 * i + 1]);
    assert(own[2] == ppm_body(pixels)[3 * i + 2]);
}

/// The number that decimal digits stand for, each of them by its place.
pub open spec fn worth(digits: Seq<u8>) -> int
    decreases digits.len(),
{
    if digits.len() == 0 {
        0
    } else {
        10 * worth(digits.drop_last()) + (digits.last() - 48)
    }
}

/// A number is written in digits that stand for it, without a nought before the others.
pub proof fn a_number_is_written_in_its_digits(value: int)
    requires
        value >= 0,
    ensures
        worth(decimal(value)) == value,
        decimal(value).len() >= 1,
        forall|i: int| 0 <= i < decimal(value).len() ==> 48 <= #[trigger] decimal(value)[i] <= 57,
        value > 0 ==> decimal(value)[0] != 48,
    decreases value,
{
    reveal_with_fuel(worth, 2);
    if value >= 10 {
        a_number_is_written_in_its_digits(value / 10);
        let rest = decimal(value / 10);
        assert(decimal(value).drop_last() =~= rest);
        assert forall|i: int| 0 <= i < decimal(value).len() implies 48 <= #[trigger] decimal(value)[i]
            <= 57 by {
            if i < rest.len() {
                assert(decimal(value)[i] == rest[i]);
            }
        }
    } else {
        assert(decimal(value).drop_last() =~= Seq::empty());
    }
}

/// A picture file begins with `P6`, its width and height, and the largest value that a
/// colour can have.
pub proof fn a_picture_file_tells_its_size(width: int, height: int)
    requires
        width >= 0,
        height >= 0,
    ensures
        ({
            let header = ppm_header(width, height);
            let (w, h) = (decimal(width).len() as int, decimal(height).len() as int);
            &&& header.len() == w + h + 9
            &&& header.take(3) == seq!['P' as u8, '6' as u8, 10u8]
            &&& worth(header.subrange(3, 3 + w)) == width
            &&& header[3 + w] == 32
            &&& worth(header.subrange(4 + w, 4 + w + h)) == height
            &&& header.skip(4 + w + h) == seq![10u8, '2' as u8, '5' as u8, '5' as u8, 10u8]
        }),
{
    a_number_is_written_in_its_digits(width);
    a_number_is_written_in_its_digits(height);
    let header = ppm_header(width, height);
    let (w, h) = (decimal(width).len() as int, decimal(height).len() as int);
    assert(header.take(3) =~= seq!['P' as u8, '6' as u8, 10u8]);
    assert(header.subrange(3, 3 + w) =~= decimal(width));
    assert(header.subrange(4 + w, 4 + w + h) =~= decimal(height));
    assert(header.skip(4 + w + h) =~= seq![10u8, '2' as u8, '5' as u8, '5' as u8, 10u8]);
}

} // verus!
