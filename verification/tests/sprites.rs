//! Bitmaps, sheets and the blit.

use nekors::canvas::Canvas;
use nekors::sheet::{load_sheet, split_stem, Animal, BitmapFile, Fault, Sheets};
use nekors::sprite::{Palette, Sprite};
use nekors::text::NumberError;
use nekors::xbm::{parse_xbm, XbmError};

/// The full set: two frames each of eight directions, four wall scratches and
/// the idle animations.
const EXPECTED: &[&str] = &[
    "awake", "down1", "down2", "dtogi1", "dtogi2", "dwleft1", "dwleft2", "dwright1", "dwright2",
    "jare2", "kaki1", "kaki2", "left1", "left2", "ltogi1", "ltogi2", "mati2", "mati3", "right1",
    "right2", "rtogi1", "rtogi2", "sleep1", "sleep2", "up1", "up2", "upleft1", "upleft2",
    "upright1", "upright2", "utogi1", "utogi2",
];

/// A bitmap with a pattern that depends on `seed`.
fn xbm(name: &str, seed: u32) -> String {
    let mut text = format!("#define {name}_width 32\n#define {name}_height 32\n");
    text.push_str(&format!("static char {name}_bits[] = {{\n"));
    for i in 0..128u32 {
        text.push_str(&format!("   0x{:02x},\n", (i * 7 + seed) & 0xff));
    }
    text.push_str("};\n");
    text
}

fn file(stem: &str, source: String) -> BitmapFile {
    BitmapFile { stem: stem.to_owned(), source }
}

/// Bitmap files for every frame of an animal. The dog's carry its name.
fn files(animal: &str) -> Vec<BitmapFile> {
    let mut files = Vec::new();
    for (seed, name) in EXPECTED.iter().enumerate() {
        let stem = if animal == "neko" { (*name).to_owned() } else { format!("{name}_{animal}") };
        files.push(file(&stem, xbm(&stem, seed as u32)));
        files.push(file(&format!("{stem}_mask"), xbm(&stem, seed as u32 + 101)));
    }
    files
}

fn sheets() -> Sheets {
    Sheets::load(&files("neko"), &files("dog")).expect("two whole sheets")
}

#[test]
fn both_animals_have_the_full_frame_set() {
    let sheets = sheets();
    for animal in [Animal::Neko, Animal::Dog] {
        for name in EXPECTED {
            assert!(
                animal.sprite(&sheets, name).is_some(),
                "{animal:?} is missing {name}",
            );
        }
        assert_eq!(animal.sprites(&sheets).len(), EXPECTED.len());
    }
}

#[test]
fn sprites_are_32x32_with_matching_bit_counts() {
    let sheets = sheets();
    for sprite in Animal::Neko.sprites(&sheets) {
        assert_eq!((sprite.width, sprite.height), (32, 32), "{}", sprite.name);
        assert_eq!(sprite.bits.len(), 32 * 4, "{}", sprite.name);
        assert_eq!(sprite.mask.len(), 32 * 4, "{}", sprite.name);
    }
}

#[test]
fn blit_fills_the_mask_and_nothing_else() {
    let sheets = sheets();
    let sprite = Animal::Neko.sprite(&sheets, "mati2").expect("mati2");
    let mut pixels = vec![0u32; 32 * 32];
    let mut canvas = Canvas {
        pixels: &mut pixels,
        stride: 32,
    };
    sprite.blit_argb(&mut canvas, 0, 0, 1, Palette::default());

    let painted = pixels.iter().filter(|&&px| px != 0).count();
    let masked = (0..32)
        .flat_map(|y| (0..32).map(move |x| (x, y)))
        .filter(|&(x, y)| Sprite::get(&sprite.mask, 4, x, y))
        .count();
    assert_eq!(painted, masked);
    assert!(masked > 0);
}

#[test]
fn blit_clips_instead_of_panicking() {
    let sheets = sheets();
    let sprite = Animal::Neko.sprite(&sheets, "mati2").expect("mati2");
    let mut pixels = vec![0u32; 16 * 16];
    let mut canvas = Canvas {
        pixels: &mut pixels,
        stride: 16,
    };
    sprite.blit_argb(&mut canvas, -8, -8, 2, Palette::default());
}

/// A 3x2 sprite: the outline is the left column, the body the middle one.
fn small() -> Sprite {
    Sprite {
        name: "small".to_owned(),
        width: 3,
        height: 2,
        bits: vec![0b001, 0b001],
        mask: vec![0b011, 0b011],
    }
}

#[test]
fn a_blit_scales_every_pixel_to_a_block() {
    let palette = Palette { background: 7, outline: 9 };
    let mut pixels = vec![1u32; 8 * 5];
    let mut canvas = Canvas { pixels: &mut pixels, stride: 8 };
    small().blit_argb(&mut canvas, 1, 0, 2, palette);
    let row = [1, 9, 9, 7, 7, 1, 1, 1];
    for y in 0..4 {
        assert_eq!(pixels[y * 8..y * 8 + 8], row, "row {y}");
    }
    assert_eq!(pixels[32..40], [1; 8]);
}

#[test]
fn a_blit_does_not_mind_bytes_to_spare() {
    let palette = Palette { background: 7, outline: 9 };
    let mut long = small();
    long.bits.push(0xff);
    long.mask.extend([0xff, 0xff]);
    let (mut one, mut other) = (vec![1u32; 30], vec![1u32; 30]);
    small().blit_argb(&mut Canvas { pixels: &mut one, stride: 6 }, 2, 1, 1, palette);
    long.blit_argb(&mut Canvas { pixels: &mut other, stride: 6 }, 2, 1, 1, palette);
    assert_eq!(one, other);
}

#[test]
fn a_blit_repeated_changes_nothing_more() {
    let palette = Palette { background: 7, outline: 9 };
    let mut once = vec![1u32; 30];
    small().blit_argb(&mut Canvas { pixels: &mut once, stride: 6 }, 2, 1, 1, palette);
    let mut twice = once.clone();
    small().blit_argb(&mut Canvas { pixels: &mut twice, stride: 6 }, 2, 1, 1, palette);
    assert_eq!(once, twice);
}

#[test]
fn a_blit_leaves_an_incomplete_last_row_alone() {
    let mut pixels = vec![0u32; 7];
    let mut canvas = Canvas { pixels: &mut pixels, stride: 4 };
    assert_eq!(canvas.rows(), 1);
    small().blit_argb(&mut canvas, 0, 0, 1, Palette { background: 7, outline: 9 });
    assert_eq!(pixels, [9, 7, 0, 0, 0, 0, 0]);
}

#[test]
fn sprites_come_in_the_order_of_their_names() {
    let mut files = files("neko");
    files.reverse();
    let sheet = load_sheet("neko", &files).expect("a sheet");
    let names: Vec<&str> = sheet.iter().map(|sprite| sprite.name.as_str()).collect();
    assert_eq!(names, EXPECTED);
}

#[test]
fn a_sprite_holds_its_own_bitmap_and_mask() {
    let sheets = sheets();
    let awake = Animal::Dog.sprite(&sheets, "awake").expect("awake");
    assert_eq!(awake.bits[..3], [0, 7, 14]);
    assert_eq!(awake.mask[..3], [101, 108, 115]);
    assert!(Animal::Dog.sprite(&sheets, "awake_dog").is_none());
}

#[test]
fn animals_go_by_two_names_each() {
    assert_eq!("neko".parse::<Animal>(), Ok(Animal::Neko));
    assert_eq!("cat".parse::<Animal>(), Ok(Animal::Neko));
    assert_eq!("dog".parse::<Animal>(), Ok(Animal::Dog));
    assert_eq!("inu".parse::<Animal>(), Ok(Animal::Dog));
    assert_eq!("fish".parse::<Animal>(), Err("unknown animal: fish".to_owned()));
    assert_eq!(Animal::default(), Animal::Neko);
    assert_eq!(Animal::Neko.folder(), "neko");
    assert_eq!(Animal::Dog.folder(), "dog");
}

#[test]
fn stems_are_taken_apart() {
    assert_eq!(split_stem("up1_dog_mask", "dog"), ("up1".to_owned(), true));
    assert_eq!(split_stem("up1_dog", "dog"), ("up1".to_owned(), false));
    assert_eq!(split_stem("up1_mask", "neko"), ("up1".to_owned(), true));
    assert_eq!(split_stem("up1", "neko"), ("up1".to_owned(), false));
    assert_eq!(split_stem("up1_dog", "neko"), ("up1_dog".to_owned(), false));
}

const TINY: &str = "#define t_width 9\n#define t_height 2\nstatic char t_bits[] = {\n 0x01, 0X00,\n 0xff,0x1, };\n";

#[test]
fn a_bitmap_is_two_dimensions_and_a_list_of_bytes() {
    let xbm = parse_xbm(TINY).expect("a bitmap");
    assert_eq!((xbm.width, xbm.height), (9, 2));
    assert_eq!(xbm.bits, [0x01, 0x00, 0xff, 0x01]);
}

#[test]
fn what_is_wrong_with_a_bitmap() {
    let error = |source: &str| parse_xbm(source).err();
    assert_eq!(
        error("#define t_width wide\n#define t_height 2\n{}"),
        Some(XbmError::BadDimension(NumberError::InvalidDigit)),
    );
    assert_eq!(error("#define t_width 9\n{ 0x00 }"), Some(XbmError::MissingDimensions));
    assert_eq!(error("#define t_width 9\n#define t_height 2\n"), Some(XbmError::NoByteList));
    assert_eq!(error("#define t_width 8\n#define t_height 1\n{ 12 }"), Some(XbmError::NotHex));
    assert_eq!(
        error("#define t_width 8\n#define t_height 1\n{ 0x100 }"),
        Some(XbmError::BadByte(NumberError::TooLarge)),
    );
    assert_eq!(
        error("#define t_width 8\n#define t_height 1\n{ 0x }"),
        Some(XbmError::BadByte(NumberError::Empty)),
    );
    assert_eq!(
        error("#define t_width 8\n#define t_height 2\n{ 0x01 }"),
        Some(XbmError::WrongLength),
    );
}

#[test]
fn what_is_wrong_with_a_sheet() {
    let fault = |files: Vec<BitmapFile>| {
        let error = load_sheet("neko", &files).err().expect("no sheet");
        (error.name, error.fault)
    };
    assert_eq!(
        fault(vec![file("a", TINY.to_owned()), file("b_mask", TINY.to_owned())]),
        ("a".to_owned(), Fault::BitmapWithoutMask),
    );
    assert_eq!(
        fault(vec![file("b_mask", TINY.to_owned())]),
        ("b".to_owned(), Fault::MaskWithoutBitmap),
    );
    assert_eq!(
        fault(vec![file("c", TINY.to_owned()), file("c_mask", xbm("c", 0))]),
        ("c".to_owned(), Fault::SizesDisagree),
    );
    assert_eq!(
        fault(vec![file("d", "{}".to_owned()), file("a", TINY.to_owned())]),
        ("d".to_owned(), Fault::Unreadable(XbmError::MissingDimensions)),
    );
}

#[test]
fn the_first_animal_decides_the_error() {
    let broken = vec![file("a", TINY.to_owned())];
    let error = Sheets::load(&files("neko"), &broken).err().expect("no dog");
    assert_eq!(error.name, "a");
    assert!(Sheets::load(&broken, &Vec::new()).is_err());
    assert!(Sheets::load(&Vec::new(), &Vec::new()).is_ok());
}
