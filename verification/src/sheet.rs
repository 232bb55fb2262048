//! Sprite sheets, put together from the bitmap files of an animal.

use vstd::prelude::*;

use crate::neko::Mind;
use crate::sprite::{Sprite, bytes_per_row};
use crate::state::{Direction, State, Wall, frame_names};
use crate::text::{chars_of, comes_first, is_at, part_of, precedes, precedes_is_an_order, same};
use crate::xbm::{Bitmap, Xbm, XbmError, bitmap_of, parse_xbm};

verus! {

/// A bitmap file: its name without the extension, and its text.
#[derive(Debug)]
pub struct BitmapFile {
    pub stem: String,
    pub source: String,
}

/// What can be wrong with a frame.
#[derive(Debug, Clone, Copy, PartialEq, Eq, Structural)]
pub enum Fault {
    /// A file is not a bitmap.
    Unreadable(XbmError),
    MaskWithoutBitmap,
    BitmapWithoutMask,
    /// The bitmap and its mask are not the same size.
    SizesDisagree,
}

/// Why there is no sheet.
#[derive(Debug)]
pub struct SheetError {
    /// The file or the frame that is to blame.
    pub name: String,
    pub fault: Fault,
}

/// The bitmap and the mask of a frame, as far as there are any.
#[verifier::ext_equal]
pub struct Pair {
    pub image: Option<Bitmap>,
    pub mask: Option<Bitmap>,
}

/// A text without a certain ending, or all of it if it ends otherwise.
pub open spec fn without_ending(text: Seq<char>, ending: Seq<char>) -> Seq<char> {
    if ending.is_suffix_of(text) {
        text.take(text.len() - ending.len())
    } else {
        text
    }
}

/// The name of the frame a file belongs to: `up1_dog_mask` and `up1` both belong
/// to `up1`.
pub open spec fn frame_of(stem: Seq<char>, animal: Seq<char>) -> Seq<char> {
    without_ending(without_ending(stem, "_mask"@), "_"@ + animal)
}

/// Whether a file holds a mask.
pub open spec fn holds_mask(stem: Seq<char>) -> bool {
    "_mask"@.is_suffix_of(stem)
}

/// How many characters of `text[..to]` are left without a certain ending.
fn cut(text: &[char], to: usize, ending: &str) -> (kept: usize)
    requires
        to <= text@.len(),
    ensures
        kept <= to,
        text@.take(kept as int) == without_ending(text@.take(to as int), ending@),
        kept < to ==> ending@.is_suffix_of(text@.take(to as int)),
        kept == to ==> ending@.len() == 0 || !ending@.is_suffix_of(text@.take(to as int)),
{
    let len: usize = chars_of(ending).len();
    let ghost part = text@.take(to as int);
    if len <= to && is_at(text, to, ending, to - len) {
        assert(part.take(to - len) =~= text@.take(to - len));
        assert(ending@ =~= part.subrange(part.len() - ending@.len(), part.len() as int));
        to - len
    } else {
        to
    }
}

/// `up1_dog_mask` -> (`up1`, mask), `up1` -> (`up1`, image).
pub fn split_stem(stem: &str, animal: &str) -> (split: (String, bool))
    ensures
        split.0@ == frame_of(stem@, animal@),
        split.1 == holds_mask(stem@),
{
    proof {
        reveal_strlit("_mask");
    }
    let chars: Vec<char> = chars_of(stem);
    let text: &[char] = chars.as_slice();
    let all: usize = text.len();
    assert(text@.take(all as int) =~= text@);
    let base: usize = cut(text, all, "_mask");
    let mark: String = "_".to_owned();
    let mut ending: String = mark;
    vstd::string::StringExecFns::append(&mut ending, animal);
    let kept: usize = cut(text, base, ending.as_str());
    assert(stem@.subrange(0, kept as int) =~= text@.take(kept as int));
    (part_of(stem, 0, kept), base < all)
}

/// The bitmaps of `files`, by the frame they belong to. Of two for the same
/// place the later one counts; the first file that is no bitmap is to blame.
pub open spec fn collected(animal: Seq<char>, files: Seq<BitmapFile>) -> Result<
    Map<Seq<char>, Pair>,
    (Seq<char>, XbmError),
>
    decreases files.len(),
{
    if files.len() == 0 {
        Ok(Map::empty())
    } else {
        match collected(animal, files.drop_last()) {
            Err(error) => Err(error),
            Ok(before) => match bitmap_of(files.last().source@) {
                Err(error) => Err((files.last().stem@, error)),
                Ok(bitmap) => Ok(with_bitmap(before, animal, files.last().stem@, bitmap)),
            },
        }
    }
}

/// Frames with one more bitmap.
pub open spec fn with_bitmap(
    frames: Map<Seq<char>, Pair>,
    animal: Seq<char>,
    stem: Seq<char>,
    bitmap: Bitmap,
) -> Map<Seq<char>, Pair> {
    let name = frame_of(stem, animal);
    let before = if frames.dom().contains(name) {
        frames[name]
    } else {
        Pair { image: None, mask: None }
    };
    frames.insert(name, paired(before, holds_mask(stem), bitmap))
}

/// A pair with one half replaced.
pub open spec fn paired(pair: Pair, is_mask: bool, bitmap: Bitmap) -> Pair {
    if is_mask {
        Pair { mask: Some(bitmap), ..pair }
    } else {
        Pair { image: Some(bitmap), ..pair }
    }
}

/// What is wrong with a pair, if anything.
pub open spec fn fault_of(pair: Pair) -> Option<Fault> {
    match (pair.image, pair.mask) {
        (None, _) => Some(Fault::MaskWithoutBitmap),
        (Some(_), None) => Some(Fault::BitmapWithoutMask),
        (Some(image), Some(mask)) => if image.width == mask.width && image.height == mask.height {
            None
        } else {
            Some(Fault::SizesDisagree)
        },
    }
}

/// Whether a sprite is made of a pair of bitmaps.
pub open spec fn made_of(sprite: Sprite, pair: Pair) -> bool {
    &&& pair.image == Some(
        Bitmap { width: sprite.width as int, height: sprite.height as int, bits: sprite.bits@ },
    )
    &&& pair.mask == Some(
        Bitmap { width: sprite.width as int, height: sprite.height as int, bits: sprite.mask@ },
    )
}

/// Whether a sheet holds one sprite for each frame, in the order of their names.
pub open spec fn is_sheet_of(sheet: Seq<Sprite>, frames: Map<Seq<char>, Pair>) -> bool {
    &&& forall|i: int, j: int|
        0 <= i < j < sheet.len() ==> precedes(#[trigger] sheet[i].name@, #[trigger] sheet[j].name@)
    &&& forall|i: int|
        0 <= i < sheet.len() ==> frames.dom().contains(#[trigger] sheet[i].name@) && made_of(
            sheet[i],
            frames[sheet[i].name@],
        )
    &&& forall|name: Seq<char>| #[trigger]
        frames.dom().contains(name) ==> exists|i: int|
            0 <= i < sheet.len() && #[trigger] sheet[i].name@ == name
}

/// A frame while its bitmaps are being collected.
struct Entry {
    name: String,
    image: Option<Xbm>,
    mask: Option<Xbm>,
}

/// What an optional file says.
spec fn optional(xbm: Option<Xbm>) -> Option<Bitmap> {
    match xbm {
        None => None,
        Some(xbm) => Some(xbm@),
    }
}

impl Entry {
    spec fn pair(self) -> Pair {
        Pair { image: optional(self.image), mask: optional(self.mask) }
    }
}

/// Whether entries are frames, in the order of their names.
spec fn entries_hold(entries: Seq<Entry>, frames: Map<Seq<char>, Pair>) -> bool {
    &&& forall|i: int, j: int|
        0 <= i < j < entries.len() ==> precedes(
            #[trigger] entries[i].name@,
            #[trigger] entries[j].name@,
        )
    &&& forall|i: int|
        0 <= i < entries.len() ==> frames.dom().contains(#[trigger] entries[i].name@)
            && frames[entries[i].name@] == entries[i].pair()
    &&& forall|name: Seq<char>| #[trigger]
        frames.dom().contains(name) ==> exists|i: int|
            0 <= i < entries.len() && #[trigger] entries[i].name@ == name
}

/// Whether every bitmap has the bits that its size asks for.
spec fn complete(frames: Map<Seq<char>, Pair>) -> bool {
    forall|name: Seq<char>| #[trigger]
        frames.dom().contains(name) ==> {
            &&& frames[name].image matches Some(image) ==> image.bits.len() == bytes_per_row(image.width)
                * image.height
            &&& frames[name].mask matches Some(mask) ==> mask.bits.len() == bytes_per_row(mask.width)
                * mask.height
        }
}

/// Puts one more bitmap with its frame.
fn add_bitmap(entries: &mut Vec<Entry>, name: String, is_mask: bool, xbm: Xbm, frames: Ghost<
    Map<Seq<char>, Pair>,
>)
    requires
        entries_hold(old(entries)@, frames@),
    ensures
        entries_hold(
            final(entries)@,
            frames@.insert(
                name@,
                paired(
                    if frames@.dom().contains(name@) {
                        frames@[name@]
                    } else {
                        Pair { image: None, mask: None }
                    },
                    is_mask,
                    xbm@,
                ),
            ),
        ),
{
    let ghost before = entries@;
    let mut at: usize = 0;
    while at < entries.len() && comes_first(entries[at].name.as_str(), name.as_str())
        invariant
            entries@ == before,
            at <= before.len(),
            forall|i: int| 0 <= i < at ==> precedes(#[trigger] before[i].name@, name@),
        decreases before.len() - at,
    {
        at = at + 1;
    }
    if at < entries.len() && entries[at].name == name {
        if is_mask {
            entries[at].mask = Some(xbm);
        } else {
            entries[at].image = Some(xbm);
        }
        proof {
            let after = entries@;
            assert(after[at as int].name@ == name@);
            assert forall|i: int| 0 <= i < after.len() && i != at implies after[i] == before[i] by {}
            assert forall|i: int| 0 <= i < after.len() implies after[i].name@ == before[i].name@ by {}
            assert forall|i: int| 0 <= i < after.len() && i != at implies after[i].name@ != name@ by {
                precedes_is_an_order(before[i].name@, name@, name@);
                if i < at {
                    assert(precedes(before[i].name@, before[at as int].name@));
                } else {
                    assert(precedes(before[at as int].name@, before[i].name@));
                }
            }
            assert forall|n: Seq<char>|
                frames@.insert(name@, after[at as int].pair()).dom().contains(n) implies exists|i: int|
                0 <= i < after.len() && #[trigger] after[i].name@ == n by {
                if n == name@ {
                    assert(after[at as int].name@ == n);
                } else {
                    let i = choose|i: int| 0 <= i < before.len() && #[trigger] before[i].name@ == n;
                    assert(after[i].name@ == n);
                }
            }
        }
    } else {
        let ghost label = name@;
        proof {
            assert forall|i: int| at <= i < before.len() implies precedes(
                name@,
                #[trigger] before[i].name@,
            ) by {
                precedes_is_an_order(name@, before[at as int].name@, before[i].name@);
                if i > at {
                    assert(precedes(before[at as int].name@, before[i].name@));
                }
            }
            assert(!frames@.dom().contains(name@)) by {
                if frames@.dom().contains(name@) {
                    let i = choose|i: int| 0 <= i < before.len() && #[trigger] before[i].name@ == name@;
                    precedes_is_an_order(name@, name@, name@);
                    if i < at {
                        assert(precedes(before[i].name@, name@));
                    } else {
                        assert(precedes(name@, before[i].name@));
                    }
                }
            }
        }
        let entry: Entry = if is_mask {
            Entry { name, image: None, mask: Some(xbm) }
        } else {
            Entry { name, image: Some(xbm), mask: None }
        };
        let ghost new = entry;
        entries.insert(at, entry);
        proof {
            let after = entries@;
            let frame = new.pair();
            assert(after == before.insert(at as int, new));
            assert forall|i: int, j: int| 0 <= i < j < after.len() implies precedes(
                #[trigger] after[i].name@,
                #[trigger] after[j].name@,
            ) by {
                let bi = if i < at { i } else { i - 1 };
                let bj = if j < at { j } else { j - 1 };
                if i != at && j != at {
                    assert(after[i] == before[bi] && after[j] == before[bj]);
                    assert(precedes(before[bi].name@, before[bj].name@));
                } else if i == at {
                    assert(after[j] == before[bj]);
                } else {
                    assert(after[i] == before[bi]);
                }
            }
            let grown = frames@.insert(label, frame);
            assert forall|i: int| 0 <= i < after.len() implies grown.dom().contains(
                #[trigger] after[i].name@,
            ) && grown[after[i].name@] == after[i].pair() by {
                if i != at {
                    let b = if i < at { i } else { i - 1 };
                    assert(after[i] == before[b]);
                    assert(frames@.dom().contains(before[b].name@));
                }
            }
            assert forall|n: Seq<char>| #[trigger] grown.dom().contains(n) implies exists|i: int|
                0 <= i < after.len() && #[trigger] after[i].name@ == n by {
                if n == label {
                    assert(after[at as int].name@ == n);
                } else {
                    let b = choose|b: int| 0 <= b < before.len() && #[trigger] before[b].name@ == n;
                    let i = if b < at { b } else { b + 1 };
                    assert(after[i].name@ == n);
                }
            }
        }
    }
}

/// Parses the files of an animal and sorts the bitmaps by frame.
fn collect(animal: &str, files: &Vec<BitmapFile>) -> (entries: Result<Vec<Entry>, SheetError>)
    ensures
        match entries {
            Ok(entries) => match collected(animal@, files@) {
                Ok(frames) => entries_hold(entries@, frames) && complete(frames),
                Err(_) => false,
            },
            Err(error) => match collected(animal@, files@) {
                Ok(_) => false,
                Err((stem, cause)) => error.name@ == stem && error.fault == Fault::Unreadable(cause),
            },
        },
{
    let mut entries: Vec<Entry> = Vec::new();
    let ghost mut frames: Map<Seq<char>, Pair> = Map::empty();
    let mut i: usize = 0;
    assert(files@.take(0) =~= Seq::empty());
    while i < files.len()
        invariant
            i <= files@.len(),
            collected(animal@, files@.take(i as int)) == Ok::<
                Map<Seq<char>, Pair>,
                (Seq<char>, XbmError),
            >(frames),
            entries_hold(entries@, frames),
            complete(frames),
        decreases files@.len() - i,
    {
        let file: &BitmapFile = &files[i];
        assert(files@.take(i + 1).drop_last() =~= files@.take(i as int));
        assert(files@.take(i + 1).last() == files@[i as int]);
        match parse_xbm(file.source.as_str()) {
            Err(error) => {
                proof {
                    bad_file_stays(animal@, files@, i + 1);
                }
                return Err(SheetError { name: file.stem.clone(), fault: Fault::Unreadable(error) });
            },
            Ok(xbm) => {
                let (name, is_mask): (String, bool) = split_stem(file.stem.as_str(), animal);
                let ghost grown = with_bitmap(frames, animal@, file.stem@, xbm@);
                assert(xbm@.bits.len() == bytes_per_row(xbm@.width) * xbm@.height);
                add_bitmap(&mut entries, name, is_mask, xbm, Ghost(frames));
                proof {
                    assert(complete(grown));
                    frames = grown;
                }
            },
        }
        i = i + 1;
    }
    assert(files@.take(i as int) =~= files@);
    Ok(entries)
}

/// The first file that is no bitmap is to blame, whatever comes after it.
proof fn bad_file_stays(animal: Seq<char>, files: Seq<BitmapFile>, n: int)
    requires
        0 <= n <= files.len(),
        collected(animal, files.take(n)) is Err,
    ensures
        collected(animal, files) == collected(animal, files.take(n)),
    decreases files.len() - n,
{
    if n == files.len() {
        assert(files.take(n) =~= files);
    } else {
        assert(files.take(n + 1).drop_last() =~= files.take(n));
        bad_file_stays(animal, files, n + 1);
    }
}

/// Makes a sprite of a frame.
fn finish(entry: &Entry) -> (sprite: Result<Sprite, Fault>)
    ensures
        match sprite {
            Ok(sprite) => fault_of(entry.pair()) is None && sprite.name@ == entry.name@ && made_of(
                sprite,
                entry.pair(),
            ),
            Err(fault) => fault_of(entry.pair()) == Some(fault),
        },
{
    match (&entry.image, &entry.mask) {
        (None, _) => Err(Fault::MaskWithoutBitmap),
        (Some(_), None) => Err(Fault::BitmapWithoutMask),
        (Some(image), Some(mask)) => {
            if image.width != mask.width || image.height != mask.height {
                return Err(Fault::SizesDisagree);
            }
            let bits: Vec<u8> = image.bits.clone();
            let silhouette: Vec<u8> = mask.bits.clone();
            assert(bits@ =~= image.bits@);
            assert(silhouette@ =~= mask.bits@);
            Ok(
                Sprite {
                    name: entry.name.clone(),
                    width: image.width,
                    height: image.height,
                    bits,
                    mask: silhouette,
                },
            )
        },
    }
}

/// Whether a result is what an animal's bitmap files come to: the sheet of all
/// frames if every file can be read and every frame is whole, else what is wrong
/// with the first file that cannot be read or, those apart, with the first frame
/// by name.
pub open spec fn comes_to(
    animal: Seq<char>,
    files: Seq<BitmapFile>,
    outcome: Result<Vec<Sprite>, SheetError>,
) -> bool {
    match (outcome, collected(animal, files)) {
        (Ok(sheet), Ok(frames)) => {
            &&& forall|name: Seq<char>| #[trigger]
                frames.dom().contains(name) ==> fault_of(frames[name]) is None
            &&& is_sheet_of(sheet@, frames)
            &&& forall|i: int| 0 <= i < sheet@.len() ==> (#[trigger] sheet@[i]).well_formed()
        },
        (Ok(_), Err(_)) => false,
        (Err(error), Ok(frames)) => {
            &&& frames.dom().contains(error.name@)
            &&& fault_of(frames[error.name@]) == Some(error.fault)
            &&& forall|name: Seq<char>| #[trigger]
                frames.dom().contains(name) && precedes(name, error.name@) ==> fault_of(
                    frames[name],
                ) is None
        },
        (Err(error), Err((stem, cause))) => error.name@ == stem && error.fault == Fault::Unreadable(
            cause,
        ),
    }
}

/// Puts the bitmap files of an animal together into its sprite sheet.
pub fn load_sheet(animal: &str, files: &Vec<BitmapFile>) -> (sheet: Result<Vec<Sprite>, SheetError>)
    ensures
        comes_to(animal@, files@, sheet),
{
    let entries: Vec<Entry> = match collect(animal, files) {
        Ok(entries) => entries,
        Err(error) => return Err(error),
    };
    let ghost frames = collected(animal@, files@)->Ok_0;
    let mut sheet: Vec<Sprite> = Vec::new();
    let mut i: usize = 0;
    while i < entries.len()
        invariant
            i <= entries@.len(),
            collected(animal@, files@) == Ok::<Map<Seq<char>, Pair>, (Seq<char>, XbmError)>(frames),
            entries_hold(entries@, frames),
            complete(frames),
            sheet@.len() == i,
            forall|k: int|
                0 <= k < i ==> (#[trigger] sheet@[k]).name@ == entries@[k].name@ && made_of(
                    sheet@[k],
                    entries@[k].pair(),
                ) && sheet@[k].well_formed() && fault_of(entries@[k].pair()) is None,
        decreases entries@.len() - i,
    {
        match finish(&entries[i]) {
            Ok(sprite) => {
                assert(frames.dom().contains(entries@[i as int].name@));
                sheet.push(sprite);
            },
            Err(fault) => {
                proof {
                    let culprit = entries@[i as int].name@;
                    assert(frames.dom().contains(culprit));
                    assert forall|name: Seq<char>| #[trigger]
                        frames.dom().contains(name) && precedes(name, culprit) implies fault_of(
                        frames[name],
                    ) is None by {
                        let k = choose|k: int| 0 <= k < entries@.len() && #[trigger] entries@[k].name@ == name;
                        precedes_is_an_order(name, culprit, name);
                        if k > i {
                            assert(precedes(entries@[i as int].name@, entries@[k].name@));
                        }
                        assert(k < i);
                        assert(sheet@[k].name@ == entries@[k].name@);
                    }
                }
                return Err(SheetError { name: entries[i].name.clone(), fault });
            },
        }
        i = i + 1;
    }
    proof {
        assert forall|a: int, b: int| 0 <= a < b < sheet@.len() implies precedes(
            #[trigger] sheet@[a].name@,
            #[trigger] sheet@[b].name@,
        ) by {
            assert(sheet@[a].name@ == entries@[a].name@ && sheet@[b].name@ == entries@[b].name@);
        }
        assert forall|k: int| 0 <= k < sheet@.len() implies frames.dom().contains(
            #[trigger] sheet@[k].name@,
        ) && made_of(sheet@[k], frames[sheet@[k].name@]) by {
            assert(sheet@[k].name@ == entries@[k].name@);
        }
        assert forall|name: Seq<char>| #[trigger] frames.dom().contains(name) implies (exists|k: int|
            0 <= k < sheet@.len() && #[trigger] sheet@[k].name@ == name) && fault_of(
            frames[name],
        ) is None by {
            let k = choose|k: int| 0 <= k < entries@.len() && #[trigger] entries@[k].name@ == name;
            assert(sheet@[k].name@ == name);
        }
    }
    Ok(sheet)
}

/// The sprite sheets of all animals.
#[derive(Debug)]
pub struct Sheets {
    pub neko: Vec<Sprite>,
    pub dog: Vec<Sprite>,
}

/// Which sprite sheet to draw from.
#[derive(Debug, Clone, Copy, PartialEq, Eq, Structural)]
pub enum Animal {
    Neko,
    Dog,
}

impl Default for Animal {
    fn default() -> (animal: Animal)
        ensures
            animal == Animal::Neko,
    {
        Animal::Neko
    }
}

/// The first sprite of a sheet with a certain name.
pub open spec fn first_named(sheet: Seq<Sprite>, name: Seq<char>, index: int) -> bool {
    &&& 0 <= index < sheet.len()
    &&& sheet[index].name@ == name
    &&& forall|i: int| 0 <= i < index ==> (#[trigger] sheet[i]).name@ != name
}

/// The animal that a name stands for.
pub open spec fn animal_named(name: Seq<char>) -> Option<Animal> {
    if name == "neko"@ || name == "cat"@ {
        Some(Animal::Neko)
    } else if name == "dog"@ || name == "inu"@ {
        Some(Animal::Dog)
    } else {
        None
    }
}

impl Animal {
    /// The sheet of this animal.
    pub open spec fn sheet(self, sheets: Sheets) -> Seq<Sprite> {
        match self {
            Animal::Neko => sheets.neko@,
            Animal::Dog => sheets.dog@,
        }
    }

    #[must_use]
    pub fn sprites(self, sheets: &Sheets) -> (sprites: &[Sprite])
        ensures
            sprites@ == self.sheet(*sheets),
    {
        match self {
            Animal::Neko => sheets.neko.as_slice(),
            Animal::Dog => sheets.dog.as_slice(),
        }
    }

    /// Looks a frame up by its name.
    #[must_use]
    pub fn sprite<'a>(self, sheets: &'a Sheets, name: &str) -> (sprite: Option<&'a Sprite>)
        ensures
            match sprite {
                Some(sprite) => exists|i: int|
                    first_named(self.sheet(*sheets), name@, i) && self.sheet(*sheets)[i] == *sprite,
                None => forall|i: int|
                    0 <= i < self.sheet(*sheets).len() ==> (#[trigger] self.sheet(*sheets)[i]).name@
                        != name@,
            },
    {
        let sprites: &[Sprite] = self.sprites(sheets);
        let wanted: String = name.to_owned();
        let mut i: usize = 0;
        while i < sprites.len()
            invariant
                i <= sprites@.len(),
                sprites@ == self.sheet(*sheets),
                wanted@ == name@,
                forall|j: int| 0 <= j < i ==> (#[trigger] sprites@[j]).name@ != name@,
            decreases sprites@.len() - i,
        {
            if sprites[i].name == wanted {
                assert(first_named(sprites@, name@, i as int));
                return Some(&sprites[i]);
            }
            i = i + 1;
        }
        None
    }

    /// The name of the folder that the animal's bitmaps are in.
    pub fn folder(self) -> (name: &'static str)
        ensures
            name@ == (match self {
                Animal::Neko => "neko"@,
                Animal::Dog => "dog"@,
            }),
    {
        match self {
            Animal::Neko => "neko",
            Animal::Dog => "dog",
        }
    }

    /// Reads the name of an animal.
    pub fn parse(name: &str) -> (animal: Result<Animal, String>)
        ensures
            match animal {
                Ok(animal) => animal_named(name@) == Some(animal),
                Err(message) => animal_named(name@) is None && message@ == "unknown animal: "@ + name@,
            },
    {
        if same(name, "neko") || same(name, "cat") {
            Ok(Animal::Neko)
        } else if same(name, "dog") || same(name, "inu") {
            Ok(Animal::Dog)
        } else {
            let mut message: String = "unknown animal: ".to_owned();
            vstd::string::StringExecFns::append(&mut message, name);
            Err(message)
        }
    }
}

impl std::str::FromStr for Animal {
    type Err = String;

    fn from_str(s: &str) -> (animal: Result<Animal, String>)
        ensures
            match animal {
                Ok(animal) => animal_named(s@) == Some(animal),
                Err(message) => animal_named(s@) is None && message@ == "unknown animal: "@ + s@,
            },
    {
        Animal::parse(s)
    }
}

impl Sheets {
    /// Whether every sprite holds a bit for every pixel.
    pub open spec fn well_formed(self) -> bool {
        &&& forall|i: int| 0 <= i < self.neko@.len() ==> (#[trigger] self.neko@[i]).well_formed()
        &&& forall|i: int| 0 <= i < self.dog@.len() ==> (#[trigger] self.dog@[i]).well_formed()
    }

    /// Puts together the sheets of all animals from their bitmap files. The first
    /// animal whose files are no sheet decides the error.
    pub fn load(neko: &Vec<BitmapFile>, dog: &Vec<BitmapFile>) -> (sheets: Result<Sheets, SheetError>)
        ensures
            match sheets {
                Ok(sheets) => {
                    &&& comes_to("neko"@, neko@, Ok(sheets.neko))
                    &&& comes_to("dog"@, dog@, Ok(sheets.dog))
                    &&& sheets.well_formed()
                },
                Err(error) => {
                    ||| comes_to("neko"@, neko@, Err(error))
                    ||| comes_to("dog"@, dog@, Err(error)) && exists|sheet: Vec<Sprite>| #[trigger]
                        comes_to("neko"@, neko@, Ok(sheet))
                },
            },
    {
        let neko: Vec<Sprite> = match load_sheet(Animal::Neko.folder(), neko) {
            Ok(sheet) => sheet,
            Err(error) => return Err(error),
        };
        let dog: Vec<Sprite> = match load_sheet(Animal::Dog.folder(), dog) {
            Ok(sheet) => sheet,
            Err(error) => return Err(error),
        };
        Ok(Sheets { neko, dog })
    }
}

/// The full set of frames that an animal is drawn with, in the order of their
/// names: two each of eight directions, four wall scratches, and the idle
/// animations.
pub open spec fn all_frames() -> Seq<Seq<char>> {
    seq![
        "awake"@,
        "down1"@,
        "down2"@,
        "dtogi1"@,
        "dtogi2"@,
        "dwleft1"@,
        "dwleft2"@,
        "dwright1"@,
        "dwright2"@,
        "jare2"@,
        "kaki1"@,
        "kaki2"@,
        "left1"@,
        "left2"@,
        "ltogi1"@,
        "ltogi2"@,
        "mati2"@,
        "mati3"@,
        "right1"@,
        "right2"@,
        "rtogi1"@,
        "rtogi2"@,
        "sleep1"@,
        "sleep2"@,
        "up1"@,
        "up2"@,
        "upleft1"@,
        "upleft2"@,
        "upright1"@,
        "upright2"@,
        "utogi1"@,
        "utogi2"@,
    ]
}

/// Where the two frames of a state stand in the full set.
spec fn frame_places(state: State) -> (int, int) {
    match state {
        State::Stop => (16, 16),
        State::Jare => (9, 16),
        State::Kaki => (10, 11),
        State::Akubi => (17, 17),
        State::Sleep => (22, 23),
        State::Awake => (0, 0),
        State::Move(Direction::Up) => (24, 25),
        State::Move(Direction::Down) => (1, 2),
        State::Move(Direction::Left) => (12, 13),
        State::Move(Direction::Right) => (18, 19),
        State::Move(Direction::UpLeft) => (26, 27),
        State::Move(Direction::UpRight) => (28, 29),
        State::Move(Direction::DownLeft) => (5, 6),
        State::Move(Direction::DownRight) => (7, 8),
        State::Scratch(Wall::Up) => (30, 31),
        State::Scratch(Wall::Down) => (3, 4),
        State::Scratch(Wall::Left) => (14, 15),
        State::Scratch(Wall::Right) => (20, 21),
    }
}

/// Every state is drawn with frames of the full set.
pub proof fn every_state_has_its_frames(state: State)
    ensures
        all_frames().contains(frame_names(state).0),
        all_frames().contains(frame_names(state).1),
{
    let (a, b) = frame_places(state);
    assert(all_frames()[a] == frame_names(state).0);
    assert(all_frames()[b] == frame_names(state).1);
}

/// A number made of the length, the first three characters and the last character
/// of a name, which is enough to tell the frames apart.
spec fn signature(name: Seq<char>) -> int {
    (((name.len() * 128 + name[0] as int) * 128 + name[1] as int) * 128 + name[2] as int) * 128
        + name.last() as int
}

/// The signatures of the full set.
spec fn signatures() -> Seq<int> {
    seq![
        1547563237,
        1553726385,
        1553726386,
        1822242737,
        1822242738,
        2090726961,
        2090726962,
        2359163185,
        2359163186,
        1566079282,
        1568175537,
        1568175538,
        1570337585,
        1570337586,
        1839019953,
        1839019954,
        1572370994,
        1572370995,
        1851421617,
        1851421618,
        1851602865,
        1851602866,
        1853567665,
        1853567666,
        1052514481,
        1052514610,
        2126263857,
        2126263858,
        2394700081,
        2394700082,
        1857894321,
        1857894322,
    ]
}

/// Each frame of the full set has its own signature.
proof fn frames_have_signatures(i: int)
    requires
        0 <= i < 32,
    ensures
        all_frames().len() == 32,
        all_frames()[i].len() > 0,
        signature(all_frames()[i]) == signatures()[i],
{
    reveal_strlit("awake");
    reveal_strlit("down1");
    reveal_strlit("down2");
    reveal_strlit("dtogi1");
    reveal_strlit("dtogi2");
    reveal_strlit("dwleft1");
    reveal_strlit("dwleft2");
    reveal_strlit("dwright1");
    reveal_strlit("dwright2");
    reveal_strlit("jare2");
    reveal_strlit("kaki1");
    reveal_strlit("kaki2");
    reveal_strlit("left1");
    reveal_strlit("left2");
    reveal_strlit("ltogi1");
    reveal_strlit("ltogi2");
    reveal_strlit("mati2");
    reveal_strlit("mati3");
    reveal_strlit("right1");
    reveal_strlit("right2");
    reveal_strlit("rtogi1");
    reveal_strlit("rtogi2");
    reveal_strlit("sleep1");
    reveal_strlit("sleep2");
    reveal_strlit("up1");
    reveal_strlit("up2");
    reveal_strlit("upleft1");
    reveal_strlit("upleft2");
    reveal_strlit("upright1");
    reveal_strlit("upright2");
    reveal_strlit("utogi1");
    reveal_strlit("utogi2");
    assert(signature("awake"@) == 1547563237);
    assert(signature("down1"@) == 1553726385);
    assert(signature("down2"@) == 1553726386);
    assert(signature("dtogi1"@) == 1822242737);
    assert(signature("dtogi2"@) == 1822242738);
    assert(signature("dwleft1"@) == 2090726961);
    assert(signature("dwleft2"@) == 2090726962);
    assert(signature("dwright1"@) == 2359163185);
    assert(signature("dwright2"@) == 2359163186);
    assert(signature("jare2"@) == 1566079282);
    assert(signature("kaki1"@) == 1568175537);
    assert(signature("kaki2"@) == 1568175538);
    assert(signature("left1"@) == 1570337585);
    assert(signature("left2"@) == 1570337586);
    assert(signature("ltogi1"@) == 1839019953);
    assert(signature("ltogi2"@) == 1839019954);
    assert(signature("mati2"@) == 1572370994);
    assert(signature("mati3"@) == 1572370995);
    assert(signature("right1"@) == 1851421617);
    assert(signature("right2"@) == 1851421618);
    assert(signature("rtogi1"@) == 1851602865);
    assert(signature("rtogi2"@) == 1851602866);
    assert(signature("sleep1"@) == 1853567665);
    assert(signature("sleep2"@) == 1853567666);
    assert(signature("up1"@) == 1052514481);
    assert(signature("up2"@) == 1052514610);
    assert(signature("upleft1"@) == 2126263857);
    assert(signature("upleft2"@) == 2126263858);
    assert(signature("upright1"@) == 2394700081);
    assert(signature("upright2"@) == 2394700082);
    assert(signature("utogi1"@) == 1857894321);
    assert(signature("utogi2"@) == 1857894322);
}

/// The full set holds 32 frames, none of them nameless and no two of the same name.
pub proof fn frames_have_their_own_names(i: int, j: int)
    requires
        0 <= i < all_frames().len(),
        0 <= j < all_frames().len(),
    ensures
        all_frames().len() == 32,
        all_frames()[i].len() > 0,
        all_frames()[i] == all_frames()[j] ==> i == j,
{
    frames_have_signatures(i);
    frames_have_signatures(j);
}

/// No two states are drawn with the same pair of frames.
pub proof fn states_look_different(one: State, other: State)
    requires
        frame_names(one) == frame_names(other),
    ensures
        one == other,
{
    let (a, b) = frame_places(one);
    let (c, d) = frame_places(other);
    assert(all_frames()[a] == frame_names(one).0 && all_frames()[b] == frame_names(one).1);
    assert(all_frames()[c] == frame_names(other).0 && all_frames()[d] == frame_names(other).1);
    frames_have_their_own_names(a, c);
    frames_have_their_own_names(b, d);
}

/// States that use the frames of the full set, one for each.
spec fn users() -> Seq<State> {
    seq![
        State::Awake,
        State::Move(Direction::Down),
        State::Move(Direction::Down),
        State::Scratch(Wall::Down),
        State::Scratch(Wall::Down),
        State::Move(Direction::DownLeft),
        State::Move(Direction::DownLeft),
        State::Move(Direction::DownRight),
        State::Move(Direction::DownRight),
        State::Jare,
        State::Kaki,
        State::Kaki,
        State::Move(Direction::Left),
        State::Move(Direction::Left),
        State::Scratch(Wall::Left),
        State::Scratch(Wall::Left),
        State::Stop,
        State::Akubi,
        State::Move(Direction::Right),
        State::Move(Direction::Right),
        State::Scratch(Wall::Right),
        State::Scratch(Wall::Right),
        State::Sleep,
        State::Sleep,
        State::Move(Direction::Up),
        State::Move(Direction::Up),
        State::Move(Direction::UpLeft),
        State::Move(Direction::UpLeft),
        State::Move(Direction::UpRight),
        State::Move(Direction::UpRight),
        State::Scratch(Wall::Up),
        State::Scratch(Wall::Up),
    ]
}

/// No frame of the full set is left unused: some state is drawn with it.
pub proof fn every_frame_is_used(name: Seq<char>) -> (state: State)
    requires
        all_frames().contains(name),
    ensures
        frame_names(state).0 == name || frame_names(state).1 == name,
{
    let i = choose|i: int| 0 <= i < all_frames().len() && all_frames()[i] == name;
    let state = users()[i];
    let (a, b) = frame_places(state);
    assert(i == a || i == b);
    assert(all_frames()[a] == frame_names(state).0 && all_frames()[b] == frame_names(state).1);
    state
}

/// Whether a sheet holds every frame of the full set.
pub open spec fn holds_every_frame(sheet: Seq<Sprite>) -> bool {
    forall|name: Seq<char>| #[trigger]
        all_frames().contains(name) ==> exists|i: int|
            0 <= i < sheet.len() && #[trigger] sheet[i].name@ == name
}

/// With a sheet that holds the full set, the animal can be drawn whatever it is
/// doing: both frames of its state are there.
pub proof fn a_full_sheet_is_enough(mind: Mind, sheet: Seq<Sprite>)
    requires
        holds_every_frame(sheet),
    ensures
        exists|i: int| 0 <= i < sheet.len() && #[trigger] sheet[i].name@ == mind.frame_name(),
        exists|i: int| 0 <= i < sheet.len() && #[trigger] sheet[i].name@ == frame_names(mind.state).0,
        exists|i: int| 0 <= i < sheet.len() && #[trigger] sheet[i].name@ == frame_names(mind.state).1,
{
    every_state_has_its_frames(mind.state);
}

/// No two sprites of a loaded sheet have the same name, so a frame's name finds
/// that frame's bitmaps.
pub proof fn names_tell_frames_apart(sheet: Seq<Sprite>, frames: Map<Seq<char>, Pair>, i: int, j: int)
    requires
        is_sheet_of(sheet, frames),
        0 <= i < sheet.len(),
        0 <= j < sheet.len(),
        sheet[i].name@ == sheet[j].name@,
    ensures
        i == j,
        made_of(sheet[i], frames[sheet[i].name@]),
{
    precedes_is_an_order(sheet[i].name@, sheet[j].name@, sheet[i].name@);
    if i < j {
        assert(precedes(sheet[i].name@, sheet[j].name@));
    } else if j < i {
        assert(precedes(sheet[j].name@, sheet[i].name@));
    }
}

} // verus!
