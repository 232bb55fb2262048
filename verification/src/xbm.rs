//! The subset of the xbm format that the bitmaps use: two `#define`s for the
//! dimensions followed by a brace-delimited list of byte literals.

use vstd::prelude::*;

use crate::sprite::{bytes_per_row, row_bytes};
use crate::text::{
    NumberError, chars_of, find, is_at, mentions, number, number_value, occurs, pieces, places, split,
    stands_at, trim, trimmed,
};

verus! {

/// One parsed xbm file: dimensions plus the raw 1-bit rows.
#[derive(Debug)]
pub struct Xbm {
    pub width: u32,
    pub height: u32,
    pub bits: Vec<u8>,
}

/// What an xbm file says.
#[verifier::ext_equal]
pub struct Bitmap {
    pub width: int,
    pub height: int,
    pub bits: Seq<u8>,
}

impl View for Xbm {
    type V = Bitmap;

    open spec fn view(&self) -> Bitmap {
        Bitmap { width: self.width as int, height: self.height as int, bits: self.bits@ }
    }
}

/// Why a text is not an xbm file.
#[derive(Debug, Clone, Copy, PartialEq, Eq, Structural)]
pub enum XbmError {
    /// A dimension is not a number.
    BadDimension(NumberError),
    /// There are not exactly two dimensions.
    MissingDimensions,
    /// There is no byte list in braces.
    NoByteList,
    /// A byte does not start with `0x`.
    NotHex,
    /// What follows the `0x` is not a byte.
    BadByte(NumberError),
    /// The byte list is not as long as the dimensions ask for.
    WrongLength,
}

/// The part of a text after the last occurrence of a character.
pub open spec fn after_last(text: Seq<char>, mark: char) -> Option<Seq<char>> {
    let parts = pieces(text, mark);
    if parts.len() < 2 {
        None
    } else {
        Some(parts.last())
    }
}

/// The text of the dimension that a line defines, if it defines one.
pub open spec fn dimension_text(line: Seq<char>) -> Option<Seq<char>> {
    let rest = line.skip("#define "@.len() as int);
    if stands_at(line, "#define "@, 0) && (occurs(rest, "_width"@) || occurs(rest, "_height"@)) {
        match after_last(rest, ' ') {
            None => None,
            Some(value) => Some(trimmed(value)),
        }
    } else {
        None
    }
}

/// The dimensions that lines define, in their order. The first that is not a
/// number is what is wrong with them.
pub open spec fn dimensions(lines: Seq<Seq<char>>) -> Result<Seq<int>, XbmError>
    decreases lines.len(),
{
    if lines.len() == 0 {
        Ok(Seq::empty())
    } else {
        match dimensions(lines.drop_last()) {
            Err(error) => Err(error),
            Ok(before) => match dimension_text(lines.last()) {
                None => Ok(before),
                Some(text) => match number_value(text, 10, u32::MAX as int) {
                    Err(error) => Err(XbmError::BadDimension(error)),
                    Ok(value) => Ok(before.push(value)),
                },
            },
        }
    }
}

/// The text between the first opening brace and the first closing brace after
/// it.
pub open spec fn braced(text: Seq<char>) -> Option<Seq<char>> {
    if !text.contains('{') {
        None
    } else {
        let open = text.index_of_first('{')->0;
        let rest = text.skip(open + 1);
        if !rest.contains('}') {
            None
        } else {
            Some(rest.take(rest.index_of_first('}')->0))
        }
    }
}

/// The byte that a literal stands for.
pub open spec fn byte_value(token: Seq<char>) -> Result<u8, XbmError> {
    if !stands_at(token, "0x"@, 0) && !stands_at(token, "0X"@, 0) {
        Err(XbmError::NotHex)
    } else {
        match number_value(token.skip(2), 16, u8::MAX as int) {
            Err(error) => Err(XbmError::BadByte(error)),
            Ok(value) => Ok(value as u8),
        }
    }
}

/// The bytes of a list, blank entries aside. The first entry that is not a byte
/// is what is wrong with it.
pub open spec fn byte_list(entries: Seq<Seq<char>>) -> Result<Seq<u8>, XbmError>
    decreases entries.len(),
{
    if entries.len() == 0 {
        Ok(Seq::empty())
    } else {
        match byte_list(entries.drop_last()) {
            Err(error) => Err(error),
            Ok(before) => {
                let token = trimmed(entries.last());
                if token.len() == 0 {
                    Ok(before)
                } else {
                    match byte_value(token) {
                        Err(error) => Err(error),
                        Ok(byte) => Ok(before.push(byte)),
                    }
                }
            },
        }
    }
}

/// The bitmap that an xbm file holds.
pub open spec fn bitmap_of(source: Seq<char>) -> Result<Bitmap, XbmError> {
    match dimensions(pieces(source, '\n')) {
        Err(error) => Err(error),
        Ok(dims) => if dims.len() != 2 {
            Err(XbmError::MissingDimensions)
        } else {
            match braced(source) {
                None => Err(XbmError::NoByteList),
                Some(body) => match byte_list(pieces(body, ',')) {
                    Err(error) => Err(error),
                    Ok(bits) => if bits.len() != bytes_per_row(dims[0]) * dims[1] {
                        Err(XbmError::WrongLength)
                    } else {
                        Ok(Bitmap { width: dims[0], height: dims[1], bits })
                    },
                },
            }
        },
    }
}

/// Whether what was computed is what was specified.
pub open spec fn agree<A: View>(computed: Result<A, XbmError>, specified: Result<A::V, XbmError>) -> bool {
    match computed {
        Ok(value) => specified == Ok::<A::V, XbmError>(value@),
        Err(error) => specified == Err::<A::V, XbmError>(error),
    }
}

/// Reads the dimension that the line `text[from..to]` defines, if it defines
/// one.
fn read_dimension(text: &[char], from: usize, to: usize) -> (dimension: Option<
    Result<u32, NumberError>,
>)
    requires
        from <= to <= text@.len(),
    ensures
        match dimension_text(text@.subrange(from as int, to as int)) {
            None => dimension is None,
            Some(value) => match dimension {
                None => false,
                Some(Ok(v)) => number_value(value, 10, u32::MAX as int) == Ok::<int, NumberError>(
                    v as int,
                ),
                Some(Err(e)) => number_value(value, 10, u32::MAX as int) == Err::<int, NumberError>(e),
            },
        },
{
    proof {
        reveal_strlit("#define ");
    }
    let ghost line = text@.subrange(from as int, to as int);
    proof {
        let inner = text@.take(to as int);
        if from + 8 <= to {
            assert(inner.subrange(from as int, from + 8) =~= line.subrange(0, 8));
        }
    }
    if !is_at(text, to, "#define ", from) {
        return None;
    }
    let start: usize = from + 8;
    let ghost rest = line.skip(8);
    assert(rest =~= text@.subrange(start as int, to as int));
    if !mentions(text, start, to, "_width") && !mentions(text, start, to, "_height") {
        return None;
    }
    let parts: Vec<(usize, usize)> = split(text, start, to, ' ');
    if parts.len() < 2 {
        return None;
    }
    let last: (usize, usize) = parts[parts.len() - 1];
    let kept: (usize, usize) = trim(text, last.0, last.1);
    Some(number(text, kept.0, kept.1, 10, u32::MAX))
}

/// Reads the dimensions of a file.
fn read_dimensions(text: &[char]) -> (dims: Result<Vec<u32>, XbmError>)
    ensures
        match dims {
            Ok(values) => dimensions(pieces(text@, '\n')) == Ok::<Seq<int>, XbmError>(
                values@.map_values(|v: u32| v as int),
            ),
            Err(error) => dimensions(pieces(text@, '\n')) == Err::<Seq<int>, XbmError>(error),
        },
{
    let lines: Vec<(usize, usize)> = split(text, 0, text.len(), '\n');
    let ghost all = pieces(text@, '\n');
    assert(text@.subrange(0, text@.len() as int) =~= text@);
    let mut dims: Vec<u32> = Vec::new();
    let mut i: usize = 0;
    assert(all.take(0) =~= Seq::empty());
    assert(dims@.map_values(|v: u32| v as int) =~= Seq::empty());
    while i < lines.len()
        invariant
            i <= lines@.len(),
            all == pieces(text@, '\n'),
            places(text@, lines@, all),
            dimensions(all.take(i as int)) == Ok::<Seq<int>, XbmError>(
                dims@.map_values(|v: u32| v as int),
            ),
        decreases lines@.len() - i,
    {
        let line: (usize, usize) = lines[i];
        assert(all.take(i + 1).drop_last() =~= all.take(i as int));
        assert(all.take(i + 1).last() == all[i as int]);
        let ghost before = dims@;
        match read_dimension(text, line.0, line.1) {
            None => {},
            Some(Ok(value)) => {
                dims.push(value);
                assert(dims@.map_values(|v: u32| v as int) =~= before.map_values(|v: u32| v as int).push(
                    value as int,
                ));
            },
            Some(Err(error)) => {
                proof {
                    bad_dimension_stays(all, i + 1);
                }
                return Err(XbmError::BadDimension(error));
            },
        }
        i = i + 1;
    }
    assert(all.take(i as int) =~= all);
    Ok(dims)
}

/// What is wrong with the first lines is what is wrong with all of them.
proof fn bad_dimension_stays(lines: Seq<Seq<char>>, n: int)
    requires
        0 <= n <= lines.len(),
        dimensions(lines.take(n)) is Err,
    ensures
        dimensions(lines) == dimensions(lines.take(n)),
    decreases lines.len() - n,
{
    if n == lines.len() {
        assert(lines.take(n) =~= lines);
    } else {
        assert(lines.take(n + 1).drop_last() =~= lines.take(n));
        bad_dimension_stays(lines, n + 1);
    }
}

/// Reads the byte literal `text[from..to]`.
fn read_byte(text: &[char], from: usize, to: usize) -> (byte: Result<u8, XbmError>)
    requires
        from <= to <= text@.len(),
    ensures
        byte == byte_value(text@.subrange(from as int, to as int)),
{
    proof {
        reveal_strlit("0x");
        reveal_strlit("0X");
        let inner = text@.take(to as int);
        let token = text@.subrange(from as int, to as int);
        if from + 2 <= to {
            assert(inner.subrange(from as int, from + 2) =~= token.subrange(0, 2));
            assert(token.skip(2) =~= text@.subrange(from + 2, to as int));
        }
    }
    if !is_at(text, to, "0x", from) && !is_at(text, to, "0X", from) {
        return Err(XbmError::NotHex);
    }
    match number(text, from + 2, to, 16, u8::MAX as u32) {
        Ok(value) => {
            proof {
                crate::text::number_fits(text@.subrange(from + 2, to as int), 16, u8::MAX as int);
            }
            Ok(value as u8)
        },
        Err(error) => Err(XbmError::BadByte(error)),
    }
}

/// Reads the byte list `text[from..to]`.
fn read_bytes(text: &[char], from: usize, to: usize) -> (bytes: Result<Vec<u8>, XbmError>)
    requires
        from <= to <= text@.len(),
    ensures
        agree(bytes, byte_list(pieces(text@.subrange(from as int, to as int), ','))),
{
    let entries: Vec<(usize, usize)> = split(text, from, to, ',');
    let ghost all = pieces(text@.subrange(from as int, to as int), ',');
    let mut bytes: Vec<u8> = Vec::new();
    let mut i: usize = 0;
    assert(all.take(0) =~= Seq::empty());
    while i < entries.len()
        invariant
            i <= entries@.len(),
            all == pieces(text@.subrange(from as int, to as int), ','),
            places(text@, entries@, all),
            byte_list(all.take(i as int)) == Ok::<Seq<u8>, XbmError>(bytes@),
        decreases entries@.len() - i,
    {
        let entry: (usize, usize) = entries[i];
        assert(all.take(i + 1).drop_last() =~= all.take(i as int));
        assert(all.take(i + 1).last() == all[i as int]);
        let kept: (usize, usize) = trim(text, entry.0, entry.1);
        if kept.0 < kept.1 {
            match read_byte(text, kept.0, kept.1) {
                Ok(byte) => {
                    bytes.push(byte);
                },
                Err(error) => {
                    proof {
                        bad_byte_stays(all, i + 1);
                    }
                    return Err(error);
                },
            }
        }
        i = i + 1;
    }
    assert(all.take(i as int) =~= all);
    Ok(bytes)
}

/// What is wrong with the first entries is what is wrong with all of them.
proof fn bad_byte_stays(entries: Seq<Seq<char>>, n: int)
    requires
        0 <= n <= entries.len(),
        byte_list(entries.take(n)) is Err,
    ensures
        byte_list(entries) == byte_list(entries.take(n)),
    decreases entries.len() - n,
{
    if n == entries.len() {
        assert(entries.take(n) =~= entries);
    } else {
        assert(entries.take(n + 1).drop_last() =~= entries.take(n));
        bad_byte_stays(entries, n + 1);
    }
}

/// The first occurrence of a character is where it is found.
proof fn found_first(text: Seq<char>, from: int, wanted: char, at: int)
    requires
        0 <= from <= at < text.len(),
        text[at] == wanted,
        forall|j: int| from <= j < at ==> text[j] != wanted,
    ensures
        text.skip(from).contains(wanted),
        text.skip(from).index_of_first(wanted) == Some(at - from),
{
    let rest = text.skip(from);
    assert(rest[at - from] == wanted);
    rest.index_of_first_ensures(wanted);
    let first = rest.index_of_first(wanted)->0;
    if first < at - from {
        assert(text[from + first] != wanted);
    }
}

/// Finds the text between the first opening brace and the first closing brace
/// after it.
fn find_braces(text: &[char]) -> (inner: Option<(usize, usize)>)
    ensures
        match inner {
            None => braced(text@) is None,
            Some((from, to)) => from <= to <= text@.len() && braced(text@) == Some(
                text@.subrange(from as int, to as int),
            ),
        },
{
    let len: usize = text.len();
    match find(text, 0, '{') {
        None => None,
        Some(open) => {
            assert(open < len);
            proof {
                found_first(text@, 0, '{', open as int);
                assert(text@.skip(0) =~= text@);
            }
            let ghost rest = text@.skip(open + 1);
            match find(text, open + 1, '}') {
                None => {
                    assert(!rest.contains('}'));
                    None
                },
                Some(close) => {
                    proof {
                        found_first(text@, open + 1, '}', close as int);
                        assert(rest.take(close - (open + 1)) =~= text@.subrange(open + 1, close as int));
                    }
                    Some((open + 1, close))
                },
            }
        },
    }
}

/// Parses an xbm file.
pub fn parse_xbm(source: &str) -> (xbm: Result<Xbm, XbmError>)
    ensures
        agree(xbm, bitmap_of(source@)),
{
    let chars: Vec<char> = chars_of(source);
    let text: &[char] = chars.as_slice();
    let dims: Vec<u32> = match read_dimensions(text) {
        Ok(dims) => dims,
        Err(error) => return Err(error),
    };
    if dims.len() != 2 {
        return Err(XbmError::MissingDimensions);
    }
    let (width, height): (u32, u32) = (dims[0], dims[1]);
    let body: (usize, usize) = match find_braces(text) {
        Some(body) => body,
        None => return Err(XbmError::NoByteList),
    };
    let bits: Vec<u8> = match read_bytes(text, body.0, body.1) {
        Ok(bits) => bits,
        Err(error) => return Err(error),
    };
    let stride: usize = row_bytes(width);
    assert(0 <= stride * height <= 0x2000_0000 * 0xffff_ffff) by (nonlinear_arith)
        requires
            0 <= stride <= 0x2000_0000,
            0 <= height <= 0xffff_ffff,
    ;
    if bits.len() as u64 != stride as u64 * height as u64 {
        return Err(XbmError::WrongLength);
    }
    Ok(Xbm { width, height, bits })
}

} // verus!
