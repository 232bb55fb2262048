//! What texts stand for, told character by character.

use vstd::prelude::*;

use crate::cli::{Colour, ColourError, colour_of};
use crate::cursor::{names_in, unblank};
use crate::sheet::{Animal, animal_named};
use crate::text::{
    NumberError, digits_value, is_blank, number_value, pieces, precedes, trimmed,
};
use crate::xbm::{Bitmap, XbmError, bitmap_of, braced, byte_list, byte_value, dimension_text, dimensions};

verus! {

/// One more digit counts for itself, and makes the digits before it count for the base
/// times as much. It is the first one that is no digit of the base, or that takes the
/// number beyond what is allowed, that is wrong with a number.
pub proof fn a_digit_counts_by_its_place(digits: Seq<char>, c: char, base: int, max: int)
    requires
        2 <= base <= 16,
    ensures
        digits_value(Seq::empty(), base, max) == Ok::<int, NumberError>(0),
        digits_value(digits, base, max) is Err ==> digits_value(digits.push(c), base, max)
            == digits_value(digits, base, max),
        digits_value(digits, base, max) matches Ok(value) ==> ({
            let code = c as int;
            let worth = if 48 <= code <= 57 {
                code - 48
            } else if 97 <= code <= 102 {
                code - 87
            } else if 65 <= code <= 70 {
                code - 55
            } else {
                16
            };
            let now = digits_value(digits.push(c), base, max);
            &&& worth >= base ==> now == Err::<int, NumberError>(NumberError::InvalidDigit)
            &&& worth < base && value * base + worth > max ==> now == Err::<int, NumberError>(
                NumberError::TooLarge,
            )
            &&& worth < base && value * base + worth <= max ==> now == Ok::<int, NumberError>(
                value * base + worth,
            )
        }),
{
    assert(digits.push(c).drop_last() =~= digits);
}

/// A number is its digits, and a plus sign before them makes no difference. Nothing is no
/// number, and neither is a plus sign alone.
pub proof fn a_plus_sign_makes_no_difference(digits: Seq<char>, base: int, max: int)
    requires
        2 <= base <= 16,
    ensures
        number_value(Seq::empty(), base, max) == Err::<int, NumberError>(NumberError::Empty),
        number_value(seq!['+'], base, max) == Err::<int, NumberError>(NumberError::InvalidDigit),
        digits.len() > 0 ==> number_value(seq!['+'] + digits, base, max) == digits_value(
            digits,
            base,
            max,
        ),
        digits.len() > 0 && digits[0] != '+' ==> number_value(digits, base, max) == digits_value(
            digits,
            base,
            max,
        ),
{
    assert((seq!['+'] + digits).drop_first() =~= digits);
}

/// The characters that count as blank, by their numbers.
pub proof fn blanks_by_number(c: char)
    ensures
        is_blank(c) <==> {
            let code = c as int;
            ||| 9 <= code <= 13
            ||| code == 32
            ||| code == 133
            ||| code == 160
            ||| code == 5760
            ||| 8192 <= code <= 8202
            ||| code == 8232
            ||| code == 8233
            ||| code == 8239
            ||| code == 8287
            ||| code == 12288
        },
{
}

/// Trimming takes blanks from the two ends of a text and nothing else: what is left stands
/// in the text with only blanks before it and after it, and begins and ends with none.
pub proof fn trimming_takes_blanks_from_the_ends(text: Seq<char>) -> (ends: (int, int))
    ensures
        0 <= ends.0 <= ends.1 <= text.len(),
        trimmed(text) == text.subrange(ends.0, ends.1),
        forall|i: int| 0 <= i < ends.0 ==> is_blank(#[trigger] text[i]),
        forall|i: int| ends.1 <= i < text.len() ==> is_blank(#[trigger] text[i]),
        ends.0 < ends.1 ==> !is_blank(text[ends.0]) && !is_blank(text[ends.1 - 1]),
    decreases text.len(),
{
    if text.len() == 0 {
        assert(text.subrange(0, 0) =~= text);
        (0, 0)
    } else if is_blank(text.first()) {
        let rest = text.drop_first();
        let (a, b) = trimming_takes_blanks_from_the_ends(rest);
        assert(text.subrange(a + 1, b + 1) =~= rest.subrange(a, b));
        assert forall|i: int| 0 <= i < a + 1 implies is_blank(#[trigger] text[i]) by {
            if i > 0 {
                assert(rest[i - 1] == text[i]);
            }
        }
        assert forall|i: int| b + 1 <= i < text.len() implies is_blank(#[trigger] text[i]) by {
            assert(rest[i - 1] == text[i]);
        }
        (a + 1, b + 1)
    } else if is_blank(text.last()) {
        let rest = text.drop_last();
        let (a, b) = trimming_takes_blanks_from_the_ends(rest);
        assert(text.subrange(a, b) =~= rest.subrange(a, b));
        assert forall|i: int| 0 <= i < a implies is_blank(#[trigger] text[i]) by {
            assert(rest[i] == text[i]);
        }
        assert forall|i: int| b <= i < text.len() implies is_blank(#[trigger] text[i]) by {
            if i < rest.len() {
                assert(rest[i] == text[i]);
            }
        }
        (a, b)
    } else {
        assert(text.subrange(0, text.len() as int) =~= text);
        (0, text.len() as int)
    }
}

/// Texts one after the other, with a separator between each and the next.
pub open spec fn strung(parts: Seq<Seq<char>>, separator: char) -> Seq<char>
    decreases parts.len(),
{
    if parts.len() == 0 {
        Seq::empty()
    } else if parts.len() == 1 {
        parts[0]
    } else {
        strung(parts.drop_last(), separator) + seq![separator] + parts.last()
    }
}

/// The pieces of a text make it up again with the separator between them, and none of
/// them has the separator in it.
pub proof fn pieces_make_up_the_text(text: Seq<char>, separator: char)
    ensures
        pieces(text, separator).len() >= 1,
        strung(pieces(text, separator), separator) == text,
        forall|i: int, j: int|
            0 <= i < pieces(text, separator).len() && 0 <= j < pieces(text, separator)[i].len()
                ==> pieces(text, separator)[i][j] != separator,
    decreases text.len(),
{
    if text.len() == 0 {
        assert(strung(pieces(text, separator), separator) =~= text);
    } else {
        let before = pieces(text.drop_last(), separator);
        let now = pieces(text, separator);
        pieces_make_up_the_text(text.drop_last(), separator);
        assert(text =~= text.drop_last() + seq![text.last()]);
        if text.last() == separator {
            assert(now.drop_last() =~= before);
            assert(strung(now, separator) =~= text);
            assert forall|i: int, j: int| 0 <= i < now.len() && 0 <= j < now[i].len() implies now[i][j]
                != separator by {
                assert(i < before.len() && now[i] == before[i]);
            }
        } else {
            let grown = before.last().push(text.last());
            assert(now.drop_last() =~= before.drop_last());
            assert(now.last() == grown);
            if before.len() == 1 {
                assert(strung(now, separator) =~= text);
            } else {
                assert(strung(now, separator) =~= strung(before, separator) + seq![text.last()]);
            }
            assert forall|i: int, j: int| 0 <= i < now.len() && 0 <= j < now[i].len() implies now[i][j]
                != separator by {
                if i < before.len() - 1 {
                    assert(now[i] == before[i]);
                } else {
                    assert(now[i] == grown);
                    if j < before.last().len() {
                        assert(before[before.len() - 1][j] == grown[j]);
                    }
                }
            }
        }
    }
}

/// Texts are in the order of the first characters that they differ in, and one that the
/// other begins with comes first.
pub proof fn texts_differ_where_they_differ(a: Seq<char>, b: Seq<char>, k: int)
    requires
        0 <= k <= a.len(),
        k < b.len(),
        forall|i: int| 0 <= i < k ==> a[i] == b[i],
        k < a.len() ==> a[k] as int != b[k] as int,
    ensures
        k == a.len() ==> precedes(a, b),
        k < a.len() ==> (precedes(a, b) <==> (a[k] as int) < (b[k] as int)),
    decreases k,
{
    if k > 0 {
        let (c, d) = (a.drop_first(), b.drop_first());
        assert(a.first() == b.first());
        assert forall|i: int| 0 <= i < k - 1 implies c[i] == d[i] by {
            assert(c[i] == a[i + 1] && d[i] == b[i + 1]);
        }
        texts_differ_where_they_differ(c, d, k - 1);
    }
}

/// A colour of eight digits is their number; one of six is their number with all of the
/// alpha on top, so that it is opaque. A `#` before the digits makes no difference, and
/// any other number of digits is no colour.
pub proof fn colours_are_their_digits(digits: Seq<char>, value: int)
    requires
        digits.len() > 0,
        digits[0] != '#',
        digits[0] != '+',
        digits_value(digits, 16, u32::MAX as int) == Ok::<int, NumberError>(value),
    ensures
        ({
            let (plain, marked) = (colour_of(digits), colour_of(seq!['#'] + digits));
            &&& digits.len() == 8 ==> marked == Ok::<Colour, ColourError>(Colour(value as u32))
            &&& digits.len() == 6 && value < 0x100_0000 ==> marked == Ok::<Colour, ColourError>(
                Colour((0xff00_0000 + value) as u32),
            )
            &&& digits.len() != 6 && digits.len() != 8 ==> marked == Err::<Colour, ColourError>(
                ColourError::WrongLength,
            )
            &&& digits != "black"@ && digits != "white"@ && digits != "transparent"@ && digits
                != "none"@ ==> plain == marked
        }),
{
    let marked = seq!['#'] + digits;
    reveal_strlit("black");
    reveal_strlit("white");
    reveal_strlit("transparent");
    reveal_strlit("none");
    assert(marked.first() == '#');
    assert("black"@.first() != '#' && "white"@.first() != '#' && "transparent"@.first() != '#'
        && "none"@.first() != '#');
    assert(marked.drop_first() =~= digits);
    crate::text::number_fits(digits, 16, u32::MAX as int);
    let bits = value as u32;
    if value < 0x100_0000 {
        assert(bits < 0x100_0000u32 ==> (0xff00_0000u32 | bits) == 0xff00_0000u32 + bits) by (bit_vector);
    }
}

/// What is not a hexadecimal number is not a colour, and it is told why.
pub proof fn a_wrong_number_is_no_colour(digits: Seq<char>, error: NumberError)
    requires
        number_value(digits, 16, 0xffff_ffff) == Err::<int, NumberError>(error),
    ensures
        colour_of(seq!['#'] + digits) == Err::<Colour, ColourError>(ColourError::NotANumber(error)),
        digits != "black"@ && digits != "white"@ && digits != "transparent"@ && digits != "none"@ && !(
        digits.len() > 0 && digits[0] == '#') ==> colour_of(digits) == Err::<Colour, ColourError>(
            ColourError::NotANumber(error),
        ),
{
    let marked = seq!['#'] + digits;
    reveal_strlit("black");
    reveal_strlit("white");
    reveal_strlit("transparent");
    reveal_strlit("none");
    assert(marked.first() == '#');
    assert("black"@.first() != '#' && "white"@.first() != '#' && "transparent"@.first() != '#'
        && "none"@.first() != '#');
    assert(marked.drop_first() =~= digits);
}

/// So many hexadecimal digits make at most four times as many bits: six make 24.
pub proof fn digits_have_four_bits_each(digits: Seq<char>, max: int, count: nat)
    requires
        digits.len() <= count,
    ensures
        digits_value(digits, 16, max) matches Ok(value) ==> 0 <= value < vstd::arithmetic::power::pow(
            16,
            count,
        ),
    decreases count,
{
    vstd::arithmetic::power::lemma_pow0(16);
    vstd::arithmetic::power::lemma_pow_positive(16, count);
    if digits.len() > 0 {
        let less = (count - 1) as nat;
        digits_have_four_bits_each(digits.drop_last(), max, less);
        reveal(vstd::arithmetic::power::pow);
        assert(vstd::arithmetic::power::pow(16, count) == 16 * vstd::arithmetic::power::pow(16, less));
    }
}

/// The four colours that go by a name, as alpha, red, green and blue.
pub proof fn named_colours_are_what_they_are_called()
    ensures
        colour_of("black"@) == Ok::<Colour, ColourError>(Colour((255 * 0x100_0000) as u32)),
        colour_of("white"@) == Ok::<Colour, ColourError>(
            Colour((255 * 0x100_0000 + 255 * 0x1_0000 + 255 * 0x100 + 255) as u32),
        ),
        colour_of("transparent"@) == Ok::<Colour, ColourError>(Colour(0)),
        colour_of("none"@) == Ok::<Colour, ColourError>(Colour(0)),
{
    reveal_strlit("black");
    reveal_strlit("white");
    reveal_strlit("transparent");
    reveal_strlit("none");
    assert("black"@.len() == 5 && "white"@.len() == 5 && "transparent"@.len() == 11 && "none"@.len() == 4);
    assert("black"@[0] == 'b' && "white"@[0] == 'w');
}

/// The names that the two animals go by.
pub proof fn animals_go_by_two_names(name: Seq<char>)
    ensures
        animal_named(name) == Some(Animal::Neko) <==> name == "neko"@ || name == "cat"@,
        animal_named(name) == Some(Animal::Dog) <==> name == "dog"@ || name == "inu"@,
{
    reveal_strlit("neko");
    reveal_strlit("cat");
    reveal_strlit("dog");
    reveal_strlit("inu");
    assert("neko"@.len() == 4 && "dog"@.len() == 3 && "inu"@.len() == 3 && "cat"@.len() == 3);
    assert("cat"@[0] == 'c' && "dog"@[0] == 'd' && "inu"@[0] == 'i');
}

/// A byte is written as `0x` and hexadecimal digits, of which two make it up: the first
/// counts sixteen times.
pub proof fn a_byte_is_two_digits(high: char, low: char, h: int, l: int)
    requires
        (48 <= high as int <= 57 && h == high as int - 48) || (97 <= high as int <= 102 && h == high as int
            - 87) || (65 <= high as int <= 70 && h == high as int - 55),
        (48 <= low as int <= 57 && l == low as int - 48) || (97 <= low as int <= 102 && l == low as int
            - 87) || (65 <= low as int <= 70 && l == low as int - 55),
    ensures
        byte_value(seq!['0', 'x', high, low]) == Ok::<u8, XbmError>((16 * h + l) as u8),
        byte_value(seq!['0', 'X', high, low]) == Ok::<u8, XbmError>((16 * h + l) as u8),
        byte_value(seq![high, low]) == Err::<u8, XbmError>(XbmError::NotHex),
{
    reveal_strlit("0x");
    reveal_strlit("0X");
    let (a, b) = (seq!['0', 'x', high, low], seq!['0', 'X', high, low]);
    assert(a.subrange(0, 2) =~= "0x"@);
    assert(b.subrange(0, 2) =~= "0X"@);
    let digits = seq![high, low];
    assert(a.skip(2) =~= digits && b.skip(2) =~= digits);
    a_digit_counts_by_its_place(Seq::empty(), high, 16, 255);
    a_digit_counts_by_its_place(Seq::<char>::empty().push(high), low, 16, 255);
    assert(Seq::<char>::empty().push(high).push(low) =~= digits);
    assert(0 * 16 == 0);
    let c = seq![high, low];
    assert(c.subrange(0, 2) =~= c);
    assert(c[1] == low);
    assert("0x"@[1] == 'x' && "0X"@[1] == 'X');
}

/// The bytes of a list come in its order, one for each entry that is not blank.
pub proof fn bytes_come_in_their_order(entries: Seq<Seq<char>>, entry: Seq<char>)
    ensures
        byte_list(Seq::empty()) == Ok::<Seq<u8>, XbmError>(Seq::empty()),
        byte_list(entries) matches Ok(bytes) ==> ({
            let now = byte_list(entries.push(entry));
            &&& trimmed(entry).len() == 0 ==> now == Ok::<Seq<u8>, XbmError>(bytes)
            &&& trimmed(entry).len() > 0 ==> match byte_value(trimmed(entry)) {
                Ok(byte) => now == Ok::<Seq<u8>, XbmError>(bytes.push(byte)),
                Err(error) => now == Err::<Seq<u8>, XbmError>(error),
            }
        }),
        byte_list(entries) is Err ==> byte_list(entries.push(entry)) == byte_list(entries),
{
    assert(entries.push(entry).drop_last() =~= entries);
}

/// The list of bytes stands between the first brace that opens and the next that closes.
pub proof fn the_bytes_are_in_braces(head: Seq<char>, body: Seq<char>, tail: Seq<char>)
    requires
        !head.contains('{'),
        !body.contains('}'),
    ensures
        braced(head + seq!['{'] + body + seq!['}'] + tail) == Some(body),
        braced(head) is None,
        braced(head + seq!['{'] + body) is None,
{
    let text = head + seq!['{'] + body + seq!['}'] + tail;
    assert(text[head.len() as int] == '{');
    assert(text.contains('{'));
    first_place(text, '{', head.len() as int, head);
    let rest = text.skip((head.len() + 1) as int);
    assert(rest =~= body + seq!['}'] + tail);
    assert(rest[body.len() as int] == '}');
    assert(rest.contains('}'));
    first_place(rest, '}', body.len() as int, body);
    assert(rest.take(body.len() as int) =~= body);
    let open = head + seq!['{'] + body;
    assert(open[head.len() as int] == '{');
    assert(open.contains('{'));
    first_place(open, '{', head.len() as int, head);
    assert(open.skip((head.len() + 1) as int) =~= body);
}

/// Where a character is first, if a text without it comes before it.
proof fn first_place(text: Seq<char>, wanted: char, at: int, before: Seq<char>)
    requires
        0 <= at < text.len(),
        text[at] == wanted,
        before.len() == at,
        forall|i: int| 0 <= i < at ==> text[i] == before[i],
        !before.contains(wanted),
    ensures
        text.index_of_first(wanted) == Some(at),
{
    text.index_of_first_ensures(wanted);
    let found = text.index_of_first(wanted)->0;
    assert(text.contains(wanted));
    if found < at {
        assert(before[found] == wanted);
        assert(before.contains(wanted));
    }
}

/// A bitmap file is its two dimensions, the width before the height, and as many bytes as
/// its rows take up, each padded to a whole byte.
pub proof fn a_bitmap_is_its_size_and_bytes(source: Seq<char>, bitmap: Bitmap)
    ensures
        bitmap_of(source) == Ok::<Bitmap, XbmError>(bitmap) ==> {
            &&& dimensions(pieces(source, '\n')) == Ok::<Seq<int>, XbmError>(
                seq![bitmap.width, bitmap.height],
            )
            &&& braced(source) is Some
            &&& byte_list(pieces(braced(source)->0, ',')) == Ok::<Seq<u8>, XbmError>(bitmap.bits)
            &&& bitmap.bits.len() == (bitmap.width + 7) / 8 * bitmap.height
        },
        dimensions(pieces(source, '\n')) == Ok::<Seq<int>, XbmError>(seq![bitmap.width, bitmap.height])
            && braced(source) is Some && byte_list(pieces(braced(source)->0, ',')) == Ok::<
            Seq<u8>,
            XbmError,
        >(bitmap.bits) && bitmap.bits.len() == (bitmap.width + 7) / 8 * bitmap.height ==> bitmap_of(
            source,
        ) == Ok::<Bitmap, XbmError>(bitmap),
{
    if let Ok(dims) = dimensions(pieces(source, '\n')) {
        if dims.len() == 2 {
            assert(dims =~= seq![dims[0], dims[1]]);
        }
    }
}

/// What is wrong with a bitmap file, in the order that it is looked at: its dimensions,
/// how many there are of them, the braces, the bytes, and how many there are of those.
pub proof fn what_is_wrong_with_a_bitmap(source: Seq<char>)
    ensures
        ({
            let dims = dimensions(pieces(source, '\n'));
            let result = bitmap_of(source);
            &&& dims matches Err(error) ==> result == Err::<Bitmap, XbmError>(error)
            &&& dims matches Ok(dims) ==> {
                &&& dims.len() != 2 ==> result == Err::<Bitmap, XbmError>(XbmError::MissingDimensions)
                &&& dims.len() == 2 && braced(source) is None ==> result == Err::<Bitmap, XbmError>(
                    XbmError::NoByteList,
                )
                &&& dims.len() == 2 && braced(source) is Some ==> match byte_list(
                    pieces(braced(source)->0, ','),
                ) {
                    Err(error) => result == Err::<Bitmap, XbmError>(error),
                    Ok(bytes) => bytes.len() != (dims[0] + 7) / 8 * dims[1] ==> result == Err::<
                        Bitmap,
                        XbmError,
                    >(XbmError::WrongLength),
                }
            }
        }),
{
}

/// Dimensions come in the order of their lines; a line without one adds none, and the
/// first that is not a number is what is wrong with them.
pub proof fn dimensions_come_in_their_order(lines: Seq<Seq<char>>, line: Seq<char>)
    ensures
        dimensions(Seq::empty()) == Ok::<Seq<int>, XbmError>(Seq::empty()),
        dimensions(lines) is Err ==> dimensions(lines.push(line)) == dimensions(lines),
        dimensions(lines) matches Ok(before) ==> match dimension_text(line) {
            None => dimensions(lines.push(line)) == Ok::<Seq<int>, XbmError>(before),
            Some(text) => match number_value(text, 10, 0xffff_ffff) {
                Ok(value) => dimensions(lines.push(line)) == Ok::<Seq<int>, XbmError>(before.push(value)),
                Err(error) => dimensions(lines.push(line)) == Err::<Seq<int>, XbmError>(
                    XbmError::BadDimension(error),
                ),
            },
        },
{
    assert(lines.push(line).drop_last() =~= lines);
}

/// A line that defines a width or a height, of whatever name, tells it after its last
/// space. A line that begins otherwise tells none, and neither does one that defines
/// something else or has nothing after what it defines.
pub proof fn a_dimension_is_defined(
    name: Seq<char>,
    value: Seq<char>,
    other: Seq<char>,
    hot: Seq<char>,
)
    requires
        !value.contains(' '),
        value.len() > 0,
        !is_blank(value.first()),
        !is_blank(value.last()),
        other.len() < 8 || other.take(8) != "#define "@,
        !hot.contains(' ') || {
            &&& forall|i: int| 0 <= i && i + 6 <= hot.len() ==> #[trigger] hot.subrange(i, i + 6)
                != "_width"@
            &&& forall|i: int| 0 <= i && i + 7 <= hot.len() ==> #[trigger] hot.subrange(i, i + 7)
                != "_height"@
        },
    ensures
        dimension_text("#define "@ + name + "_width "@ + value) == Some(value),
        dimension_text("#define "@ + name + "_height "@ + value) == Some(value),
        dimension_text(other) is None,
        dimension_text("#define "@ + hot) is None,
{
    reveal_strlit("#define ");
    reveal_strlit("_width ");
    reveal_strlit("_height ");
    reveal_strlit("_width");
    reveal_strlit("_height");
    let wide = "#define "@ + name + "_width "@ + value;
    let high = "#define "@ + name + "_height "@ + value;
    assert(wide.subrange(0, 8) =~= "#define "@);
    assert(high.subrange(0, 8) =~= "#define "@);
    let (a, b) = (wide.skip(8), high.skip(8));
    let n = name.len() as int;
    assert(a.subrange(n, n + 6) =~= "_width"@);
    assert(crate::text::stands_at(a, "_width"@, n));
    assert(b.subrange(n, n + 7) =~= "_height"@);
    assert(crate::text::stands_at(b, "_height"@, n));
    assert(a =~= (name + "_width"@) + seq![' '] + value);
    assert(b =~= (name + "_height"@) + seq![' '] + value);
    last_piece(name + "_width"@, value, ' ');
    last_piece(name + "_height"@, value, ' ');
    trimmed_already(value);
    if other.len() >= 8 {
        assert(other.take(8) =~= other.subrange(0, 8));
    }
    assert(("#define "@ + hot).skip(8) =~= hot);
    if !hot.contains(' ') {
        only_piece(hot, ' ');
    }
}

/// A text without blanks at its ends is left alone.
proof fn trimmed_already(text: Seq<char>)
    requires
        text.len() > 0,
        !is_blank(text.first()),
        !is_blank(text.last()),
    ensures
        trimmed(text) == text,
{
}

/// What follows a separator and has none in it is the last piece.
proof fn last_piece(head: Seq<char>, tail: Seq<char>, separator: char)
    requires
        !tail.contains(separator),
    ensures
        ({
            let parts = pieces(head + seq![separator] + tail, separator);
            parts.len() >= 2 && parts.last() == tail && parts == pieces(head, separator).push(tail)
        }),
    decreases tail.len(),
{
    let text = head + seq![separator] + tail;
    if tail.len() == 0 {
        assert(text.drop_last() =~= head);
        pieces_make_up_the_text(head, separator);
        assert(pieces(text, separator).last() =~= tail);
        assert(pieces(text, separator) =~= pieces(head, separator).push(tail));
    } else {
        let rest = tail.drop_last();
        assert(text.drop_last() =~= head + seq![separator] + rest);
        assert(!rest.contains(separator)) by {
            if rest.contains(separator) {
                let k = choose|k: int| 0 <= k < rest.len() && rest[k] == separator;
                assert(tail[k] == separator);
            }
        }
        last_piece(head, rest, separator);
        assert(text.last() == tail[tail.len() - 1]);
        assert(tail.contains(tail[tail.len() - 1]));
        assert(rest.push(tail.last()) =~= tail);
        assert(pieces(head, separator).push(rest).drop_last() =~= pieces(head, separator));
    }
}

/// A list of names goes on after a comma: what follows it is one more name, without the
/// blanks around it, or none if there is nothing but blanks.
pub proof fn a_list_goes_on_after_a_comma(list: Seq<char>, name: Seq<char>)
    requires
        !name.contains(','),
    ensures
        names_in(list + seq![','] + name) == (if trimmed(name).len() == 0 {
            names_in(list)
        } else {
            names_in(list).push(trimmed(name))
        }),
        names_in(name) == (if trimmed(name).len() == 0 {
            Seq::empty()
        } else {
            seq![trimmed(name)]
        }),
{
    last_piece(list, name, ',');
    let all = pieces(list + seq![','] + name, ',');
    assert(all.drop_last() =~= pieces(list, ','));
    only_piece(name, ',');
    let one = pieces(name, ',');
    assert(one.drop_last() =~= Seq::empty());
    reveal_with_fuel(unblank, 2);
    assert(Seq::<Seq<char>>::empty().push(trimmed(name)) =~= seq![trimmed(name)]);
}

/// A text without the separator is one piece.
proof fn only_piece(text: Seq<char>, separator: char)
    requires
        !text.contains(separator),
    ensures
        pieces(text, separator) == seq![text],
    decreases text.len(),
{
    if text.len() == 0 {
        assert(text =~= Seq::empty());
    } else {
        let rest = text.drop_last();
        assert(!rest.contains(separator)) by {
            if rest.contains(separator) {
                let k = choose|k: int| 0 <= k < rest.len() && rest[k] == separator;
                assert(text[k] == separator);
            }
        }
        only_piece(rest, separator);
        assert(text.contains(text[text.len() - 1]));
        assert(rest.push(text.last()) =~= text);
        let before = pieces(rest, separator);
        assert(before.last() == rest);
        assert(pieces(text, separator) == before.drop_last().push(text));
        assert(pieces(text, separator) =~= seq![text]);
    }
}

} // verus!
