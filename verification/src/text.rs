//! Text taken apart: splitting, trimming, searching and reading numbers.

use vstd::prelude::*;
use vstd::string::StrSliceExecFns;

verus! {

/// The characters of a string.
pub fn chars_of(text: &str) -> (chars: Vec<char>)
    ensures
        chars@ == text@,
{
    let mut chars: Vec<char> = Vec::new();
    for c in iter: text.chars()
        invariant
            chars@ == iter.seq().take(iter.index() as int),
            iter.seq() == text@,
    {
        chars.push(c);
    }
    chars
}

/// The part of a string between two characters.
pub fn part_of(text: &str, from: usize, to: usize) -> (part: String)
    requires
        from <= to <= text@.len(),
    ensures
        part@ == text@.subrange(from as int, to as int),
{
    text.substring_char(from, to).to_owned()
}

/// Whether two strings hold the same characters.
pub fn same(a: &str, b: &str) -> (same: bool)
    ensures
        same == (a@ == b@),
{
    a.to_owned() == b.to_owned()
}

/// Whether a character has the Unicode property `White_Space`.
pub open spec fn is_blank(c: char) -> bool {
    ||| '\u{9}' <= c <= '\u{d}'
    ||| c == ' '
    ||| c == '\u{85}'
    ||| c == '\u{a0}'
    ||| c == '\u{1680}'
    ||| '\u{2000}' <= c <= '\u{200a}'
    ||| c == '\u{2028}'
    ||| c == '\u{2029}'
    ||| c == '\u{202f}'
    ||| c == '\u{205f}'
    ||| c == '\u{3000}'
}

fn blank(c: char) -> (blank: bool)
    ensures
        blank == is_blank(c),
{
    ('\u{9}' <= c && c <= '\u{d}') || c == ' ' || c == '\u{85}' || c == '\u{a0}' || c == '\u{1680}' || (
    '\u{2000}' <= c && c <= '\u{200a}') || c == '\u{2028}' || c == '\u{2029}' || c == '\u{202f}' || c
        == '\u{205f}' || c == '\u{3000}'
}

/// Text without the blanks at its two ends.
pub open spec fn trimmed(text: Seq<char>) -> Seq<char>
    decreases text.len(),
{
    if text.len() == 0 {
        text
    } else if is_blank(text.first()) {
        trimmed(text.drop_first())
    } else if is_blank(text.last()) {
        trimmed(text.drop_last())
    } else {
        text
    }
}

/// Finds what is left of `text[from..to]` between the blanks at its two ends.
pub fn trim(text: &[char], from: usize, to: usize) -> (kept: (usize, usize))
    requires
        from <= to <= text@.len(),
    ensures
        from <= kept.0 <= kept.1 <= to,
        text@.subrange(kept.0 as int, kept.1 as int) == trimmed(
            text@.subrange(from as int, to as int),
        ),
{
    let mut a: usize = from;
    let mut b: usize = to;
    let ghost want = trimmed(text@.subrange(from as int, to as int));
    while a < b && blank(text[a])
        invariant
            from <= a <= b <= to <= text@.len(),
            trimmed(text@.subrange(a as int, b as int)) == want,
        decreases b - a,
    {
        assert(text@.subrange(a as int, b as int).drop_first() =~= text@.subrange(a + 1, b as int));
        a = a + 1;
    }
    while a < b && blank(text[b - 1])
        invariant
            from <= a <= b <= to <= text@.len(),
            a < b ==> !is_blank(text@[a as int]),
            trimmed(text@.subrange(a as int, b as int)) == want,
        decreases b - a,
    {
        assert(text@.subrange(a as int, b as int).drop_last() =~= text@.subrange(a as int, b - 1));
        b = b - 1;
    }
    (a, b)
}

/// The pieces of a text between one occurrence of a separator and the next. A
/// text without the separator is one piece.
pub open spec fn pieces(text: Seq<char>, separator: char) -> Seq<Seq<char>>
    decreases text.len(),
{
    if text.len() == 0 {
        seq![Seq::empty()]
    } else {
        let before = pieces(text.drop_last(), separator);
        if text.last() == separator {
            before.push(Seq::empty())
        } else {
            before.drop_last().push(before.last().push(text.last()))
        }
    }
}

/// Whether `ranges` are the places of `parts` in a text.
pub open spec fn places(text: Seq<char>, ranges: Seq<(usize, usize)>, parts: Seq<Seq<char>>) -> bool {
    &&& ranges.len() == parts.len()
    &&& forall|k: int|
        0 <= k < ranges.len() ==> (#[trigger] ranges[k]).0 <= ranges[k].1 <= text.len() && text.subrange(
            ranges[k].0 as int,
            ranges[k].1 as int,
        ) == parts[k]
}

/// Finds the pieces of `text[from..to]`.
pub fn split(text: &[char], from: usize, to: usize, separator: char) -> (ranges: Vec<(usize, usize)>)
    requires
        from <= to <= text@.len(),
    ensures
        places(text@, ranges@, pieces(text@.subrange(from as int, to as int), separator)),
{
    let mut ranges: Vec<(usize, usize)> = Vec::new();
    let mut start: usize = from;
    let mut i: usize = from;
    let ghost whole = text@.subrange(from as int, to as int);
    assert(whole.take(0) =~= Seq::empty());
    assert(text@.subrange(start as int, i as int) =~= Seq::empty());
    while i < to
        invariant
            from <= start <= i <= to <= text@.len(),
            whole == text@.subrange(from as int, to as int),
            pieces(whole.take(i - from), separator).len() == ranges@.len() + 1,
            places(text@, ranges@, pieces(whole.take(i - from), separator).drop_last()),
            text@.subrange(start as int, i as int) == pieces(whole.take(i - from), separator).last(),
        decreases to - i,
    {
        let ghost before = pieces(whole.take(i - from), separator);
        let ghost now = pieces(whole.take(i + 1 - from), separator);
        assert(whole.take(i + 1 - from).drop_last() =~= whole.take(i - from));
        assert(whole.take(i + 1 - from).last() == text@[i as int]);
        if text[i] == separator {
            ranges.push((start, i));
            start = i + 1;
            assert(now.drop_last() =~= before);
            assert(before =~= before.drop_last().push(before.last()));
            assert(text@.subrange(start as int, i + 1) =~= Seq::empty());
        } else {
            assert(now.drop_last() =~= before.drop_last());
            assert(text@.subrange(start as int, i + 1) =~= text@.subrange(start as int, i as int).push(
                text@[i as int],
            ));
        }
        i = i + 1;
    }
    assert(whole.take(to - from) =~= whole);
    let ghost all = pieces(whole, separator);
    assert(all =~= all.drop_last().push(all.last()));
    ranges.push((start, to));
    ranges
}

/// Finds the first `wanted` in `text[from..]`.
pub fn find(text: &[char], from: usize, wanted: char) -> (found: Option<usize>)
    requires
        from <= text@.len(),
    ensures
        match found {
            Some(i) => from <= i < text@.len() && text@[i as int] == wanted && forall|j: int|
                from <= j < i ==> text@[j] != wanted,
            None => forall|j: int| from <= j < text@.len() ==> text@[j] != wanted,
        },
{
    let mut i: usize = from;
    while i < text.len()
        invariant
            from <= i <= text@.len(),
            forall|j: int| from <= j < i ==> text@[j] != wanted,
        decreases text@.len() - i,
    {
        if text[i] == wanted {
            return Some(i);
        }
        i = i + 1;
    }
    None
}

/// Whether `wanted` stands in a text at position `at`.
pub open spec fn stands_at(text: Seq<char>, wanted: Seq<char>, at: int) -> bool {
    0 <= at && at + wanted.len() <= text.len() && text.subrange(at, at + wanted.len()) == wanted
}

/// Whether `wanted` stands anywhere in a text.
pub open spec fn occurs(text: Seq<char>, wanted: Seq<char>) -> bool {
    exists|at: int| stands_at(text, wanted, at)
}

/// Tells whether `wanted` stands in `text[..to]` at position `at`.
pub fn is_at(text: &[char], to: usize, wanted: &str, at: usize) -> (yes: bool)
    requires
        at <= to <= text@.len(),
    ensures
        yes == stands_at(text@.take(to as int), wanted@, at as int),
{
    let wanted_chars: Vec<char> = chars_of(wanted);
    let len: usize = wanted_chars.len();
    let ghost part = text@.take(to as int);
    if len > to - at {
        return false;
    }
    let mut i: usize = 0;
    while i < len
        invariant
            len == wanted_chars@.len(),
            wanted_chars@ == wanted@,
            at + len <= to <= text@.len(),
            i <= len,
            part == text@.take(to as int),
            forall|j: int| 0 <= j < i ==> text@[at + j] == wanted@[j],
        decreases len - i,
    {
        if text[at + i] != wanted_chars[i] {
            assert(part.subrange(at as int, at + len)[i as int] != wanted@[i as int]);
            return false;
        }
        i = i + 1;
    }
    assert(part.subrange(at as int, at + len) =~= wanted@);
    true
}

/// Tells whether `wanted` stands anywhere in `text[from..to]`.
pub fn mentions(text: &[char], from: usize, to: usize, wanted: &str) -> (yes: bool)
    requires
        from <= to <= text@.len(),
    ensures
        yes == occurs(text@.subrange(from as int, to as int), wanted@),
{
    let ghost part = text@.subrange(from as int, to as int);
    let mut at: usize = from;
    while at <= to
        invariant
            from <= at <= to + 1,
            from <= to <= text@.len(),
            part == text@.subrange(from as int, to as int),
            forall|j: int| 0 <= j < at - from ==> !stands_at(part, wanted@, j),
        decreases to + 1 - at,
    {
        proof {
            let inner = text@.take(to as int);
            if at + wanted@.len() <= to {
                assert(inner.subrange(at as int, at + wanted@.len()) =~= part.subrange(
                    at - from,
                    at - from + wanted@.len(),
                ));
            }
        }
        if is_at(text, to, wanted, at) {
            assert(stands_at(part, wanted@, at - from));
            return true;
        }
        if at == to {
            assert(forall|j: int| !stands_at(part, wanted@, j));
            return false;
        }
        at = at + 1;
    }
    false
}

/// Why a text is not a number.
#[derive(Debug, Clone, Copy, PartialEq, Eq, Structural)]
pub enum NumberError {
    Empty,
    InvalidDigit,
    TooLarge,
}

impl NumberError {
    /// The reason in words.
    pub fn reason(self) -> (words: &'static str)
        ensures
            words@ == (match self {
                NumberError::Empty => "cannot parse integer from empty string"@,
                NumberError::InvalidDigit => "invalid digit found in string"@,
                NumberError::TooLarge => "number too large to fit in target type"@,
            }),
    {
        match self {
            NumberError::Empty => "cannot parse integer from empty string",
            NumberError::InvalidDigit => "invalid digit found in string",
            NumberError::TooLarge => "number too large to fit in target type",
        }
    }
}

/// The value of a digit in a base of up to sixteen.
pub open spec fn digit_value(c: char, base: int) -> Option<int> {
    let value = if '0' <= c <= '9' {
        c as int - '0' as int
    } else if 'a' <= c <= 'f' {
        c as int - 'a' as int + 10
    } else if 'A' <= c <= 'F' {
        c as int - 'A' as int + 10
    } else {
        base
    };
    if value < base {
        Some(value)
    } else {
        None
    }
}

/// The number that a row of digits stands for. The first character that is no
/// digit, or that takes the number beyond `max`, is what is wrong with it.
pub open spec fn digits_value(digits: Seq<char>, base: int, max: int) -> Result<int, NumberError>
    decreases digits.len(),
{
    if digits.len() == 0 {
        Ok(0)
    } else {
        match digits_value(digits.drop_last(), base, max) {
            Err(error) => Err(error),
            Ok(value) => match digit_value(digits.last(), base) {
                None => Err(NumberError::InvalidDigit),
                Some(digit) => if value * base + digit > max {
                    Err(NumberError::TooLarge)
                } else {
                    Ok(value * base + digit)
                },
            },
        }
    }
}

/// The number that a text stands for: one digit or more, with or without a plus
/// sign before them.
pub open spec fn number_value(text: Seq<char>, base: int, max: int) -> Result<int, NumberError> {
    if text.len() == 0 {
        Err(NumberError::Empty)
    } else if text.first() != '+' {
        digits_value(text, base, max)
    } else if text.len() == 1 {
        Err(NumberError::InvalidDigit)
    } else {
        digits_value(text.drop_first(), base, max)
    }
}

fn digit(c: char, base: u32) -> (value: Option<u32>)
    requires
        2 <= base <= 16,
    ensures
        match value {
            Some(v) => digit_value(c, base as int) == Some(v as int),
            None => digit_value(c, base as int) is None,
        },
{
    let value: u32 = if '0' <= c && c <= '9' {
        c as u32 - '0' as u32
    } else if 'a' <= c && c <= 'f' {
        c as u32 - 'a' as u32 + 10
    } else if 'A' <= c && c <= 'F' {
        c as u32 - 'A' as u32 + 10
    } else {
        base
    };
    if value < base {
        Some(value)
    } else {
        None
    }
}

/// Reads the number in `text[from..to]`.
pub fn number(text: &[char], from: usize, to: usize, base: u32, max: u32) -> (value: Result<
    u32,
    NumberError,
>)
    requires
        from <= to <= text@.len(),
        2 <= base <= 16,
    ensures
        match value {
            Ok(v) => number_value(text@.subrange(from as int, to as int), base as int, max as int)
                == Ok::<int, NumberError>(v as int),
            Err(e) => number_value(text@.subrange(from as int, to as int), base as int, max as int)
                == Err::<int, NumberError>(e),
        },
{
    let ghost part = text@.subrange(from as int, to as int);
    if from == to {
        return Err(NumberError::Empty);
    }
    let mut i: usize = from;
    if text[from] == '+' {
        if to - from == 1 {
            return Err(NumberError::InvalidDigit);
        }
        i = from + 1;
    }
    let ghost first = i;
    let ghost digits = text@.subrange(first as int, to as int);
    assert(i == from ==> digits =~= part);
    assert(i != from ==> digits =~= part.drop_first());
    assert(digits.take(0) =~= Seq::empty());
    let mut value: u32 = 0;
    while i < to
        invariant
            first <= i <= to <= text@.len(),
            2 <= base <= 16,
            digits == text@.subrange(first as int, to as int),
            number_value(part, base as int, max as int) == digits_value(digits, base as int, max as int),
            digits_value(digits.take(i - first), base as int, max as int) == Ok::<int, NumberError>(
                value as int,
            ),
            value <= max,
            part == text@.subrange(from as int, to as int),
        decreases to - i,
    {
        assert(digits.take(i + 1 - first).drop_last() =~= digits.take(i - first));
        assert(digits.take(i + 1 - first).last() == text@[i as int]);
        let ghost so_far = digits_value(digits.take(i + 1 - first), base as int, max as int);
        match digit(text[i], base) {
            None => {
                proof {
                    failure_stays(digits, base as int, max as int, i + 1 - first);
                }
                return Err(NumberError::InvalidDigit);
            },
            Some(d) => {
                assert(value * base <= u32::MAX * 16) by (nonlinear_arith)
                    requires
                        0 <= value <= u32::MAX,
                        0 <= base <= 16,
                ;
                assert(0 <= value * base) by (nonlinear_arith)
                    requires
                        0 <= value,
                        0 <= base,
                ;
                let next: u64 = value as u64 * base as u64 + d as u64;
                if next > max as u64 {
                    proof {
                        failure_stays(digits, base as int, max as int, i + 1 - first);
                    }
                    return Err(NumberError::TooLarge);
                }
                value = next as u32;
            },
        }
        i = i + 1;
    }
    assert(digits.take(to - first) =~= digits);
    Ok(value)
}

/// A number that can be read lies between zero and the largest allowed.
pub proof fn number_fits(text: Seq<char>, base: int, max: int)
    requires
        2 <= base <= 16,
        max >= 0,
    ensures
        number_value(text, base, max) matches Ok(value) ==> 0 <= value <= max,
{
    if text.len() > 0 {
        digits_fit(text, base, max);
        digits_fit(text.drop_first(), base, max);
    }
}

proof fn digits_fit(digits: Seq<char>, base: int, max: int)
    requires
        2 <= base <= 16,
        max >= 0,
    ensures
        digits_value(digits, base, max) matches Ok(value) ==> 0 <= value <= max,
    decreases digits.len(),
{
    if digits.len() > 0 {
        digits_fit(digits.drop_last(), base, max);
        if let Ok(value) = digits_value(digits.drop_last(), base, max) {
            assert(0 <= value * base) by (nonlinear_arith)
                requires
                    value >= 0,
                    base >= 0,
            ;
        }
    }
}

/// What is wrong with the first digits is what is wrong with all of them.
proof fn failure_stays(digits: Seq<char>, base: int, max: int, n: int)
    requires
        0 <= n <= digits.len(),
        digits_value(digits.take(n), base, max) is Err,
    ensures
        digits_value(digits, base, max) == digits_value(digits.take(n), base, max),
    decreases digits.len() - n,
{
    if n == digits.len() {
        assert(digits.take(n) =~= digits);
    } else {
        assert(digits.take(n + 1).drop_last() =~= digits.take(n));
        failure_stays(digits, base, max, n + 1);
    }
}

/// Whether a text comes before another in the order of their characters'
/// code points.
pub open spec fn precedes(a: Seq<char>, b: Seq<char>) -> bool
    decreases a.len(),
{
    if b.len() == 0 {
        false
    } else if a.len() == 0 {
        true
    } else if a.first() != b.first() {
        a.first() < b.first()
    } else {
        precedes(a.drop_first(), b.drop_first())
    }
}

/// Tells whether a text comes before another.
pub fn comes_first(a: &str, b: &str) -> (first: bool)
    ensures
        first == precedes(a@, b@),
{
    let (x, y): (Vec<char>, Vec<char>) = (chars_of(a), chars_of(b));
    let mut i: usize = 0;
    assert(x@.skip(0) =~= x@ && y@.skip(0) =~= y@);
    loop
        invariant
            x@ == a@,
            y@ == b@,
            i <= x@.len(),
            i <= y@.len(),
            precedes(x@.skip(i as int), y@.skip(i as int)) == precedes(a@, b@),
        decreases x@.len() - i,
    {
        if i == y.len() {
            return false;
        }
        if i == x.len() {
            return true;
        }
        if x[i] != y[i] {
            return x[i] < y[i];
        }
        assert(x@.skip(i as int).drop_first() =~= x@.skip(i + 1));
        assert(y@.skip(i as int).drop_first() =~= y@.skip(i + 1));
        i = i + 1;
    }
}

/// The order of texts is a strict order, and total.
pub proof fn precedes_is_an_order(a: Seq<char>, b: Seq<char>, c: Seq<char>)
    ensures
        !precedes(a, a),
        precedes(a, b) && precedes(b, c) ==> precedes(a, c),
        precedes(a, b) ==> !precedes(b, a),
        a != b ==> precedes(a, b) || precedes(b, a),
    decreases a.len() + b.len() + c.len(),
{
    if a.len() > 0 && b.len() > 0 && c.len() > 0 {
        precedes_is_an_order(a.drop_first(), b.drop_first(), c.drop_first());
        if a.first() == b.first() && a.drop_first() == b.drop_first() {
            assert(a =~= seq![a.first()] + a.drop_first());
            assert(b =~= seq![b.first()] + b.drop_first());
        }
    } else if a.len() > 0 && b.len() > 0 {
        precedes_is_an_order(a.drop_first(), b.drop_first(), c);
        if a.first() == b.first() && a.drop_first() == b.drop_first() {
            assert(a =~= seq![a.first()] + a.drop_first());
            assert(b =~= seq![b.first()] + b.drop_first());
        }
    } else if a.len() > 0 {
        precedes_is_an_order(a.drop_first(), b, c);
    } else if b.len() == 0 {
        assert(a =~= b);
    }
}

} // verus!
