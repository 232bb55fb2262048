//! Where the cursor is, and which outputs show something fullscreen.
//!
//! Nothing here talks to the compositor: both are pushed in from the outside. The
//! sources are traits rather than concrete types, so that another one can be
//! dropped in without the rest of the program noticing.

use vstd::prelude::*;

use crate::text::{chars_of, is_blank, part_of, pieces, places, split, trim, trimmed};

verus! {

/// A cursor position in logical screen pixels.
pub type Position = (i32, i32);

/// Anything that can say which outputs are covered by a fullscreen window.
pub trait FullscreenSource {
    /// The outputs to keep the animal off, by compositor name. An empty list means
    /// every output is free.
    fn fullscreen_outputs(&self) -> Vec<String>;
}

/// Anything that can say where the cursor is.
pub trait CursorSource {
    /// The last known position, and how long ago it was reported, in nanoseconds.
    /// A source that has never heard anything returns `None`.
    fn last_position(&self) -> Option<(Position, u128)>;
}

/// A cursor position and when it was reported.
#[derive(Debug, Clone, Copy, PartialEq, Eq)]
pub struct Latest {
    pub position: Position,
    /// In nanoseconds since some fixed moment.
    pub at: u128,
}

/// The cursor position as reported from the outside.
#[derive(Debug, Clone, Copy, PartialEq, Eq)]
pub struct CursorFeed {
    pub latest: Option<Latest>,
}

impl CursorFeed {
    /// A feed that has not heard anything yet.
    pub fn new() -> (feed: CursorFeed)
        ensures
            feed.latest is None,
    {
        CursorFeed { latest: None }
    }

    /// Takes in a report of the global cursor position, in logical screen pixels.
    pub fn set_pos(&mut self, x: i32, y: i32, now: u128)
        ensures
            final(self).latest == Some(Latest { position: (x, y), at: now }),
    {
        self.latest = Some(Latest { position: (x, y), at: now });
    }

    /// The last reported position, and how long before `now` it was reported. A
    /// report from the future is new.
    pub fn last_position(&self, now: u128) -> (last: Option<(Position, u128)>)
        ensures
            last == (match self.latest {
                None => None,
                Some(latest) => Some(
                    (
                        latest.position,
                        (if now < latest.at {
                            0
                        } else {
                            now - latest.at
                        }) as u128,
                    ),
                ),
            }),
            last is Some <==> self.latest is Some,
            last matches Some((position, age)) ==> position == self.latest->0.position,
            last matches Some((position, age)) ==> (self.latest->0.at <= now ==> self.latest->0.at + age
                == now) && (self.latest->0.at >= now ==> age == 0),
    {
        match self.latest {
            None => None,
            Some(latest) => {
                let age: u128 = if now < latest.at {
                    0
                } else {
                    now - latest.at
                };
                Some((latest.position, age))
            },
        }
    }
}

/// The cursor as seen at one moment.
#[derive(Debug, Clone, Copy, PartialEq, Eq)]
pub struct Sighting {
    pub feed: CursorFeed,
    pub now: u128,
}

impl CursorSource for Sighting {
    fn last_position(&self) -> (last: Option<(Position, u128)>)
        ensures
            last == (match self.feed.latest {
                None => None,
                Some(latest) => Some(
                    (
                        latest.position,
                        (if self.now < latest.at {
                            0
                        } else {
                            self.now - latest.at
                        }) as u128,
                    ),
                ),
            }),
            last is Some <==> self.feed.latest is Some,
            last matches Some((position, age)) ==> position == self.feed.latest->0.position,
            last matches Some((position, age)) ==> (self.feed.latest->0.at <= self.now
                ==> self.feed.latest->0.at + age == self.now) && (self.feed.latest->0.at >= self.now
                ==> age == 0),
    {
        self.feed.last_position(self.now)
    }
}

/// What is left of some texts once trimmed, if anything.
pub open spec fn unblank(parts: Seq<Seq<char>>) -> Seq<Seq<char>>
    decreases parts.len(),
{
    if parts.len() == 0 {
        Seq::empty()
    } else {
        let before = unblank(parts.drop_last());
        let name = trimmed(parts.last());
        if name.len() == 0 {
            before
        } else {
            before.push(name)
        }
    }
}

/// The names in a comma-separated list.
pub open spec fn names_in(list: Seq<char>) -> Seq<Seq<char>> {
    unblank(pieces(list, ','))
}

/// What a list of strings says.
pub open spec fn texts(names: Seq<String>) -> Seq<Seq<char>> {
    Seq::new(names.len(), |i: int| names[i]@)
}

/// Reads the names in a comma-separated list.
fn read_names(list: &str) -> (names: Vec<String>)
    ensures
        texts(names@) == names_in(list@),
{
    let chars: Vec<char> = chars_of(list);
    let ranges: Vec<(usize, usize)> = split(&chars, 0, chars.len(), ',');
    let ghost all = pieces(list@, ',');
    assert(list@.subrange(0, list@.len() as int) =~= list@);
    let mut names: Vec<String> = Vec::new();
    let mut i: usize = 0;
    assert(texts(names@) =~= unblank(all.take(0)));
    while i < ranges.len()
        invariant
            i <= ranges@.len(),
            chars@ == list@,
            places(list@, ranges@, all),
            texts(names@) == unblank(all.take(i as int)),
        decreases ranges@.len() - i,
    {
        assert(all.take(i + 1).drop_last() =~= all.take(i as int));
        assert(all.take(i + 1).last() == all[i as int]);
        let (from, to): (usize, usize) = ranges[i];
        let (a, b): (usize, usize) = trim(&chars, from, to);
        if a < b {
            let ghost before = names@;
            names.push(part_of(list, a, b));
            assert(texts(names@) =~= texts(before).push(list@.subrange(a as int, b as int)));
        }
        i = i + 1;
    }
    assert(all.take(i as int) =~= all);
    names
}

/// The outputs with a fullscreen window as reported from the outside.
#[derive(Debug)]
pub struct FullscreenFeed {
    pub names: Vec<String>,
}

impl FullscreenFeed {
    /// A feed in which every output is free.
    pub fn new() -> (feed: FullscreenFeed)
        ensures
            feed.names@.len() == 0,
    {
        FullscreenFeed { names: Vec::new() }
    }

    /// Takes in a report of which outputs currently show a fullscreen window, and
    /// tells whether it is news.
    ///
    /// A comma-separated list rather than an array of strings: a compositor script
    /// marshals its values by guessing, and an empty array is indistinguishable
    /// from no argument at all - which is exactly the case that has to arrive
    /// reliably, since it is the one that gives the animal its screens back.
    pub fn set_fullscreen(&mut self, outputs: &str) -> (news: bool)
        ensures
            texts(final(self).names@) == names_in(outputs@),
            news == (texts(old(self).names@) != names_in(outputs@)),
    {
        let names: Vec<String> = read_names(outputs);
        if FullscreenFeed::agree(&self.names, &names) {
            return false;
        }
        self.names = names;
        true
    }

    /// Whether two lists hold the same names.
    fn agree(a: &Vec<String>, b: &Vec<String>) -> (agree: bool)
        ensures
            agree == (texts(a@) == texts(b@)),
    {
        if a.len() != b.len() {
            assert(texts(a@).len() != texts(b@).len());
            return false;
        }
        let mut i: usize = 0;
        while i < a.len()
            invariant
                i <= a@.len() == b@.len(),
                forall|j: int| 0 <= j < i ==> (#[trigger] a@[j])@ == b@[j]@,
            decreases a@.len() - i,
        {
            if a[i] != b[i] {
                assert(texts(a@)[i as int] != texts(b@)[i as int]);
                return false;
            }
            i = i + 1;
        }
        assert(texts(a@) =~= texts(b@));
        true
    }
}

impl FullscreenSource for FullscreenFeed {
    fn fullscreen_outputs(&self) -> (names: Vec<String>)
        ensures
            texts(names@) == texts(self.names@),
    {
        let mut names: Vec<String> = Vec::new();
        let mut i: usize = 0;
        while i < self.names.len()
            invariant
                i <= self.names@.len(),
                names@.len() == i,
                forall|j: int| 0 <= j < i ==> (#[trigger] names@[j])@ == self.names@[j]@,
            decreases self.names@.len() - i,
        {
            names.push(self.names[i].clone());
            i = i + 1;
        }
        assert(texts(names@) =~= texts(self.names@));
        names
    }
}

/// Names with commas between them.
pub open spec fn joined(names: Seq<Seq<char>>) -> Seq<char>
    decreases names.len(),
{
    if names.len() == 0 {
        Seq::empty()
    } else if names.len() == 1 {
        names[0]
    } else {
        joined(names.drop_last()).push(',') + names.last()
    }
}

/// Whether a name can stand in a comma-separated list.
pub open spec fn listable(name: Seq<char>) -> bool {
    &&& name.len() > 0
    &&& !is_blank(name.first())
    &&& !is_blank(name.last())
    &&& forall|i: int| 0 <= i < name.len() ==> name[i] != ','
}

/// Reading a list of names gives back the names that were written into it.
pub proof fn a_list_reads_as_written(names: Seq<Seq<char>>)
    requires
        forall|i: int| 0 <= i < names.len() ==> listable(#[trigger] names[i]),
    ensures
        names_in(joined(names)) == names,
{
    if names.len() == 0 {
        assert(pieces(joined(names), ',') =~= seq![Seq::empty()]);
        assert(seq![Seq::<char>::empty()].drop_last() =~= Seq::empty());
        reveal_with_fuel(unblank, 2);
        assert(names_in(joined(names)) =~= names);
    } else {
        written_pieces(names);
        written_names(names);
    }
}

/// The pieces of a written list are its names.
proof fn written_pieces(names: Seq<Seq<char>>)
    requires
        names.len() > 0,
        forall|i: int| 0 <= i < names.len() ==> listable(#[trigger] names[i]),
    ensures
        pieces(joined(names), ',') == names,
    decreases names.len(),
{
    if names.len() == 1 {
        one_more_piece(Seq::empty(), names[0]);
        assert(Seq::<char>::empty() + names[0] =~= names[0]);
        assert(pieces(Seq::empty(), ',').drop_last().push(names[0]) =~= names);
    } else {
        let rest = names.drop_last();
        assert(forall|i: int| 0 <= i < rest.len() ==> #[trigger] rest[i] == names[i]);
        written_pieces(rest);
        let head = joined(rest).push(',');
        assert(head.drop_last() =~= joined(rest));
        assert(pieces(head, ',') =~= rest.push(Seq::empty()));
        one_more_piece(head, names.last());
        assert(pieces(head, ',').drop_last() =~= rest);
        assert(rest.push(names.last()) =~= names);
    }
}

/// Text without a comma extends the last piece of what stands before it.
proof fn one_more_piece(head: Seq<char>, name: Seq<char>)
    requires
        pieces(head, ',').len() > 0,
        pieces(head, ',').last().len() == 0,
        forall|i: int| 0 <= i < name.len() ==> name[i] != ',',
    ensures
        pieces(head + name, ',') == pieces(head, ',').drop_last().push(name),
    decreases name.len(),
{
    let before = pieces(head, ',');
    if name.len() == 0 {
        assert(head + name =~= head);
        assert(before.last() =~= name);
        assert(before =~= before.drop_last().push(name));
    } else {
        let shorter = name.drop_last();
        one_more_piece(head, shorter);
        assert((head + name).drop_last() =~= head + shorter);
        assert((head + name).last() == name.last());
        let now = pieces(head + shorter, ',');
        assert(now.drop_last() =~= before.drop_last());
        assert(now.last().push(name.last()) =~= name);
    }
}

/// Listable names are left as they are.
proof fn written_names(names: Seq<Seq<char>>)
    requires
        forall|i: int| 0 <= i < names.len() ==> listable(#[trigger] names[i]),
    ensures
        unblank(names) == names,
    decreases names.len(),
{
    if names.len() > 0 {
        let rest = names.drop_last();
        assert(forall|i: int| 0 <= i < rest.len() ==> #[trigger] rest[i] == names[i]);
        written_names(rest);
        assert(listable(names[names.len() - 1]));
        assert(rest.push(names.last()) =~= names);
    }
}

/// Whether there is nothing but blanks in a text.
pub open spec fn all_blank(text: Seq<char>) -> bool {
    forall|i: int| 0 <= i < text.len() ==> is_blank(#[trigger] text[i])
}

/// A list with nothing between its commas gives the animal all its screens back.
pub proof fn a_blank_list_names_nothing(list: Seq<char>)
    requires
        forall|i: int| 0 <= i < list.len() ==> (#[trigger] list[i] == ',' || is_blank(list[i])),
    ensures
        names_in(list).len() == 0,
{
    blank_pieces(list);
    blank_names(pieces(list, ','));
}

/// The pieces of such a list are blank.
proof fn blank_pieces(list: Seq<char>)
    requires
        forall|i: int| 0 <= i < list.len() ==> (#[trigger] list[i] == ',' || is_blank(list[i])),
    ensures
        pieces(list, ',').len() > 0,
        forall|k: int| 0 <= k < pieces(list, ',').len() ==> all_blank(#[trigger] pieces(list, ',')[k]),
    decreases list.len(),
{
    if list.len() > 0 {
        let rest = list.drop_last();
        assert(forall|i: int| 0 <= i < rest.len() ==> #[trigger] rest[i] == list[i]);
        blank_pieces(rest);
        let before = pieces(rest, ',');
        assert(list[list.len() - 1] == list.last());
        assert(all_blank(before[before.len() - 1]));
    }
}

/// Nothing is left of blank pieces.
proof fn blank_names(parts: Seq<Seq<char>>)
    requires
        forall|k: int| 0 <= k < parts.len() ==> all_blank(#[trigger] parts[k]),
    ensures
        unblank(parts).len() == 0,
    decreases parts.len(),
{
    if parts.len() > 0 {
        let rest = parts.drop_last();
        assert(forall|k: int| 0 <= k < rest.len() ==> #[trigger] rest[k] == parts[k]);
        blank_names(rest);
        assert(all_blank(parts[parts.len() - 1]));
        blank_trimmed(parts.last());
    }
}

/// Nothing is left of blanks once trimmed.
proof fn blank_trimmed(text: Seq<char>)
    requires
        all_blank(text),
    ensures
        trimmed(text).len() == 0,
    decreases text.len(),
{
    if text.len() > 0 {
        let rest = text.drop_first();
        assert forall|i: int| 0 <= i < rest.len() implies is_blank(#[trigger] rest[i]) by {
            assert(rest[i] == text[i + 1]);
        }
        blank_trimmed(rest);
        assert(is_blank(text[0]));
    }
}

} // verus!
