//! A forward walk over a text that tags every scalar value with its byte
//! offset, its index and its line and column.

use crate::encoding::{
    byte_offset_at, lemma_byte_offset_monotonic, lemma_byte_offset_step, lemma_encode_utf8_concat,
    lemma_encode_utf8_single, lemma_utf8_width_bounds, len_utf8, utf8_width,
};
use crate::position::{LineColumn, Position};
use vstd::prelude::*;
use vstd::string::*;
use vstd::utf8::*;

verus! {

/// The position of the scalar value with index `i` of `text`, when the first
/// one stands at `start`. For `i == text.len()` it is the position that a
/// further scalar value would have.
pub open spec fn position_at(text: Seq<char>, start: Position, i: int) -> Position
    decreases i,
{
    if i <= 0 {
        start
    } else {
        position_at(text, start, i - 1).step(text[i - 1])
    }
}

/// Every scalar value of `text` has a position that a `LineColumn` can hold.
pub open spec fn positions_fit(text: Seq<char>, start: Position) -> bool {
    forall|i: int| 0 <= i < text.len() ==> #[trigger] position_at(text, start, i).fits()
}

/// Positions grow strictly with the index.
pub proof fn lemma_positions_increase(text: Seq<char>, start: Position, i: int, j: int)
    requires
        0 <= i < j,
    ensures
        position_at(text, start, i).precedes(position_at(text, start, j)),
    decreases j - i,
{
    if i + 1 < j {
        lemma_positions_increase(text, start, i, j - 1);
    }
}

/// After `i` scalar values a walk is at most `i` lines and `i` columns away
/// from where it started.
pub proof fn lemma_position_bounds(text: Seq<char>, start: Position, i: int)
    requires
        0 <= i,
        0 <= start.column,
    ensures
        start.line <= position_at(text, start, i).line <= start.line + i,
        0 <= position_at(text, start, i).column <= start.column + i,
    decreases i,
{
    if i > 0 {
        lemma_position_bounds(text, start, i - 1);
    }
}

/// A text has at most as many scalar values as its encoding has bytes.
pub proof fn lemma_len_le_encoded_len(text: Seq<char>, i: int)
    requires
        0 <= i <= text.len(),
    ensures
        i <= byte_offset_at(text, i),
    decreases i,
{
    if i > 0 {
        lemma_len_le_encoded_len(text, i - 1);
        lemma_byte_offset_step(text, i - 1);
        lemma_utf8_width_bounds(text[i - 1]);
    } else {
        lemma_byte_offset_monotonic(text, 0, 0);
    }
}

/// Numbered from line 1, column 0, the positions of a text whose encoding
/// can be held in memory all fit.
pub proof fn lemma_positions_fit_from_origin(text: Seq<char>)
    requires
        encode_utf8(text).len() <= usize::MAX,
    ensures
        positions_fit(text, Position::origin()),
{
    assert forall|i: int| 0 <= i < text.len() implies #[trigger] position_at(
        text,
        Position::origin(),
        i,
    ).fits() by {
        lemma_position_bounds(text, Position::origin(), i);
        lemma_len_le_encoded_len(text, text.len() as int);
        lemma_byte_offset_monotonic(text, 0, text.len() as int);
    }
}

/// What the walk yields for one scalar value: the value, the byte offset at
/// which its encoding starts, its index, and its line and column.
pub type Item = (char, usize, usize, LineColumn);

/// `item` is what a walk over `text` from `start` yields at index `i`.
pub open spec fn describes(text: Seq<char>, start: Position, i: int, item: Item) -> bool {
    &&& 0 <= i < text.len()
    &&& item.0 == text[i]
    &&& item.1 == byte_offset_at(text, i)
    &&& item.2 == i
    &&& item.3@ == position_at(text, start, i)
}

/// The first scalar value of `s`.
fn first_char(s: &str) -> (head: Option<char>)
    ensures
        s@.len() == 0 ==> head.is_none(),
        s@.len() > 0 ==> head == Some(s@[0]),
{
    broadcast use group_string_axioms;

    let mut chars = s.chars();
    chars.next()
}

/// The first scalar value of `s`, the number of bytes it takes, and what
/// follows it.
fn split_first(s: &str) -> (parts: Option<(char, usize, &str)>)
    ensures
        s@.len() == 0 ==> parts.is_none(),
        s@.len() > 0 ==> (parts matches Some((c, width, tail)) && c == s@[0] && width == utf8_width(
            c,
        ) && tail@ == s@.drop_first()),
{
    broadcast use group_string_axioms;

    let mut chars = s.chars();
    match chars.next() {
        None => None,
        Some(c) => {
            let width = len_utf8(c);
            proof {
                encode_utf8_first_scalar(s@);
                encode_utf8_valid_utf8(s@);
                assert(is_char_boundary(pop_first_scalar(s.spec_bytes()), 0));
                assert(is_char_boundary(s.spec_bytes(), width as int));
            }
            let (_, tail) = s.split_at(width);
            proof {
                assert(s@ =~= seq![c] + s@.drop_first());
                lemma_encode_utf8_concat(seq![c], s@.drop_first());
                lemma_encode_utf8_single(c);
                assert(tail.spec_bytes() =~= encode_utf8(s@.drop_first()));
                encode_utf8_decode_utf8(tail@);
                encode_utf8_decode_utf8(s@.drop_first());
            }
            Some((c, width, tail))
        },
    }
}

/// A forward-only walk over the scalar values of a text. Nothing is computed
/// before it is asked for, and a scalar value once passed is never visited
/// again.
pub struct PositionedChars<'a> {
    /// What has not been yielded yet.
    rest: &'a str,
    /// The byte offset at which `rest` starts in the text.
    byte_offset: usize,
    /// The length of the text in bytes.
    end: usize,
    /// The number of scalar values yielded so far.
    idx: usize,
    /// The position of the first scalar value of `rest`, if there is one.
    linecol: LineColumn,
    text: Ghost<Seq<char>>,
    start: Ghost<Position>,
}

impl<'a> PositionedChars<'a> {
    #[verifier::type_invariant]
    spec fn inv(self) -> bool {
        &&& 0 <= self.idx <= self.text@.len()
        &&& self.rest@ == self.text@.skip(self.idx as int)
        &&& self.byte_offset == byte_offset_at(self.text@, self.idx as int)
        &&& self.end == encode_utf8(self.text@).len()
        &&& positions_fit(self.text@, self.start@)
        &&& self.idx < self.text@.len() ==> self.linecol@ == position_at(
            self.text@,
            self.start@,
            self.idx as int,
        )
    }

    /// The text that is walked over.
    pub closed spec fn text(&self) -> Seq<char> {
        self.text@
    }

    /// The position given to the first scalar value of the text.
    pub closed spec fn start(&self) -> Position {
        self.start@
    }

    /// The number of scalar values yielded so far, which is the index of the
    /// one that comes next.
    pub closed spec fn index(&self) -> int {
        self.idx as int
    }

    /// What `peek` and `next` hand out: the item at `index`, or nothing at
    /// the end of the text.
    pub open spec fn upcoming(&self, item: Option<Item>) -> bool {
        if self.index() < self.text().len() {
            (item matches Some(it) && describes(self.text(), self.start(), self.index(), it))
        } else {
            item.is_none()
        }
    }

    /// The item that `next` would yield, without moving on.
    pub fn peek(&self) -> (item: Option<Item>)
        ensures
            self.upcoming(item),
            0 <= self.index() <= self.text().len(),
    {
        proof {
            use_type_invariant(self);
        }
        match first_char(self.rest) {
            None => None,
            Some(c) => Some((c, self.byte_offset, self.idx, self.linecol)),
        }
    }

    /// Yields the next item and moves past it; at the end of the text yields
    /// nothing and stays there.
    pub fn next(&mut self) -> (item: Option<Item>)
        ensures
            old(self).upcoming(item),
            final(self).text() == old(self).text(),
            final(self).start() == old(self).start(),
            final(self).index() == if item.is_some() {
                old(self).index() + 1
            } else {
                old(self).index()
            },
            0 <= final(self).index() <= final(self).text().len(),
    {
        proof {
            use_type_invariant(&*self);
        }
        match split_first(self.rest) {
            None => None,
            Some((c, width, tail)) => {
                let item = (c, self.byte_offset, self.idx, self.linecol);
                proof {
                    let text = self.text@;
                    let i = self.idx as int;
                    lemma_byte_offset_step(text, i);
                    lemma_byte_offset_monotonic(text, i + 1, text.len() as int);
                    lemma_len_le_encoded_len(text, text.len() as int);
                    assert(text.skip(i).drop_first() =~= text.skip(i + 1));
                    if i + 1 < text.len() {
                        assert(position_at(text, self.start@, i + 1).fits());
                    }
                }
                let byte_offset = self.byte_offset + width;
                let linecol = if byte_offset >= self.end {
                    self.linecol
                } else if c == '\n' {
                    LineColumn { line: self.linecol.line + 1, column: 0 }
                } else {
                    LineColumn { line: self.linecol.line, column: self.linecol.column + 1 }
                };
                *self = PositionedChars {
                    rest: tail,
                    byte_offset,
                    end: self.end,
                    idx: self.idx + 1,
                    linecol,
                    text: self.text,
                    start: self.start,
                };
                Some(item)
            },
        }
    }
}

/// Walks over `s`, giving its first scalar value the position `start`.
///
/// The column grows by one with every scalar value and falls back to 0 after
/// a line feed, which also opens the next line.
pub fn iter_with_line_column_from<'a>(s: &'a str, start: LineColumn) -> (chars: PositionedChars<'a>)
    requires
        positions_fit(s@, start@),
    ensures
        chars.text() == s@,
        chars.start() == start@,
        chars.index() == 0,
{
    let end = s.as_bytes().len();
    proof {
        lemma_byte_offset_monotonic(s@, 0, 0);
        assert(s@.skip(0) =~= s@);
    }
    PositionedChars {
        rest: s,
        byte_offset: 0,
        end,
        idx: 0,
        linecol: start,
        text: Ghost(s@),
        start: Ghost(start@),
    }
}

} // verus!
