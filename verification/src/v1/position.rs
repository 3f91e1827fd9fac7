//! Source positions: a character offset and a count of characters.

use vstd::prelude::*;
use crate::text::string_from_chars;

verus! {

/// A region of the source buffer: `span` characters starting at offset `pos`.
#[derive(Debug, Clone, Copy, PartialEq, Eq, Structural)]
pub struct Position {
    pub pos: usize,
    pub span: usize,
}

/// The number of line breaks in `source[..upto]`.
pub open spec fn line_breaks(source: Seq<char>, upto: int) -> int
    decreases upto,
{
    if upto <= 0 || upto > source.len() {
        0
    } else if source[upto - 1] == '\n' {
        line_breaks(source, upto - 1) + 1
    } else {
        line_breaks(source, upto - 1)
    }
}

/// The number of characters between the last line break of `source[..upto]`
/// and `upto`.
pub open spec fn column_at(source: Seq<char>, upto: int) -> int
    decreases upto,
{
    if upto <= 0 || upto > source.len() {
        0
    } else if source[upto - 1] == '\n' {
        0
    } else {
        column_at(source, upto - 1) + 1
    }
}

/// The offset that row and column are computed for: `pos`, or the end of the
/// source where `pos` lies beyond it.
pub open spec fn clamp(pos: int, len: int) -> int {
    if pos < len {
        pos
    } else {
        len
    }
}

pub proof fn lemma_row_col_bounds(source: Seq<char>, upto: int)
    requires
        0 <= upto <= source.len(),
    ensures
        0 <= line_breaks(source, upto) <= upto,
        0 <= column_at(source, upto) <= upto,
    decreases upto,
{
    if upto > 0 {
        lemma_row_col_bounds(source, upto - 1);
    }
}

impl Position {
    /// The position without a place: offset 0, span 0.
    pub open spec fn none() -> Position {
        Position { pos: 0, span: 0 }
    }

    /// One past the last offset of the region.
    pub open spec fn end(&self) -> int {
        self.pos + self.span
    }

    /// Whether the region lies inside a source of `len` characters.
    pub open spec fn within(&self, len: int) -> bool {
        self.pos + self.span <= len
    }

    pub fn new(pos: usize, span: usize) -> (p: Self)
        ensures
            p == (Position { pos, span }),
    {
        Self { pos, span }
    }

    pub fn with_pos(pos: usize) -> (p: Self)
        ensures
            p == (Position { pos, span: 0 }),
    {
        Self { pos, span: 0 }
    }

    pub fn set_span(&mut self, span: usize)
        ensures
            *final(self) == (Position { pos: old(self).pos, span }),
    {
        self.span = span;
    }

    pub fn set_pos(&mut self, pos: usize)
        ensures
            *final(self) == (Position { pos, span: old(self).span }),
    {
        self.pos = pos;
    }

    /// Lengthens the region by `add` characters.
    pub fn add_span(&mut self, add: usize)
        requires
            old(self).span + add <= usize::MAX,
        ensures
            *final(self) == (Position { pos: old(self).pos, span: (old(self).span + add) as usize }),
    {
        self.span += add
    }

    pub fn is_none(&self) -> (b: bool)
        ensures
            b == (*self == Position::none()),
    {
        self.pos == 0 && self.span == 0
    }

    /// The text of the region.
    pub fn get_raw_string(&self, source: &Vec<char>) -> (s: String)
        requires
            self.within(source.len() as int),
        ensures
            s@ == source@.subrange(self.pos as int, self.end()),
    {
        string_from_chars(source, self.pos, self.pos + self.span)
    }

    /// Zero-based row and column of the region's first character.
    pub fn get_row_col(&self, source: &Vec<char>) -> (rc: (usize, usize))
        ensures
            rc.0 == line_breaks(source@, clamp(self.pos as int, source.len() as int)),
            rc.1 == column_at(source@, clamp(self.pos as int, source.len() as int)),
    {
        let mut row: usize = 0;
        let mut col: usize = 0;
        let mut i: usize = 0;
        while i < source.len() && i < self.pos
            invariant
                i <= source.len(),
                i <= self.pos,
                row == line_breaks(source@, i as int),
                col == column_at(source@, i as int),
            decreases source.len() - i,
        {
            proof {
                lemma_row_col_bounds(source@, i as int);
            }
            if source[i] == '\n' {
                row += 1;
                col = 0;
            } else {
                col += 1;
            }
            i += 1;
        }
        (row, col)
    }
}

} // verus!
