//! Positions in the buffer, spans between them, and the cursor.

use std::cmp::Ordering;
use vstd::prelude::*;
use vstd::std_specs::cmp::PartialOrdSpec;

verus! {

#[derive(Debug, Copy, Clone, PartialEq, Eq, Ord, Structural)]
pub struct Pos {
    pub row: usize,
    pub col: usize,
}

/// Whether a position stands before another.
pub open spec fn pos_lt(a: Pos, b: Pos) -> bool {
    a.row < b.row || (a.row == b.row && a.col < b.col)
}

impl PartialOrd for Pos {
    fn partial_cmp(&self, other: &Self) -> (r: Option<Ordering>) {
        if self.row < other.row || (self.row == other.row && self.col < other.col) {
            Some(Ordering::Less)
        } else if self.row == other.row && self.col == other.col {
            Some(Ordering::Equal)
        } else {
            Some(Ordering::Greater)
        }
    }
}

impl vstd::std_specs::cmp::PartialOrdSpecImpl for Pos {
    open spec fn obeys_partial_cmp_spec() -> bool {
        true
    }

    open spec fn partial_cmp_spec(&self, other: &Self) -> Option<Ordering> {
        if pos_lt(*self, *other) {
            Some(Ordering::Less)
        } else if *self == *other {
            Some(Ordering::Equal)
        } else {
            Some(Ordering::Greater)
        }
    }
}

impl Default for Pos {
    fn default() -> (r: Self)
        ensures
            r == (Pos { row: 0, col: 0 }),
    {
        Pos { row: 0, col: 0 }
    }
}

/// An index moved by a signed distance, stopping at the bounds of `usize`.
pub open spec fn shifted(n: usize, d: isize) -> usize {
    if n + d < 0 {
        0
    } else if n + d > usize::MAX {
        usize::MAX
    } else {
        (n + d) as usize
    }
}

/// Moves an index by a signed distance, stopping at the bounds of `usize`.
pub fn shift(n: usize, d: isize) -> (r: usize)
    ensures
        r == shifted(n, d),
{
    if d >= 0 {
        n.saturating_add(d as usize)
    } else {
        let back: usize = (-(d + 1)) as usize;
        n.saturating_sub(back).saturating_sub(1)
    }
}

/// The index before, 0 where there is none.
pub open spec fn one_less(n: usize) -> usize {
    if n == 0 {
        0
    } else {
        (n - 1) as usize
    }
}

/// The smaller of two indices.
pub fn lesser(a: usize, b: usize) -> (r: usize)
    ensures
        r == if a <= b {
            a
        } else {
            b
        },
{
    if a <= b {
        a
    } else {
        b
    }
}

/// The last index of a list of `len` items, 0 where there is none.
pub open spec fn last_index(len: nat) -> int {
    if len > 0 {
        len - 1
    } else {
        0
    }
}

impl Pos {
    /// Past every position; clamp it before use.
    pub fn max() -> (r: Pos)
        ensures
            r == (Pos { row: usize::MAX, col: usize::MAX }),
    {
        Pos { row: usize::MAX, col: usize::MAX }
    }

    /// The first position.
    pub fn min() -> (r: Pos)
        ensures
            r == (Pos { row: 0, col: 0 }),
    {
        Pos { row: 0, col: 0 }
    }

    /// The position with its row and column moved.
    pub open spec fn moved(self, row: isize, col: isize) -> Pos {
        Pos { row: shifted(self.row, row), col: shifted(self.col, col) }
    }

    pub fn row_col_add(&self, row: isize, col: isize) -> (r: Self)
        ensures
            r == self.moved(row, col),
    {
        Pos { row: shift(self.row, row), col: shift(self.col, col) }
    }

    pub fn set(&mut self, row: usize, col: usize)
        ensures
            *final(self) == (Pos { row, col }),
    {
        self.row = row;
        self.col = col;
    }

    pub fn col_add(&self, rhs: usize) -> (r: Self)
        ensures
            r == self.moved(0, rhs as isize),
    {
        self.row_col_add(0, rhs as isize)
    }

    pub fn col_add_signed(&self, rhs: isize) -> (r: Self)
        ensures
            r == self.moved(0, rhs),
    {
        self.row_col_add(0, rhs)
    }

    pub fn col_sub(&self, rhs: usize) -> (r: Self)
        requires
            rhs as isize != isize::MIN,
        ensures
            r == self.moved(0, (-(rhs as isize)) as isize),
    {
        self.row_col_add(0, -(rhs as isize))
    }

    pub fn row_add(&self, rhs: usize) -> (r: Self)
        ensures
            r == self.moved(rhs as isize, 0),
    {
        self.row_col_add(rhs as isize, 0)
    }

    pub fn row_sub(&self, rhs: usize) -> (r: Self)
        requires
            rhs as isize != isize::MIN,
        ensures
            r == self.moved((-(rhs as isize)) as isize, 0),
    {
        self.row_col_add(-(rhs as isize), 0)
    }

    /// Keeps the row among the items of a list.
    pub fn clamp_row<T>(&mut self, other: &[T])
        ensures
            final(self).col == old(self).col,
            final(self).row == if old(self).row <= last_index(other@.len()) {
                old(self).row as int
            } else {
                last_index(other@.len())
            },
    {
        self.row = lesser(self.row, other.len().saturating_sub(1));
    }

    /// Keeps the column within a line, on its last item if `exclusive`.
    pub fn clamp_col<T>(&mut self, other: &[T], exclusive: bool)
        ensures
            final(self).row == old(self).row,
            final(self).col == ({
                let max = if exclusive {
                    last_index(other@.len())
                } else {
                    other@.len() as int
                };
                if old(self).col <= max {
                    old(self).col as int
                } else {
                    max
                }
            }),
    {
        let mut max: usize = other.len();
        if exclusive && max > 0 {
            max = max - 1;
        }
        self.col = lesser(self.col, max);
    }
}

/// Two values in order.
pub fn ordered<T: PartialOrd>(start: T, end: T) -> (r: (T, T))
    ensures
        T::obeys_partial_cmp_spec() ==> r == (if start.partial_cmp_spec(&end) == Some(
            Ordering::Greater,
        ) {
            (end, start)
        } else {
            (start, end)
        }),
{
    if start > end {
        (end, start)
    } else {
        (start, end)
    }
}

/// The first of two positions.
pub open spec fn pos_min(a: Pos, b: Pos) -> Pos {
    if pos_lt(b, a) {
        b
    } else {
        a
    }
}

/// The second of two positions.
pub open spec fn pos_max(a: Pos, b: Pos) -> Pos {
    if pos_lt(b, a) {
        a
    } else {
        b
    }
}

/// Two positions in order.
pub fn ordered_pos(a: Pos, b: Pos) -> (r: (Pos, Pos))
    ensures
        r == (pos_min(a, b), pos_max(a, b)),
{
    ordered(a, b)
}

/// Two rows in order.
pub fn ordered_rows(a: usize, b: usize) -> (r: (usize, usize))
    ensures
        r == if a > b {
            (b, a)
        } else {
            (a, b)
        },
{
    if a > b {
        (b, a)
    } else {
        (a, b)
    }
}

#[derive(Debug, Copy, Clone, PartialEq, Eq, Structural)]
#[allow(inconsistent_fields)]
pub enum MotionKind {
    /// A flat range from one grapheme position to another. `start` is not
    /// necessarily less than `end`; in most cases it is the cursor's position.
    Char { start: Pos, end: Pos, inclusive: bool },
    /// A range of whole lines.
    Line { start: usize, end: usize, inclusive: bool },
    Block { start: Pos, end: Pos },
}

#[derive(Debug, Clone, Copy, PartialEq, Eq, Structural)]
pub enum SelectMode {
    Char(Pos),
    Line(Pos),
    Block(Pos),
}

#[derive(Debug, Clone, Copy, PartialEq, Eq, Structural)]
pub struct Cursor {
    pub pos: Pos,
    pub exclusive: bool,
}

impl Default for Cursor {
    fn default() -> (r: Self)
        ensures
            r == (Cursor { pos: Pos { row: 0, col: 0 }, exclusive: false }),
    {
        Cursor { pos: Pos { row: 0, col: 0 }, exclusive: false }
    }
}

/// The letter thirteen places further in the alphabet, for an ASCII letter.
pub open spec fn rotated(c: char) -> char {
    if 'a' <= c && c <= 'z' {
        ((c as u32 - 97 + 13) % 26 + 97) as char
    } else if 'A' <= c && c <= 'Z' {
        ((c as u32 - 65 + 13) % 26 + 65) as char
    } else {
        c
    }
}

/// Rotates a letter by thirteen alphabetic positions.
pub fn rot13_char(c: char) -> (r: char)
    ensures
        r == rotated(c),
{
    if 'a' <= c && c <= 'z' {
        ((c as u8 - 97 + 13) % 26 + 97) as char
    } else if 'A' <= c && c <= 'Z' {
        ((c as u8 - 65 + 13) % 26 + 65) as char
    } else {
        c
    }
}

/// Rotates the letters of a string by thirteen alphabetic positions.
pub fn rot13(input: &str) -> (r: String)
    ensures
        r@ == input@.map_values(|c: char| rotated(c)),
{
    let mut out: String = String::new();
    for c in it: input.chars()
        invariant
            out@ == input@.take(it.index() as int).map_values(|c: char| rotated(c)),
            it.seq() == input@,
    {
        out.push(rot13_char(c));
        assert(out@ =~= input@.take(it.index() + 1).map_values(|c: char| rotated(c)));
    }
    assert(input@.take(input@.len() as int) =~= input@);
    out
}

/// Rotating twice gives the letter back.
pub proof fn rot13_undoes_itself(c: char)
    ensures
        rotated(rotated(c)) == c,
{
}

/// Rotating a text twice gives it back.
pub proof fn rot13_text_undoes_itself(s: Seq<char>)
    ensures
        s.map_values(|c: char| rotated(c)).map_values(|c: char| rotated(c)) == s,
{
    assert forall|i: int| 0 <= i < s.len() implies rotated(rotated(s[i])) == s[i] by {
        rot13_undoes_itself(s[i]);
    }
    assert(s.map_values(|c: char| rotated(c)).map_values(|c: char| rotated(c)) =~= s);
}

/// An ASCII letter in the other case.
pub open spec fn toggled(c: char) -> char {
    if 'a' <= c && c <= 'z' {
        (c as u32 - 32) as char
    } else if 'A' <= c && c <= 'Z' {
        (c as u32 + 32) as char
    } else {
        c
    }
}

/// An ASCII letter in the other case, any other character as it is.
pub fn toggle_case_char(c: char) -> (r: char)
    ensures
        r == toggled(c),
{
    if 'a' <= c && c <= 'z' {
        (c as u8 - 32) as char
    } else if 'A' <= c && c <= 'Z' {
        (c as u8 + 32) as char
    } else {
        c
    }
}

/// Toggling the case twice gives the character back.
pub proof fn toggle_case_undoes_itself(c: char)
    ensures
        toggled(toggled(c)) == c,
{
}

} // verus!
