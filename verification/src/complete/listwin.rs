//! The part of a list of candidates that is shown, and of the query above it.

use crate::complete::candidate::Candidate;
use crate::complete::candidate::SelectorResponse;
use crate::complete::clamped::ClampedUsize;
use crate::text;
use crate::text::chars_of;
use crate::text::trim_right;
use vstd::prelude::*;

verus! {

/// The line breaks among the first `n` characters.
pub open spec fn breaks(s: Seq<char>, n: int) -> nat
    decreases n,
{
    if n <= 0 {
        0
    } else {
        breaks(s, n - 1) + (if s[n - 1] == '\n' {
            1nat
        } else {
            0
        })
    }
}

/// The rows that a candidate takes: those of its text, without space at its end.
pub open spec fn rows_of(content: Seq<char>) -> nat {
    let t = text::trimmed_right(content);
    breaks(t, t.len() as int) + 1
}

/// The rows that a candidate takes.
pub fn candidate_height(content: &str) -> (r: usize)
    ensures
        r == (if rows_of(content@) <= usize::MAX {
            rows_of(content@) as usize
        } else {
            usize::MAX
        }),
{
    let v = chars_of(content);
    let t = trim_right(v.as_slice());
    let mut n: usize = 1;
    let mut i: usize = 0;
    while i < t.len()
        invariant
            i <= t@.len(),
            n == (if breaks(t@, i as int) + 1 <= usize::MAX {
                (breaks(t@, i as int) + 1) as usize
            } else {
                usize::MAX
            }),
        decreases t@.len() - i,
    {
        if t[i] == '\n' {
            n = n.saturating_add(1);
        }
        i = i + 1;
    }
    n
}

/// The rows from one item to another, both included.
pub open spec fn rows_between(heights: Seq<usize>, from: int, to: int) -> int
    decreases to - from + 1,
{
    if from > to {
        0
    } else {
        rows_between(heights, from, to - 1) + heights[to]
    }
}

proof fn lemma_rows_front(heights: Seq<usize>, from: int, to: int)
    requires
        from <= to,
    ensures
        rows_between(heights, from, to) == heights[from] + rows_between(heights, from + 1, to),
    decreases to - from,
{
    if from < to {
        lemma_rows_front(heights, from, to - 1);
    } else {
        assert(rows_between(heights, from, to - 1) == 0);
        assert(rows_between(heights, from + 1, to) == 0);
    }
}

/// The first item that can be shown with a later one, going back from `i`, where the
/// items behind it take `rows`: the item itself is shown in any case.
pub open spec fn back_from(heights: Seq<usize>, cursor: int, max: int, i: int, rows: int) -> int
    decreases i,
{
    if rows + heights[i] > max && i < cursor {
        i + 1
    } else if i <= 0 {
        0
    } else {
        back_from(heights, cursor, max, i - 1, rows + heights[i])
    }
}

/// The first item that is shown, so that the cursor is: it moves as little as that
/// takes.
pub open spec fn list_offset(heights: Seq<usize>, offset: int, cursor: int, max: int) -> int {
    if cursor < offset {
        cursor
    } else {
        let b = back_from(heights, cursor, max, cursor, 0);
        if b > offset {
            b
        } else {
            offset
        }
    }
}

/// The end of what is shown, from the `i`-th item on, where `rows` are taken.
pub open spec fn list_end(heights: Seq<usize>, max: int, i: int, rows: int) -> int
    decreases heights.len() - i,
{
    if i < 0 || i >= heights.len() || rows >= max {
        i
    } else {
        list_end(heights, max, i + 1, rows + heights[i])
    }
}

proof fn lemma_back(heights: Seq<usize>, cursor: int, max: int, i: int, rows: int)
    requires
        0 <= i <= cursor < heights.len(),
        rows == rows_between(heights, i + 1, cursor),
        i < cursor ==> rows <= max || i + 1 == cursor,
    ensures
        0 <= back_from(heights, cursor, max, i, rows) <= cursor,
        back_from(heights, cursor, max, i, rows) == cursor || rows_between(
            heights,
            back_from(heights, cursor, max, i, rows),
            cursor,
        ) <= max,
    decreases i,
{
    lemma_rows_front(heights, i, cursor);
    if rows + heights[i] > max && i < cursor {
    } else if i <= 0 {
    } else {
        lemma_back(heights, cursor, max, i - 1, rows + heights[i]);
    }
}

proof fn lemma_rows_shrink(heights: Seq<usize>, a: int, b: int, to: int)
    requires
        a <= b,
    ensures
        rows_between(heights, b, to) <= rows_between(heights, a, to),
    decreases to - a + 1,
{
    if b <= to {
        lemma_rows_shrink(heights, a, b, to - 1);
    } else {
        lemma_rows_positive(heights, a, to);
    }
}

proof fn lemma_rows_positive(heights: Seq<usize>, a: int, to: int)
    ensures
        rows_between(heights, a, to) >= 0,
    decreases to - a + 1,
{
    if a <= to {
        lemma_rows_positive(heights, a, to - 1);
    }
}

/// The cursor is among what is shown: it is the first item, or it and all before it
/// that are shown fit in the rows that there are.
pub proof fn cursor_is_listed(heights: Seq<usize>, offset: int, cursor: int, max: int)
    requires
        0 <= offset,
        0 <= cursor < heights.len(),
    ensures
        ({
            let o = list_offset(heights, offset, cursor, max);
            0 <= o <= cursor && (o == cursor || rows_between(heights, o, cursor) <= max)
        }),
{
    if cursor >= offset {
        lemma_back(heights, cursor, max, cursor, 0);
        let b = back_from(heights, cursor, max, cursor, 0);
        if b <= offset && b < cursor {
            lemma_rows_shrink(heights, b, offset, cursor);
        }
    }
}

/// The part of a list that is shown.
#[derive(Debug)]
pub struct ListWindow {
    pub scroll_offset: usize,
    pub max_height: usize,
    /// The item that each row shows.
    pub row_map: Vec<Option<usize>>,
    pub top: usize,
    /// The item that the pointer is on.
    pub hovered: Option<usize>,
}

impl ListWindow {
    pub fn new() -> (r: Self)
        ensures
            r.scroll_offset == 0,
            r.max_height == 8,
            r.row_map@.len() == 0,
            r.top == 0,
            r.hovered is None,
    {
        ListWindow {
            scroll_offset: 0,
            max_height: 8,
            row_map: Vec::new(),
            top: 0,
            hovered: None,
        }
    }

    /// Scrolls so that the cursor is shown.
    pub fn update_scroll_offset(&mut self, heights: &[usize], cursor: usize)
        requires
            cursor < heights@.len(),
        ensures
            *final(self) == (ListWindow {
                scroll_offset: list_offset(
                    heights@,
                    old(self).scroll_offset as int,
                    cursor as int,
                    old(self).max_height as int,
                ) as usize,
                ..*old(self)
            }),
    {
        let ghost h = heights@;
        let max: usize = self.max_height;
        if cursor < self.scroll_offset {
            self.scroll_offset = cursor;
            return;
        }
        let mut i: usize = cursor;
        let mut rows: u128 = 0;
        while i > 0 && !(rows + (heights[i] as u128) > max as u128 && i < cursor)
            invariant
                i <= cursor < heights@.len(),
                h == heights@,
                rows <= (cursor - i) * (usize::MAX as int),
                cursor - i <= usize::MAX,
                back_from(h, cursor as int, max as int, cursor as int, 0) == back_from(
                    h,
                    cursor as int,
                    max as int,
                    i as int,
                    rows as int,
                ),
            decreases i,
        {
            proof {
                lemma_room(cursor - i, rows as int, heights@[i as int] as int);
            }
            rows = rows + heights[i] as u128;
            i = i - 1;
        }
        proof {
            lemma_room(cursor - i, rows as int, heights@[i as int] as int);
        }
        let first: usize = if rows + (heights[i] as u128) > max as u128 && i < cursor {
            i + 1
        } else {
            0
        };
        if first > self.scroll_offset {
            self.scroll_offset = first;
        }
    }

    /// The items that are shown.
    pub fn get_window(&self, heights: &[usize]) -> (r: (usize, usize))
        requires
            self.scroll_offset <= heights@.len(),
        ensures
            r.0 == self.scroll_offset,
            r.1 == list_end(
                heights@,
                self.max_height as int,
                self.scroll_offset as int,
                0,
            ),
            r.0 <= r.1 <= heights@.len(),
    {
        let mut i: usize = self.scroll_offset;
        let mut rows: u128 = 0;
        while i < heights.len() && rows < self.max_height as u128
            invariant
                self.scroll_offset <= i <= heights@.len(),
                rows <= self.max_height as int + usize::MAX as int,
                list_end(heights@, self.max_height as int, self.scroll_offset as int, 0)
                    == list_end(heights@, self.max_height as int, i as int, rows as int),
            decreases heights@.len() - i,
        {
            rows = rows + heights[i] as u128;
            i = i + 1;
        }
        (self.scroll_offset, i)
    }

    /// The item in a row of the screen.
    pub open spec fn item_at(self, row: usize) -> Option<usize> {
        let i = if row >= self.top {
            row - self.top
        } else {
            0
        };
        if i < self.row_map@.len() {
            self.row_map@[i]
        } else {
            None
        }
    }

    fn find_item(&self, row: usize) -> (r: Option<usize>)
        ensures
            r == self.item_at(row),
    {
        let i: usize = row.saturating_sub(self.top);
        if i < self.row_map.len() {
            self.row_map[i]
        } else {
            None
        }
    }

    /// What a click does: an item that was chosen before is accepted, another one is
    /// chosen.
    pub fn handle_click(&self, row: usize, cursor: &mut ClampedUsize, items: &Vec<Candidate>) -> (r:
        SelectorResponse)
        requires
            match self.item_at(row) {
                Some(i) => i < items@.len(),
                None => true,
            },
        ensures
            match self.item_at(row) {
                None => r is Consumed && *final(cursor) == *old(cursor),
                Some(i) => if old(cursor).val == i {
                    r == SelectorResponse::Accept(items@[i as int]) && *final(cursor)
                        == *old(cursor)
                } else {
                    r is Consumed && final(cursor).val == i && final(cursor).max == items@.len()
                        && final(cursor).wrap
                },
            },
    {
        match self.find_item(row) {
            None => SelectorResponse::Consumed,
            Some(i) => {
                if cursor.val == i {
                    SelectorResponse::Accept(items[i].clone())
                } else {
                    *cursor = ClampedUsize::new(i, items.len(), true);
                    SelectorResponse::Consumed
                }
            },
        }
    }

    /// Notes the item that the pointer is on.
    pub fn handle_hover(&mut self, row: usize) -> (r: SelectorResponse)
        ensures
            r is Consumed,
            *final(self) == (ListWindow { hovered: old(self).item_at(row), ..*old(self) }),
    {
        self.hovered = self.find_item(row);
        SelectorResponse::Consumed
    }
}

proof fn lemma_room(n: int, rows: int, h: int)
    requires
        0 <= n <= usize::MAX,
        0 <= rows <= n * (usize::MAX as int),
        0 <= h <= usize::MAX,
    ensures
        rows + h <= (n + 1) * (usize::MAX as int),
        rows + h < u128::MAX,
{
    let m = usize::MAX as int;
    assert(rows + h <= (n + 1) * m) by (nonlinear_arith)
        requires
            rows <= n * m,
            h <= m,
    ;
    assert((n + 1) * m <= (m + 1) * m) by (nonlinear_arith)
        requires
            0 <= n <= m,
    ;
    assert((m + 1) * m < u128::MAX) by (nonlinear_arith)
        requires
            0 <= m <= 0xffff_ffff_ffff_ffff,
    ;
}

/// The part of a query that is shown.
#[derive(Debug, Clone, Copy, PartialEq, Eq, Structural)]
pub struct QueryWindow {
    pub scroll_offset: usize,
    pub available_width: usize,
}

/// What is left of a number.
pub open spec fn less(a: int, b: int) -> int {
    if a >= b {
        a - b
    } else {
        0
    }
}

/// The first grapheme of a query that is shown, so that the cursor and what is
/// before it are.
pub open spec fn query_offset(offset: int, width: int, cursor: int, len: int) -> int {
    let a = if cursor < offset + 1 {
        less(cursor, 1)
    } else {
        offset
    };
    let b = if cursor >= a + less(width, 1) {
        less(cursor, less(width, 1))
    } else {
        a
    };
    if b <= less(len, width) {
        b
    } else {
        less(len, width)
    }
}

impl QueryWindow {
    pub fn set_available_width(&mut self, width: usize)
        ensures
            *final(self) == (QueryWindow { available_width: width, ..*old(self) }),
    {
        self.available_width = width;
    }

    /// Scrolls so that the cursor is shown.
    pub fn update_scroll_offset(&mut self, cursor: usize, len: usize)
        ensures
            *final(self) == (QueryWindow {
                scroll_offset: query_offset(
                    old(self).scroll_offset as int,
                    old(self).available_width as int,
                    cursor as int,
                    len as int,
                ) as usize,
                ..*old(self)
            }),
    {
        let w: usize = self.available_width.saturating_sub(1);
        let mut o: usize = self.scroll_offset;
        if cursor <= o {
            o = cursor.saturating_sub(1);
        }
        if cursor >= o && cursor - o >= w {
            o = cursor.saturating_sub(w);
        }
        let most: usize = len.saturating_sub(self.available_width);
        if o > most {
            o = most;
        }
        self.scroll_offset = o;
    }

    /// The graphemes that are shown: all where they fit.
    pub fn get_window(&self, len: usize) -> (r: (usize, usize))
        ensures
            len <= self.available_width ==> r == (0usize, len),
            len > self.available_width ==> r.1 - r.0 == self.available_width && r.0 == (
            if self.scroll_offset <= len - self.available_width {
                self.scroll_offset as int
            } else {
                len - self.available_width
            }),
            r.0 <= r.1 <= len,
    {
        if len <= self.available_width {
            return (0, len);
        }
        let most: usize = len - self.available_width;
        let start: usize = if self.scroll_offset <= most {
            self.scroll_offset
        } else {
            most
        };
        (start, start + self.available_width)
    }
}

/// A query that is longer than its room shows the cursor.
pub proof fn query_cursor_is_shown(offset: int, width: int, cursor: int, len: int)
    requires
        0 <= offset,
        2 <= width < len,
        0 <= cursor <= len,
    ensures
        query_offset(offset, width, cursor, len) <= cursor <= query_offset(
            offset,
            width,
            cursor,
            len,
        ) + width,
{
}

} // verus!
