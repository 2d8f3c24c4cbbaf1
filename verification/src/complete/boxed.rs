//! A list of candidates in a box below the prompt.

use crate::complete::candidate::Candidate;
use crate::complete::grid;
use crate::complete::grid::up_escape;
use crate::complete::listwin;
use crate::complete::listwin::candidate_height;
use crate::complete::listwin::ListWindow;
use crate::complete::listwin::QueryWindow;
use crate::linebuf::buffer;
use crate::linebuf::buffer::LineBuf;
use crate::linebuf::line;
use crate::linebuf::lines;
use crate::linebuf::lines::split_rows;
use crate::screen;
use crate::screen::take_first_line;
use crate::term::layout;
use crate::term::layout::push_times;
use crate::term::width;
use crate::term::width::display_width;
use crate::term::width::WidthCalculator;
use crate::text;
use crate::text::chars_fitting;
use crate::text::chars_of;
use crate::text::decimal_string;
use crate::text::owned;
use crate::text::push_repeated;
use crate::text::string_of;
use crate::text::sub_chars;
use crate::text::trim_right;
use crate::unicode;
use vstd::prelude::*;

verus! {

/// What stands before an item.
pub const SELECTOR_GRAY: &'static str = "\x1b[90m\u{258c}\x1b[0m";

/// What stands before the item that is chosen.
pub const SELECTOR_HL: &'static str = "\x1b[38;2;200;0;120m\u{258c}\x1b[1;39;48;5;237m";

/// What stands before the item that the pointer is on.
pub const SELECTOR_HOVER: &'static str = "\x1b[90m\u{258c}\x1b[1;39;48;5;237m";

/// What stands before the query.
pub const PROMPT_ARROW: &'static str = "\x1b[1;36m>\x1b[0m";

/// The widest that the column before the descriptions gets.
pub const MAX_DESC_COL: usize = 32;

/// The columns of a text, as far as a `usize` goes.
pub open spec fn wid(w: WidthCalculator, s: Seq<char>) -> usize {
    line::capped(width::shown_columns(w, s))
}

/// A row of the box: what stands in it, filled up to the right border.
pub open spec fn padded(
    w: WidthCalculator,
    cols: usize,
    content: Seq<char>,
    fill: Seq<char>,
    right: Seq<char>,
) -> Seq<char> {
    (content + layout::times(fill, listwin::less(cols as int, wid(w, content) + 1) as nat)
        + right).push('\n')
}

fn pad_line(
    w: WidthCalculator,
    cols: usize,
    content: &str,
    fill: &str,
    right: &str,
    out: &mut String,
)
    ensures
        final(out)@ == old(out)@ + padded(w, cols, content@, fill@, right@),
{
    let ghost was = out@;
    let n: usize = cols.saturating_sub(display_width(w, content)).saturating_sub(1);
    out.push_str(content);
    push_times(out, fill, n);
    out.push_str(right);
    out.push('\n');
    assert(out@ =~= was + padded(w, cols, content@, fill@, right@));
}

/// The lines of a candidate, without the space at its end.
pub open spec fn lines_in(content: Seq<char>) -> Seq<Seq<char>> {
    let t = text::trimmed_right(content);
    if t.len() == 0 {
        Seq::empty()
    } else {
        lines::rows_of(t)
    }
}

fn candidate_lines(content: &str) -> (r: Vec<String>)
    ensures
        r@.len() == lines_in(content@).len(),
        forall|i: int| 0 <= i < r@.len() ==> (#[trigger] r@[i])@ == lines_in(content@)[i],
{
    let v = chars_of(content);
    let t = trim_right(v.as_slice());
    if t.len() == 0 {
        return Vec::new();
    }
    let s = string_of(t.as_slice());
    split_rows(s.as_str())
}

/// A text with four spaces in place of each tab.
pub open spec fn untabbed(s: Seq<char>) -> Seq<char>
    decreases s.len(),
{
    if s.len() == 0 {
        s
    } else if s.last() == '\t' {
        untabbed(s.drop_last()) + text::repeated(' ', 4)
    } else {
        untabbed(s.drop_last()).push(s.last())
    }
}

fn untab(v: &[char]) -> (r: String)
    ensures
        r@ == untabbed(v@),
{
    let mut out: String = String::new();
    let mut i: usize = 0;
    assert(out@ =~= Seq::empty());
    assert(v@.take(0) =~= Seq::<char>::empty());
    while i < v.len()
        invariant
            i <= v@.len(),
            out@ == untabbed(v@.take(i as int)),
        decreases v@.len() - i,
    {
        if v[i] == '\t' {
            push_repeated(&mut out, ' ', 4);
        } else {
            out.push(v[i]);
        }
        i = i + 1;
        assert(v@.take(i as int).drop_last() =~= v@.take(i - 1));
    }
    assert(v@.take(i as int) =~= v@);
    out
}

/// The widest first line among items with a description.
pub open spec fn widest(w: WidthCalculator, items: Seq<Candidate>, from: int, to: int) -> usize
    decreases to - from,
{
    if from >= to {
        0
    } else {
        let rest = widest(w, items, from, to - 1);
        let c = items[to - 1];
        let t = text::trimmed_right(c.content@);
        if c.desc is Some && t.len() > 0 && wid(w, screen::first_line(t)) > rest {
            wid(w, screen::first_line(t))
        } else {
            rest
        }
    }
}

fn find_widest(w: WidthCalculator, items: &Vec<Candidate>, from: usize, to: usize) -> (r: usize)
    requires
        from <= to <= items@.len(),
    ensures
        r == widest(w, items@, from as int, to as int),
{
    let mut i: usize = from;
    let mut best: usize = 0;
    while i < to
        invariant
            from <= i <= to <= items@.len(),
            best == widest(w, items@, from as int, i as int),
        decreases to - i,
    {
        if items[i].desc.is_some() {
            let v = chars_of(items[i].content.as_str());
            let t = trim_right(v.as_slice());
            if t.len() > 0 {
                let s = string_of(t.as_slice());
                let first = take_first_line(s.as_str());
                let n = display_width(w, first.as_str());
                if n > best {
                    best = n;
                }
            }
        }
        i = i + 1;
    }
    best
}

/// What the rows of the items go by: the items from `from` to `to` are shown,
/// as those from `base` on, in at most `max` rows.
#[derive(Clone, Copy)]
pub struct BoxPlan {
    pub w: WidthCalculator,
    pub cols: usize,
    pub from: usize,
    pub to: usize,
    pub base: usize,
    pub max: usize,
    pub cursor: usize,
    pub hovered: Option<usize>,
    pub numbered: bool,
    /// The columns of the numbers.
    pub min_pad: usize,
    /// From how many columns on a row is cut.
    pub lim: usize,
    /// The columns before the descriptions.
    pub desc_col: usize,
}

impl BoxPlan {
    /// What stands before the `i`-th item that is shown.
    pub open spec fn selector(self, i: int) -> Seq<char> {
        if i + self.base == self.cursor {
            SELECTOR_HL@
        } else if self.hovered is Some && self.hovered->0 == i + self.base {
            SELECTOR_HOVER@
        } else {
            SELECTOR_GRAY@
        }
    }

    /// A line of an item: the first with its description, and cut where it is too
    /// long.
    pub open spec fn line_text(self, c: Candidate, k: int) -> Seq<char> {
        let l = untabbed(text::trimmed_right(lines_in(c.content@)[k]));
        let full = if k == 0 && c.desc is Some {
            l + text::repeated(' ', listwin::less(self.desc_col as int, wid(self.w, l) as int) as nat)
                + "\x1b[90m  "@ + c.desc->0@ + "\x1b[0m"@
        } else {
            l
        };
        if wid(self.w, full) >= self.lim {
            text::up_to_byte(full, listwin::less(self.lim as int, 6)) + "..."@
        } else {
            full
        }
    }

    /// The number of an item before its first line, and room for it before the
    /// others.
    pub open spec fn number_text(self, i: int, k: int) -> Seq<char> {
        if !self.numbered {
            Seq::empty()
        } else if k == 0 {
            let d = text::decimal((i + self.base + 1) as nat);
            "\x1b[33m"@ + d + text::repeated(
                ' ',
                listwin::less(self.min_pad as int, d.len() as int) as nat,
            ) + "\x1b[39m"@
        } else {
            text::repeated(' ', self.min_pad as nat)
        }
    }

    /// A row of an item.
    pub open spec fn row(self, items: Seq<Candidate>, i: int, k: int) -> Seq<char> {
        padded(
            self.w,
            self.cols,
            "\u{2502} "@ + self.selector(i) + self.number_text(i, k) + self.line_text(
                items[self.from + i],
                k,
            ) + "\x1b[0m"@,
            " "@,
            "\u{2502}"@,
        )
    }

    /// The rows from the `k`-th line of the `i`-th item on, where some are drawn.
    pub open spec fn item_text(self, items: Seq<Candidate>, i: int, k: int, drawn: int) -> Seq<char>
        decreases self.to - self.from - i, lines_in(items[self.from + i].content@).len() - k,
    {
        if i < 0 || k < 0 || self.from + i >= self.to || drawn >= self.max {
            Seq::empty()
        } else if k >= lines_in(items[self.from + i].content@).len() {
            self.item_text(items, i + 1, 0, drawn)
        } else {
            self.row(items, i, k) + self.item_text(items, i, k + 1, drawn + 1)
        }
    }

    /// The items of these rows.
    pub open spec fn item_map(self, items: Seq<Candidate>, i: int, k: int, drawn: int) -> Seq<
        Option<usize>,
    >
        decreases self.to - self.from - i, lines_in(items[self.from + i].content@).len() - k,
    {
        if i < 0 || k < 0 || self.from + i >= self.to || drawn >= self.max {
            Seq::empty()
        } else if k >= lines_in(items[self.from + i].content@).len() {
            self.item_map(items, i + 1, 0, drawn)
        } else {
            seq![Some((i + self.base) as usize)] + self.item_map(items, i, k + 1, drawn + 1)
        }
    }

    /// What the plan asks of the machine's word size.
    pub open spec fn wf(self, items: Seq<Candidate>) -> bool {
        &&& self.from <= self.to <= items.len() <= usize::MAX / 4
        &&& self.base <= usize::MAX / 4
        &&& self.max <= usize::MAX / 4
    }

    fn make_line(&self, c: &Candidate, l: &str, k: usize) -> (r: String)
        requires
            k < lines_in(c.content@).len(),
            l@ == lines_in(c.content@)[k as int],
        ensures
            r@ == self.line_text(*c, k as int),
    {
        let v = chars_of(l);
        let t = trim_right(v.as_slice());
        let mut s = untab(t.as_slice());
        let ghost plain = s@;
        if k == 0 {
            if let Some(d) = &c.desc {
                let n: usize = self.desc_col.saturating_sub(display_width(self.w, s.as_str()));
                push_repeated(&mut s, ' ', n);
                s.push_str("\x1b[90m  ");
                s.push_str(d.as_str());
                s.push_str("\x1b[0m");
                assert(s@ =~= plain + text::repeated(' ', n as nat) + "\x1b[90m  "@ + d@
                    + "\x1b[0m"@);
            }
        }
        if display_width(self.w, s.as_str()) >= self.lim {
            let full = chars_of(s.as_str());
            let n: usize = chars_fitting(full.as_slice(), self.lim.saturating_sub(6));
            let head = sub_chars(full.as_slice(), 0, n);
            assert(head@ =~= full@.take(n as int));
            let mut cut = string_of(head.as_slice());
            cut.push_str("...");
            return cut;
        }
        s
    }

    fn make_number(&self, i: usize, k: usize) -> (r: String)
        requires
            i <= usize::MAX / 4,
            self.base <= usize::MAX / 4,
        ensures
            r@ == self.number_text(i as int, k as int),
    {
        let mut s: String = String::new();
        assert(s@ =~= Seq::empty());
        if !self.numbered {
            return s;
        }
        if k == 0 {
            let d = decimal_string(i + self.base + 1);
            let v = chars_of(d.as_str());
            let n: usize = self.min_pad.saturating_sub(v.len());
            s.push_str("\x1b[33m");
            s.push_str(d.as_str());
            push_repeated(&mut s, ' ', n);
            s.push_str("\x1b[39m");
            assert(s@ =~= "\x1b[33m"@ + d@ + text::repeated(' ', n as nat) + "\x1b[39m"@);
        } else {
            push_repeated(&mut s, ' ', self.min_pad);
            assert(s@ =~= text::repeated(' ', self.min_pad as nat));
        }
        s
    }

    fn draw_items(&self, items: &Vec<Candidate>, out: &mut String, map: &mut Vec<Option<usize>>)
        requires
            self.wf(items@),
        ensures
            final(out)@ == old(out)@ + self.item_text(items@, 0, 0, 0),
            final(map)@ == old(map)@ + self.item_map(items@, 0, 0, 0),
            final(map)@.len() <= old(map)@.len() + self.max,
    {
        let ghost all = old(out)@ + self.item_text(items@, 0, 0, 0);
        let ghost named = old(map)@ + self.item_map(items@, 0, 0, 0);
        let ghost before = old(map)@.len();
        let shown: usize = self.to - self.from;
        let mut i: usize = 0;
        let mut drawn: usize = 0;
        while i < shown && drawn < self.max
            invariant
                self.wf(items@),
                shown == self.to - self.from,
                i <= shown,
                drawn <= self.max,
                map@.len() == before + drawn,
                out@ + self.item_text(items@, i as int, 0, drawn as int) == all,
                map@ + self.item_map(items@, i as int, 0, drawn as int) == named,
            decreases shown - i,
        {
            let c = &items[self.from + i];
            let ls = candidate_lines(c.content.as_str());
            let mut k: usize = 0;
            while k < ls.len() && drawn < self.max
                invariant
                    self.wf(items@),
                    shown == self.to - self.from,
                    i < shown,
                    *c == items@[self.from + i],
                    ls@.len() == lines_in(c.content@).len(),
                    forall|j: int|
                        0 <= j < ls@.len() ==> (#[trigger] ls@[j])@ == lines_in(c.content@)[j],
                    k <= ls@.len(),
                    drawn <= self.max,
                    map@.len() == before + drawn,
                    out@ + self.item_text(items@, i as int, k as int, drawn as int) == all,
                    map@ + self.item_map(items@, i as int, k as int, drawn as int) == named,
                decreases ls@.len() - k,
            {
                let line = self.make_line(c, ls[k].as_str(), k);
                let number = self.make_number(i, k);
                let idx: usize = i + self.base;
                let on: bool = match self.hovered {
                    Some(h) => h == idx,
                    None => false,
                };
                let selector: &str = if idx == self.cursor {
                    SELECTOR_HL
                } else if on {
                    SELECTOR_HOVER
                } else {
                    SELECTOR_GRAY
                };
                let mut left = owned("\u{2502} ");
                left.push_str(selector);
                left.push_str(number.as_str());
                left.push_str(line.as_str());
                left.push_str("\x1b[0m");
                let ghost was = out@;
                let ghost marked = map@;
                pad_line(self.w, self.cols, left.as_str(), " ", "\u{2502}", out);
                map.push(Some(idx));
                drawn = drawn + 1;
                proof {
                    let row = self.row(items@, i as int, k as int);
                    assert(out@ == was + row);
                    let rest = self.item_text(items@, i as int, k + 1, drawn as int);
                    assert(was + (row + rest) =~= was + row + rest);
                    let more = self.item_map(items@, i as int, k + 1, drawn as int);
                    assert(marked + (seq![Some(idx)] + more) =~= marked.push(Some(idx)) + more);
                }
                k = k + 1;
            }
            i = i + 1;
            if drawn >= self.max {
                assert(self.item_text(items@, i as int, 0, drawn as int) =~= Seq::empty());
                assert(self.item_map(items@, i as int, 0, drawn as int) =~= Seq::empty());
            }
        }
        assert(self.item_text(items@, i as int, 0, drawn as int) =~= Seq::empty());
        assert(self.item_map(items@, i as int, 0, drawn as int) =~= Seq::empty());
        assert(out@ =~= all);
        assert(map@ =~= named);
    }
}

/// Where the box was drawn.
#[derive(Debug, Clone, Copy, PartialEq, Eq, Structural)]
pub struct BoxLayout {
    pub top_left: usize,
    pub rows: usize,
    pub cols: usize,
    pub cursor_col: usize,
    /// The width of the line above the box.
    pub preceding_line_width: usize,
    /// The column of the cursor on that line.
    pub preceding_cursor_col: usize,
}

/// A quotient, rounded up.
pub open spec fn ceiling(a: int, b: int) -> int {
    if a % b == 0 {
        a / b
    } else {
        a / b + 1
    }
}

fn ceil_div(a: usize, b: usize) -> (r: usize)
    requires
        b > 0,
    ensures
        r == ceiling(a as int, b as int),
{
    let q: usize = a / b;
    if a % b == 0 {
        q
    } else {
        proof {
            if b == 1 {
                vstd::arithmetic::div_mod::lemma_mod_self_0(1);
                assert(a % 1 == 0);
            }
            assert(q < usize::MAX) by (nonlinear_arith)
                requires
                    q == a / b,
                    b >= 2,
                    a <= usize::MAX,
            ;
        }
        q + 1
    }
}

impl BoxLayout {
    /// What the layout asks of the machine's word size.
    pub open spec fn countable(self) -> bool {
        self.rows * self.cols <= usize::MAX && self.cols + self.cursor_col <= usize::MAX
    }

    /// The rows that the box takes on a terminal of some columns.
    pub open spec fn physical_rows(self, new_cols: usize) -> int {
        if new_cols > 0 {
            ceiling(self.rows * self.cols, new_cols as int)
        } else {
            self.rows as int
        }
    }

    /// The rows below the cursor.
    pub open spec fn rows_below(self, new_cols: usize) -> int {
        let row = if new_cols > 0 {
            (self.cols + self.cursor_col) / (new_cols as int)
        } else {
            1
        };
        listwin::less(self.physical_rows(new_cols), row + 1)
    }

    /// The rows that the line above the box takes more, below the cursor on it.
    pub open spec fn gap_rows(self, new_cols: usize) -> int {
        if new_cols > 0 && self.preceding_line_width > new_cols {
            listwin::less(
                ceiling(self.preceding_line_width as int, new_cols as int),
                self.preceding_cursor_col as int / new_cols as int + 1,
            )
        } else {
            0
        }
    }
}

/// A list of candidates in a box, with a query above them.
#[derive(Debug)]
pub struct BoxSelector {
    pub title: String,
    /// The candidates that were found.
    pub filtered: Vec<Candidate>,
    /// How many candidates there are.
    pub total: usize,
    pub number_candidates: bool,
    pub cursor: usize,
    pub window: ListWindow,
    pub query: QueryWindow,
    pub prompt_line_width: usize,
    pub prompt_cursor_col: usize,
    pub old_layout: Option<BoxLayout>,
}

/// The rows that each candidate takes.
pub open spec fn heights_of(items: Seq<Candidate>) -> Seq<usize> {
    Seq::new(items.len(), |i: int| line::capped(listwin::rows_of(items[i].content@)))
}

fn find_heights(items: &Vec<Candidate>) -> (r: Vec<usize>)
    ensures
        r@ == heights_of(items@),
{
    let mut out: Vec<usize> = Vec::new();
    let mut i: usize = 0;
    while i < items.len()
        invariant
            i <= items@.len(),
            out@ == heights_of(items@).take(i as int),
        decreases items@.len() - i,
    {
        out.push(candidate_height(items[i].content.as_str()));
        i = i + 1;
        assert(out@ =~= heights_of(items@).take(i as int));
    }
    assert(out@ =~= heights_of(items@));
    out
}

/// How wide the numbers of the items are.
pub open spec fn number_wid(total: usize) -> usize {
    let n = text::decimal(total as nat).len() + 1;
    if n > 6 {
        line::capped(n)
    } else {
        6
    }
}

impl BoxSelector {
    /// The candidates can be counted, and the cursor is on one of them.
    pub open spec fn wf(self) -> bool {
        &&& self.filtered@.len() <= usize::MAX / 4
        &&& self.filtered@.len() > 0 ==> self.cursor < self.filtered@.len()
        &&& self.filtered@.len() == 0 ==> self.cursor == 0
        &&& self.window.scroll_offset <= usize::MAX / 4
        &&& self.window.max_height <= usize::MAX / 4
    }

    pub fn new(title: String) -> (r: Self)
        ensures
            r.wf(),
            r.title == title,
            r.filtered@.len() == 0,
            r.total == 0,
            !r.number_candidates,
            r.cursor == 0,
            r.window.scroll_offset == 0,
            r.window.max_height == 8,
            r.window.row_map@.len() == 0,
            r.window.top == 0,
            r.window.hovered is None,
            r.query == (QueryWindow { scroll_offset: 0, available_width: 0 }),
            r.prompt_line_width == 0,
            r.prompt_cursor_col == 0,
            r.old_layout is None,
    {
        BoxSelector {
            title,
            filtered: Vec::new(),
            total: 0,
            number_candidates: false,
            cursor: 0,
            window: ListWindow::new(),
            query: QueryWindow { scroll_offset: 0, available_width: 0 },
            prompt_line_width: 0,
            prompt_cursor_col: 0,
            old_layout: None,
        }
    }

    /// The first item that is shown, so that the cursor is.
    pub open spec fn first_shown(self) -> int {
        if self.filtered@.len() == 0 {
            0
        } else {
            listwin::list_offset(
                heights_of(self.filtered@),
                self.window.scroll_offset as int,
                self.cursor as int,
                self.window.max_height as int,
            )
        }
    }

    /// What the rows of the items go by. The items are counted from the first one
    /// that was shown before.
    pub open spec fn plan(self, w: WidthCalculator, cols: usize) -> BoxPlan {
        let pad = number_wid(self.total);
        let from = self.first_shown();
        let to = listwin::list_end(
            heights_of(self.filtered@),
            self.window.max_height as int,
            from,
            0,
        );
        let widest = widest(w, self.filtered@, from, to);
        BoxPlan {
            w,
            cols,
            from: from as usize,
            to: to as usize,
            base: self.window.scroll_offset,
            max: self.window.max_height,
            cursor: self.cursor,
            hovered: self.window.hovered,
            numbered: self.number_candidates,
            min_pad: pad,
            lim: listwin::less(
                cols as int,
                if self.number_candidates {
                    3 + pad
                } else {
                    3
                },
            ) as usize,
            desc_col: if widest <= MAX_DESC_COL {
                widest
            } else {
                MAX_DESC_COL
            },
        }
    }

    /// The part of the query that is shown in some columns.
    pub open spec fn query_window(self, line: LineBuf, cols: usize) -> QueryWindow {
        let room = listwin::less(cols as int, 6);
        QueryWindow {
            available_width: room as usize,
            scroll_offset: listwin::query_offset(
                self.query.scroll_offset as int,
                room,
                buffer::flat_capped(line.text(), line.cursor.pos) as int,
                line::capped(lines::count(line.text())) as int,
            ) as usize,
        }
    }

    /// The text of the query that is shown.
    pub open spec fn query_text(q: QueryWindow, line: LineBuf) -> Seq<char> {
        let all = lines::text_chars(line.text());
        let len = line::capped(lines::count(line.text()));
        let gs = unicode::clusters(all);
        if len <= q.available_width {
            all
        } else {
            let last = len - q.available_width;
            let start = if q.scroll_offset <= last {
                q.scroll_offset as int
            } else {
                last
            };
            if start + q.available_width <= gs.len() {
                unicode::joined(gs.subrange(start, start + q.available_width))
            } else {
                Seq::empty()
            }
        }
    }

    /// The column of the cursor in the box.
    pub open spec fn cursor_column(q: QueryWindow, line: LineBuf) -> usize {
        line::capped(
            (listwin::less(
                buffer::flat_capped(line.text(), line.cursor.pos) as int,
                q.scroll_offset as int,
            ) + 4) as nat,
        )
    }

    /// The rows above the items: the title, the query, and how many candidates
    /// were found of how many.
    pub open spec fn head_text(self, w: WidthCalculator, cols: usize, query: Seq<char>) -> Seq<char> {
        "\n"@ + padded(
            w,
            cols,
            "\u{256d}\u{2500} \x1b[1m"@ + self.title@ + "\x1b[0m "@,
            "\u{2500}"@,
            "\u{256e}"@,
        ) + padded(
            w,
            cols,
            "\u{2502} "@ + PROMPT_ARROW@ + " "@ + query,
            " "@,
            "\u{2502}"@,
        ) + padded(
            w,
            cols,
            "\u{251c}\u{2500}\u{2500}\x1b[33m"@ + text::decimal(self.filtered@.len())
                + "\x1b[0m/\x1b[33m"@ + text::decimal(self.total as nat) + "\x1b[0m"@,
            "\u{2500}"@,
            "\u{2524}"@,
        )
    }

    /// The bottom of the box, and the way back to the query.
    pub open spec fn foot_text(cols: usize, rows: nat, cursor_col: usize) -> Seq<char> {
        "\u{2570}"@ + layout::times("\u{2500}"@, listwin::less(cols as int, 2) as nat)
            + "\u{256f}"@ + grid::up_by((rows - 2) as nat) + "\r\x1b["@ + text::decimal(
            cursor_col as nat,
        ) + "C"@
    }

    fn draw_head(&self, w: WidthCalculator, cols: usize, query: &str) -> (r: String)
        ensures
            r@ == self.head_text(w, cols, query@),
    {
        let mut out = owned("\n");
        let mut top = owned("\u{256d}\u{2500} \x1b[1m");
        top.push_str(self.title.as_str());
        top.push_str("\x1b[0m ");
        pad_line(w, cols, top.as_str(), "\u{2500}", "\u{256e}", &mut out);
        let mut mid = owned("\u{2502} ");
        mid.push_str(PROMPT_ARROW);
        mid.push_str(" ");
        mid.push_str(query);
        pad_line(w, cols, mid.as_str(), " ", "\u{2502}", &mut out);
        let mut sep = owned("\u{251c}\u{2500}\u{2500}\x1b[33m");
        let found = decimal_string(self.filtered.len());
        sep.push_str(found.as_str());
        sep.push_str("\x1b[0m/\x1b[33m");
        let total = decimal_string(self.total);
        sep.push_str(total.as_str());
        sep.push_str("\x1b[0m");
        pad_line(w, cols, sep.as_str(), "\u{2500}", "\u{2524}", &mut out);
        out
    }

    fn draw_foot(cols: usize, rows: usize, cursor_col: usize, out: &mut String)
        requires
            rows >= 2,
        ensures
            final(out)@ == old(out)@ + BoxSelector::foot_text(cols, rows as nat, cursor_col),
    {
        let ghost was = out@;
        out.push_str("\u{2570}");
        push_times(out, "\u{2500}", cols.saturating_sub(2));
        out.push_str("\u{256f}");
        let up = up_escape(rows - 2);
        out.push_str(up.as_str());
        out.push_str("\r\x1b[");
        let d = decimal_string(cursor_col);
        out.push_str(d.as_str());
        out.push_str("C");
        assert(out@ =~= was + BoxSelector::foot_text(cols, rows as nat, cursor_col));
    }

    fn make_plan(&self, w: WidthCalculator, cols: usize) -> (r: BoxPlan)
        requires
            self.wf(),
        ensures
            r == self.plan(w, cols),
            r.wf(self.filtered@),
            self.first_shown() == r.from,
    {
        let heights = find_heights(&self.filtered);
        let mut shown = ListWindow {
            scroll_offset: self.window.scroll_offset,
            max_height: self.window.max_height,
            row_map: Vec::new(),
            top: 0,
            hovered: None,
        };
        if self.filtered.len() > 0 {
            proof {
                listwin::cursor_is_listed(
                    heights@,
                    self.window.scroll_offset as int,
                    self.cursor as int,
                    self.window.max_height as int,
                );
            }
            shown.update_scroll_offset(heights.as_slice(), self.cursor);
        } else {
            shown.scroll_offset = 0;
        }
        let (from, to) = shown.get_window(heights.as_slice());
        let most = find_widest(w, &self.filtered, from, to);
        let d = decimal_string(self.total);
        let v = chars_of(d.as_str());
        let pad: usize = if v.len() >= 6 {
            v.len().saturating_add(1)
        } else {
            6
        };
        let side: usize = if self.number_candidates {
            pad.saturating_add(3)
        } else {
            3
        };
        BoxPlan {
            w,
            cols,
            from,
            to,
            base: self.window.scroll_offset,
            max: self.window.max_height,
            cursor: self.cursor,
            hovered: self.window.hovered,
            numbered: self.number_candidates,
            min_pad: pad,
            lim: cols.saturating_sub(side),
            desc_col: if most <= MAX_DESC_COL {
                most
            } else {
                MAX_DESC_COL
            },
        }
    }

    /// Draws the box, which begins in a row of the screen, and gives how many rows
    /// it takes. The rows of the query and of the numbers are left out of what is
    /// noted of the rows.
    pub fn draw(&mut self, w: WidthCalculator, cols: usize, top_left: usize, line: &LineBuf) -> (r: (
        String,
        usize,
    ))
        requires
            old(self).wf(),
            line.lines@.len() > 0,
        ensures
            ({
                let q = old(self).query_window(*line, cols);
                let plan = old(self).plan(w, cols);
                let map = plan.item_map(old(self).filtered@, 0, 0, 0);
                let col = BoxSelector::cursor_column(q, *line);
                &&& r.1 == map.len() + 4
                &&& r.0@ == old(self).head_text(w, cols, BoxSelector::query_text(q, *line))
                    + plan.item_text(old(self).filtered@, 0, 0, 0) + BoxSelector::foot_text(
                    cols,
                    r.1 as nat,
                    col,
                )
                &&& final(self).window.row_map@ == seq![None::<usize>] + map + seq![None::<usize>]
                &&& *final(self) == (BoxSelector {
                    query: q,
                    window: ListWindow {
                        scroll_offset: plan.from,
                        row_map: final(self).window.row_map,
                        top: top_left,
                        ..old(self).window
                    },
                    old_layout: Some(
                        BoxLayout {
                            top_left,
                            rows: r.1,
                            cols,
                            cursor_col: col,
                            preceding_line_width: old(self).prompt_line_width,
                            preceding_cursor_col: old(self).prompt_cursor_col,
                        },
                    ),
                    ..*old(self)
                })
            }),
            r.1 <= old(self).window.max_height + 4,
            final(self).wf(),
    {
        let at: usize = line.cursor_to_flat();
        let len: usize = line.count_graphemes();
        self.query.set_available_width(cols.saturating_sub(6));
        self.query.update_scroll_offset(at, len);
        let ghost q = old(self).query_window(*line, cols);
        assert(self.query == q);
        let query = if len <= self.query.available_width {
            line.joined()
        } else {
            let (s, e) = self.query.get_window(len);
            match line.slice(s, e) {
                Some(t) => t,
                None => {
                    let t: String = String::new();
                    assert(t@ =~= Seq::empty());
                    t
                },
            }
        };
        assert(query@ == BoxSelector::query_text(q, *line));
        let plan = self.make_plan(w, cols);
        let mut out = self.draw_head(w, cols, query.as_str());
        let mut map: Vec<Option<usize>> = Vec::new();
        map.push(None);
        plan.draw_items(&self.filtered, &mut out, &mut map);
        let rows: usize = map.len() + 3;
        map.push(None);
        let col: usize = at.saturating_sub(self.query.scroll_offset).saturating_add(4);
        BoxSelector::draw_foot(cols, rows, col, &mut out);
        self.old_layout = Some(
            BoxLayout {
                top_left,
                rows,
                cols,
                cursor_col: col,
                preceding_line_width: self.prompt_line_width,
                preceding_cursor_col: self.prompt_cursor_col,
            },
        );
        assert(map@ =~= seq![None::<usize>] + plan.item_map(old(self).filtered@, 0, 0, 0)
            + seq![None::<usize>]);
        self.window.scroll_offset = plan.from;
        self.window.row_map = map;
        self.window.top = top_left;
        (out, rows)
    }

    /// What erases the box that was drawn, on a terminal of some columns.
    pub open spec fn erased(self, new_cols: usize) -> Seq<char> {
        match self.old_layout {
            None => Seq::empty(),
            Some(l) => {
                let below = l.rows_below(new_cols);
                (if below > 0 {
                    ("\x1b["@ + text::decimal(below as nat)).push('B')
                } else {
                    Seq::empty()
                }) + layout::times("\x1b[2K\x1b[A"@, l.physical_rows(new_cols) as nat)
                    + "\x1b[2K"@ + layout::times("\x1b[2K\x1b[A"@, l.gap_rows(new_cols) as nat)
            },
        }
    }

    /// Erases the box that was drawn.
    pub fn clear(&mut self, new_cols: usize) -> (r: String)
        requires
            old(self).old_layout is Some ==> (old(self).old_layout->0).countable(),
        ensures
            r@ == old(self).erased(new_cols),
            *final(self) == (BoxSelector { old_layout: None, ..*old(self) }),
    {
        let mut out: String = String::new();
        assert(out@ =~= Seq::empty());
        let l = match self.old_layout {
            None => {
                return out;
            },
            Some(l) => l,
        };
        self.old_layout = None;
        let physical: usize = if new_cols > 0 {
            ceil_div(l.rows * l.cols, new_cols)
        } else {
            l.rows
        };
        let row: usize = if new_cols > 0 {
            (l.cols + l.cursor_col) / new_cols
        } else {
            1
        };
        let below: usize = physical.saturating_sub(row).saturating_sub(1);
        let gap: usize = if new_cols > 0 && l.preceding_line_width > new_cols {
            ceil_div(l.preceding_line_width, new_cols).saturating_sub(
                l.preceding_cursor_col / new_cols,
            ).saturating_sub(1)
        } else {
            0
        };
        if below > 0 {
            out.push_str("\x1b[");
            let d = decimal_string(below);
            out.push_str(d.as_str());
            out.push('B');
        }
        push_times(&mut out, "\x1b[2K\x1b[A", physical);
        out.push_str("\x1b[2K");
        push_times(&mut out, "\x1b[2K\x1b[A", gap);
        assert(out@ =~= old(self).erased(new_cols));
        out
    }
}

} // verus!
