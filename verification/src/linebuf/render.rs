//! The buffer as it is handed out: with the selection marked, the hint styled,
//! and to and from a shell command.

use crate::linebuf::buffer;
use crate::linebuf::buffer::LineBuf;
use crate::linebuf::buffer::Viewport;
use crate::linebuf::line;
use crate::linebuf::line::Grapheme;
use crate::linebuf::line::Line;
use crate::linebuf::lines;
use crate::linebuf::lines::clone_lines;
use crate::linebuf::lines::join_lines;
use crate::linebuf::lines::push_line;
use crate::linebuf::lines::split_lines_at;
use crate::linebuf::lines::to_lines;
use crate::linebuf::lines::Text;
use crate::linebuf::pos;
use crate::linebuf::pos::lesser;
use crate::linebuf::pos::ordered_pos;
use crate::linebuf::pos::ordered_rows;
use crate::linebuf::pos::Cursor;
use crate::linebuf::pos::Pos;
use crate::linebuf::pos::SelectMode;
use crate::linebuf::words;
use crate::markers;
use crate::text;
use crate::text::bytes_up_to;
use crate::text::chars_of;
use crate::text::decimal_string;
use crate::text::find_chars;
use crate::text::parse_usize;
use crate::text::string_of;
use crate::text::sub_chars;
use crate::unicode;
use crate::unicode::graphemes_of;
use vstd::prelude::*;

verus! {

/// A line with the end of the selection marked behind a column.
pub open spec fn end_marked(row: Seq<Seq<char>>, col: usize) -> Seq<Seq<char>> {
    if col + 1 >= row.len() {
        row.push(seq![markers::VISUAL_MODE_END])
    } else {
        row.insert(col + 1, seq![markers::VISUAL_MODE_END])
    }
}

/// A line with the start of the selection marked before a column.
pub open spec fn start_marked(row: Seq<Seq<char>>, col: usize) -> Seq<Seq<char>> {
    row.insert(line::least(col as int, row.len() as int), seq![markers::VISUAL_MODE_START])
}

/// A line of a text in which the selection goes from one place to another.
pub open spec fn marked_row(row: Seq<Seq<char>>, r: int, s: Pos, e: Pos) -> Seq<Seq<char>> {
    if r < s.row || r > e.row {
        row
    } else if s.row == e.row {
        start_marked(end_marked(row, e.col), s.col)
    } else if r == s.row {
        start_marked(row, s.col).push(seq![markers::VISUAL_MODE_END])
    } else if r == e.row {
        start_marked(end_marked(row, e.col), 0)
    } else {
        start_marked(row, 0).push(seq![markers::VISUAL_MODE_END])
    }
}

/// A line of a text in which whole lines are selected.
pub open spec fn marked_line(row: Seq<Seq<char>>, r: int, s: usize, e: usize) -> Seq<Seq<char>> {
    if r < s || r > e {
        row
    } else if r == e {
        start_marked(row, 0).push(seq![markers::VISUAL_MODE_END])
    } else {
        start_marked(row, 0)
    }
}

/// A text with the selection marked.
pub open spec fn marked(t: Text, cursor: Pos, sel: Option<SelectMode>) -> Text {
    match sel {
        Some(SelectMode::Char(p)) => Seq::new(
            t.len(),
            |r: int| marked_row(t[r], r, pos::pos_min(cursor, p), pos::pos_max(cursor, p)),
        ),
        Some(SelectMode::Line(p)) => Seq::new(
            t.len(),
            |r: int|
                marked_line(
                    t[r],
                    r,
                    if cursor.row > p.row {
                        p.row
                    } else {
                        cursor.row
                    },
                    if cursor.row > p.row {
                        cursor.row
                    } else {
                        p.row
                    },
                ),
        ),
        _ => t,
    }
}

fn mark_start(l: &mut Line, col: usize)
    ensures
        final(l)@ == start_marked(old(l)@, col),
{
    let at: usize = lesser(col, l.len());
    l.insert_char(at, markers::VISUAL_MODE_START);
}

fn mark_end(l: &mut Line, col: usize)
    ensures
        final(l)@ == end_marked(old(l)@, col),
{
    if col >= l.len() || col + 1 >= l.len() {
        l.push_char(markers::VISUAL_MODE_END);
    } else {
        l.insert_char(col + 1, markers::VISUAL_MODE_END);
    }
}

fn mark_row(l: &Line, r: usize, s: Pos, e: Pos) -> (o: Line)
    ensures
        o@ == marked_row(l@, r as int, s, e),
{
    let mut o = l.clone();
    if r < s.row || r > e.row {
        return o;
    }
    if s.row == e.row {
        mark_end(&mut o, e.col);
        mark_start(&mut o, s.col);
    } else if r == s.row {
        mark_start(&mut o, s.col);
        o.push_char(markers::VISUAL_MODE_END);
    } else if r == e.row {
        mark_end(&mut o, e.col);
        mark_start(&mut o, 0);
    } else {
        mark_start(&mut o, 0);
        o.push_char(markers::VISUAL_MODE_END);
    }
    o
}

fn mark_line(l: &Line, r: usize, s: usize, e: usize) -> (o: Line)
    ensures
        o@ == marked_line(l@, r as int, s, e),
{
    let mut o = l.clone();
    if r < s || r > e {
        return o;
    }
    mark_start(&mut o, 0);
    if r == e {
        o.push_char(markers::VISUAL_MODE_END);
    }
    o
}

/// Characters with a piece put behind each linefeed.
pub open spec fn after_linefeeds(s: Seq<char>, piece: Seq<char>) -> Seq<char>
    decreases s.len(),
{
    if s.len() == 0 {
        s
    } else if s.last() == '\n' {
        after_linefeeds(s.drop_last(), piece).push('\n') + piece
    } else {
        after_linefeeds(s.drop_last(), piece).push(s.last())
    }
}

/// The start of the style of a hint.
pub const HINT_ON: &'static str = "\x1b[90m";

/// The end of all styles.
pub const STYLE_OFF: &'static str = "\x1b[0m";

/// A hint as it is shown: dimmed, anew on each of its lines.
pub open spec fn styled_hint(h: Option<Text>) -> Seq<char> {
    match h {
        None => Seq::empty(),
        Some(t) => after_linefeeds(
            HINT_ON@ + lines::text_chars(t) + STYLE_OFF@,
            HINT_ON@,
        ),
    }
}

fn push_after_linefeeds(v: &[char], piece: &str) -> (r: String)
    ensures
        r@ == after_linefeeds(v@, piece@),
{
    let mut out: String = String::new();
    let mut i: usize = 0;
    while i < v.len()
        invariant
            i <= v@.len(),
            out@ == after_linefeeds(v@.take(i as int), piece@),
        decreases v@.len() - i,
    {
        out.push(v[i]);
        if v[i] == '\n' {
            out.push_str(piece);
        }
        i = i + 1;
        assert(v@.take(i as int).drop_last() =~= v@.take(i - 1));
    }
    assert(v@.take(i as int) =~= v@);
    out
}

/// The bytes of the lines above a row, their linefeeds included.
pub open spec fn bytes_above(t: Text, row: int) -> nat
    decreases row,
{
    if row <= 0 {
        0
    } else {
        bytes_above(t, row - 1) + text::byte_len(unicode::joined(t[row - 1])) + 1
    }
}

/// How many bytes stand before the cursor.
pub open spec fn byte_pos(t: Text, p: Pos) -> nat {
    let row = t[p.row as int];
    let gs = unicode::clusters(unicode::joined(row));
    let n = line::least(line::least(p.col as int, row.len() as int), gs.len() as int);
    bytes_above(t, p.row as int) + text::byte_len(unicode::joined(gs.take(n)))
}

/// What a shell command is told of the buffer: its text, and how many places
/// stand before the cursor and before the anchor of the selection.
pub open spec fn told(b: LineBuf) -> (Seq<char>, Seq<char>, Seq<char>) {
    (
        lines::text_chars(b.text()),
        text::decimal(flat_of(b.text(), b.cursor.pos)),
        match b.select_mode {
            Some(m) => text::decimal(flat_of(b.text(), buffer::anchor_of(m))),
            None => Seq::empty(),
        },
    )
}

/// How many places stand before a position.
pub open spec fn flat_of(t: Text, p: Pos) -> nat {
    let q = words::bounded(t, p, false);
    (lines::places(t.take(q.row as int)) + q.col) as nat
}

/// Where a shell command put the cursor: `row:column`, a number of places, or
/// something else, which leaves it where it was.
pub enum Placed {
    At(Pos),
    Flat(usize),
    Kept,
}

/// Reads where a shell command put the cursor.
pub open spec fn placed(s: Seq<char>) -> Placed {
    match text::found_from(s, seq![':'], 0) {
        Some(i) => match (text::parsed_usize(s.take(i)), text::parsed_usize(s.skip(i + 1))) {
            (Some(row), Some(col)) => Placed::At(Pos { row, col }),
            _ => match text::parsed_usize(s) {
                Some(n) => Placed::Flat(n),
                None => Placed::Kept,
            },
        },
        None => match text::parsed_usize(s) {
            Some(n) => Placed::Flat(n),
            None => Placed::Kept,
        },
    }
}

/// A selection with another anchor.
pub open spec fn with_anchor(m: SelectMode, p: Pos) -> SelectMode {
    match m {
        SelectMode::Char(_) => SelectMode::Char(p),
        SelectMode::Line(_) => SelectMode::Line(p),
        SelectMode::Block(_) => SelectMode::Block(p),
    }
}

impl LineBuf {
    /// The text with the selection marked.
    pub fn to_string(&self) -> (r: String)
        ensures
            r@ == lines::text_chars(marked(self.text(), self.cursor.pos, self.select_mode)),
    {
        let mut out: Vec<Line> = Vec::new();
        let ghost t = self.text();
        let ghost m = marked(t, self.cursor.pos, self.select_mode);
        let mut i: usize = 0;
        assert(lines::text(out@) =~= m.take(0));
        while i < self.lines.len()
            invariant
                i <= self.lines@.len(),
                t == self.text(),
                m == marked(t, self.cursor.pos, self.select_mode),
                m.len() == self.lines@.len(),
                lines::text(out@) == m.take(i as int),
            decreases self.lines@.len() - i,
        {
            assert(t[i as int] == self.lines@[i as int]@);
            let l = match self.select_mode {
                Some(SelectMode::Char(p)) => {
                    let (s, e) = ordered_pos(self.cursor.pos, p);
                    mark_row(&self.lines[i], i, s, e)
                },
                Some(SelectMode::Line(p)) => {
                    let (s, e) = ordered_rows(self.cursor.pos.row, p.row);
                    mark_line(&self.lines[i], i, s, e)
                },
                _ => self.lines[i].clone(),
            };
            assert(l@ == m[i as int]);
            push_line(&mut out, l);
            i = i + 1;
            assert(lines::text(out@) =~= m.take(i as int));
        }
        assert(m.take(i as int) =~= m);
        join_lines(out.as_slice())
    }

    /// The hint as it is shown.
    pub fn get_hint_text(&self) -> (r: String)
        ensures
            r@ == styled_hint(self.hinted()),
    {
        match &self.hint {
            None => String::new(),
            Some(_) => {
                let mut s: String = String::new();
                s.push_str(HINT_ON);
                let h = self.join_hint();
                s.push_str(h.as_str());
                s.push_str(STYLE_OFF);
                assert(s@ =~= HINT_ON@ + h@ + STYLE_OFF@);
                let v = chars_of(s.as_str());
                push_after_linefeeds(v.as_slice(), HINT_ON)
            },
        }
    }

    /// The part in view of the highlighted text with the hint behind it.
    pub fn display_window_joined(&self, highlighted: &str, height: usize) -> (r: String)
        ensures
            r@ == ({
                let t = lines::lines_of(highlighted@ + styled_hint(self.hinted()));
                let from = line::least(self.scroll_offset as int, t.len() as int);
                let to = line::least(
                    from + buffer::shown_height(self.text(), self.hinted(), height),
                    t.len() as int,
                );
                lines::text_chars(t.subrange(from, to))
            }),
    {
        let mut s = text::owned(highlighted);
        let h = self.get_hint_text();
        s.push_str(h.as_str());
        let all = to_lines(s.as_str());
        let ghost t = lines::text(all@);
        assert(t.len() == all@.len());
        let shown = self.get_viewport_height(height);
        let from: usize = lesser(self.scroll_offset, all.len());
        let room: usize = all.len() - from;
        let to: usize = from + lesser(shown, room);
        let mut out: Vec<Line> = Vec::new();
        let mut i: usize = from;
        assert(lines::text(out@) =~= t.subrange(from as int, from as int));
        while i < to
            invariant
                from <= i <= to <= all@.len(),
                t == lines::text(all@),
                lines::text(out@) == t.subrange(from as int, i as int),
            decreases to - i,
        {
            push_line(&mut out, all[i].clone());
            i = i + 1;
            assert(lines::text(out@) =~= t.subrange(from as int, i as int));
        }
        join_lines(out.as_slice())
    }

    /// The graphemes of the text from one to another, the second outside.
    pub fn slice(&self, start: usize, end: usize) -> (r: Option<String>)
        requires
            start <= end,
        ensures
            ({
                let gs = unicode::clusters(lines::text_chars(self.text()));
                match r {
                    Some(s) => end <= gs.len() && s@ == unicode::joined(
                        gs.subrange(start as int, end as int),
                    ),
                    None => end > gs.len(),
                }
            }),
    {
        let joined = self.joined();
        let gs = graphemes_of(joined.as_str());
        let ghost x = unicode::clusters(joined@);
        if end > gs.len() {
            return None;
        }
        let mut out: String = String::new();
        let mut i: usize = start;
        assert(x.subrange(start as int, start as int) =~= Seq::<Seq<char>>::empty());
        while i < end
            invariant
                start <= i <= end <= gs@.len(),
                gs@.len() == x.len(),
                forall|k: int| 0 <= k < x.len() ==> (#[trigger] gs@[k])@ == x[k],
                out@ == unicode::joined(x.subrange(start as int, i as int)),
            decreases end - i,
        {
            out.push_str(gs[i].as_str());
            i = i + 1;
            assert(x.subrange(start as int, i as int).drop_last() =~= x.subrange(
                start as int,
                i - 1,
            ));
        }
        Some(out)
    }

    /// How many bytes stand before the cursor.
    pub fn cursor_byte_pos(&self) -> (r: usize)
        requires
            self.wf(),
        ensures
            r == line::capped(byte_pos(self.text(), self.cursor.pos)),
    {
        let ghost t = self.text();
        let p: Pos = self.cursor.pos;
        let mut n: usize = 0;
        let mut i: usize = 0;
        while i < p.row
            invariant
                i <= p.row < self.lines@.len(),
                t == self.text(),
                n == line::capped(bytes_above(t, i as int)),
            decreases p.row - i,
        {
            assert(t[i as int] == self.lines@[i as int]@);
            let s = self.lines[i].to_string();
            let v = chars_of(s.as_str());
            assert(v@.take(v@.len() as int) =~= v@);
            n = n.saturating_add(bytes_up_to(v.as_slice(), v.len())).saturating_add(1);
            i = i + 1;
        }
        assert(t[p.row as int] == self.lines@[p.row as int]@);
        let s = self.lines[p.row].to_string();
        let gs = graphemes_of(s.as_str());
        let ghost x = unicode::clusters(s@);
        let col: usize = lesser(lesser(p.col, self.lines[p.row].len()), gs.len());
        let mut b: usize = 0;
        let mut k: usize = 0;
        assert(x.take(0) =~= Seq::<Seq<char>>::empty());
        while k < col
            invariant
                k <= col <= gs@.len(),
                gs@.len() == x.len(),
                forall|j: int| 0 <= j < x.len() ==> (#[trigger] gs@[j])@ == x[j],
                b == line::capped(text::byte_len(unicode::joined(x.take(k as int)))),
            decreases col - k,
        {
            let v = chars_of(gs[k].as_str());
            proof {
                assert(v@.take(v@.len() as int) =~= v@);
                assert(x.take(k + 1).drop_last() =~= x.take(k as int));
                text::lemma_byte_len_add(unicode::joined(x.take(k as int)), x[k as int]);
            }
            b = b.saturating_add(bytes_up_to(v.as_slice(), v.len()));
            k = k + 1;
        }
        n.saturating_add(b)
    }

    /// The text before a position, of which the indentation is asked.
    pub fn indent_input(&self, p: Pos) -> (r: String)
        requires
            self.lines@.len() > 0,
        ensures
            r@ == lines::text_chars(lines::before(self.text(), p)),
    {
        let mut l = clone_lines(&self.lines);
        assert(lines::text(l@).len() == l@.len());
        assert(self.text().len() == self.lines@.len());
        split_lines_at(&mut l, p);
        join_lines(l.as_slice())
    }

    /// The graphemes of the buffer, each with its position.
    pub fn grapheme_positions(&self) -> (r: Vec<(Pos, Grapheme)>)
        ensures
            r@.len() == all_positions(self.text(), self.text().len() as int).len(),
            forall|i: int|
                0 <= i < r@.len() ==> {
                    let x = all_positions(self.text(), self.text().len() as int)[i];
                    (#[trigger] r@[i]).0 == x.0 && r@[i].1@ == x.1
                },
    {
        let ghost t = self.text();
        assert(t.len() == self.lines@.len());
        let mut out: Vec<(Pos, Grapheme)> = Vec::new();
        let mut row: usize = 0;
        while row < self.lines.len()
            invariant
                row <= self.lines@.len(),
                t == self.text(),
                t.len() == self.lines@.len(),
                out@.len() == all_positions(t, row as int).len(),
                forall|i: int|
                    0 <= i < out@.len() ==> {
                        let x = all_positions(t, row as int)[i];
                        (#[trigger] out@[i]).0 == x.0 && out@[i].1@ == x.1
                    },
            decreases self.lines@.len() - row,
        {
            assert(t[row as int] == self.lines@[row as int]@);
            let ghost before = all_positions(t, row as int);
            let mut col: usize = 0;
            let n: usize = self.lines[row].len();
            while col < n
                invariant
                    row < self.lines@.len(),
                    n == self.lines@[row as int]@.len(),
                    t[row as int] == self.lines@[row as int]@,
                    col <= n,
                    before == all_positions(t, row as int),
                    out@.len() == before.len() + col,
                    forall|i: int|
                        0 <= i < before.len() ==> (#[trigger] out@[i]).0 == before[i].0
                            && out@[i].1@ == before[i].1,
                    forall|i: int|
                        before.len() <= i < out@.len() ==> (#[trigger] out@[i]).0 == (Pos {
                            row,
                            col: (i - before.len()) as usize,
                        }) && out@[i].1@ == t[row as int][i - before.len()],
                decreases n - col,
            {
                out.push((Pos { row, col }, self.lines[row].at(col).clone()));
                col = col + 1;
            }
            row = row + 1;
        }
        out
    }

    /// What a shell command is told of the buffer.
    pub fn shell_vars(&self) -> (r: (String, String, String))
        requires
            self.lines@.len() > 0,
            lines::places(self.text()) <= usize::MAX,
        ensures
            (r.0@, r.1@, r.2@) == told(*self),
    {
        let cursor = decimal_string(self.pos_to_flat(self.cursor.pos));
        let anchor = match self.select_mode {
            Some(SelectMode::Char(p)) => decimal_string(self.pos_to_flat(p)),
            Some(SelectMode::Line(p)) => decimal_string(self.pos_to_flat(p)),
            Some(SelectMode::Block(p)) => decimal_string(self.pos_to_flat(p)),
            None => String::new(),
        };
        (self.joined(), cursor, anchor)
    }

    /// Takes what a shell command made of the buffer. `cursor_raw` is where
    /// the cursor was before.
    pub fn after_shell(
        &mut self,
        buf: &str,
        cursor: &str,
        anchor: &str,
        cursor_raw: usize,
        view: Viewport,
    )
        ensures
            final(self).text() == lines::lines_of(buf@),
            final(self).cursor.exclusive == old(self).cursor.exclusive,
            final(self).cursor.pos == ({
                let t = lines::lines_of(buf@);
                let c = |p: Pos| Cursor { pos: p, exclusive: old(self).cursor.exclusive };
                match placed(cursor@) {
                    Placed::At(p) => words::bounded(t, p, false),
                    Placed::Flat(n) => buffer::fixed_pos(t, c(buffer::unflat(t, n as int))),
                    Placed::Kept => buffer::fixed_pos(
                        t,
                        c(buffer::unflat(t, cursor_raw as int)),
                    ),
                }
            }),
            final(self).select_mode == (match (old(self).select_mode, text::parsed_usize(anchor@)) {
                (Some(m), Some(n)) if n != cursor_raw => Some(
                    with_anchor(m, buffer::unflat(lines::lines_of(buf@), n as int)),
                ),
                _ => old(self).select_mode,
            }),
            final(self).concat_points@.len() == 0,
            final(self).scroll_offset == ({
                let t = lines::lines_of(buf@);
                let row = buffer::fixed_pos(t, old(self).cursor).row;
                let first = buffer::rescrolled(
                    old(self).scroll_offset,
                    row,
                    t,
                    old(self).hinted(),
                    view,
                );
                if placed(cursor@) is At {
                    first
                } else {
                    buffer::rescrolled(
                        first as usize,
                        final(self).cursor.pos.row,
                        t,
                        old(self).hinted(),
                        view,
                    )
                }
            }),
            *final(self) == (LineBuf {
                lines: final(self).lines,
                cursor: final(self).cursor,
                select_mode: final(self).select_mode,
                scroll_offset: final(self).scroll_offset,
                concat_points: final(self).concat_points,
                ..*old(self)
            }),
            final(self).wf(),
    {
        self.set_buffer(buf, view);
        let v = chars_of(cursor);
        let colon: Vec<char> = vec![':'];
        assert(colon@ =~= seq![':']);
        let mut done: bool = false;
        let n: usize = v.len();
        if let Some(i) = find_chars(v.as_slice(), colon.as_slice()) {
            let a = string_of(sub_chars(v.as_slice(), 0, i).as_slice());
            let b = string_of(sub_chars(v.as_slice(), i + 1, n).as_slice());
            assert(a@ =~= cursor@.take(i as int));
            assert(b@ =~= cursor@.skip(i + 1));
            if let Some(row) = parse_usize(a.as_str()) {
                if let Some(col) = parse_usize(b.as_str()) {
                    self.set_cursor(Pos { row, col });
                    done = true;
                }
            }
        }
        if !done {
            match parse_usize(cursor) {
                Some(n) => self.set_cursor_from_flat(n, view),
                None => self.set_cursor_from_flat(cursor_raw, view),
            }
        }
        if let Some(n) = parse_usize(anchor) {
            if n != cursor_raw {
                if let Some(m) = self.select_mode {
                    let p = self.pos_from_flat(n);
                    self.select_mode = Some(
                        match m {
                            SelectMode::Char(_) => SelectMode::Char(p),
                            SelectMode::Line(_) => SelectMode::Line(p),
                            SelectMode::Block(_) => SelectMode::Block(p),
                        },
                    );
                }
            }
        }
    }
}

/// The graphemes of the first rows of a text, each with its position.
pub open spec fn all_positions(t: Text, rows: int) -> Seq<(Pos, Seq<char>)>
    decreases rows,
{
    if rows <= 0 {
        Seq::empty()
    } else {
        all_positions(t, rows - 1) + Seq::new(
            t[rows - 1].len(),
            |c: int| (Pos { row: (rows - 1) as usize, col: c as usize }, t[rows - 1][c]),
        )
    }
}

} // verus!
