//! Joining other command lines to the buffer, left and right, and taking them
//! off again.

use crate::linebuf::buffer;
use crate::linebuf::buffer::LineBuf;
use crate::linebuf::buffer::Viewport;
use crate::linebuf::exec;
use crate::linebuf::line;
use crate::linebuf::line::Grapheme;
use crate::linebuf::line::Line;
use crate::linebuf::lines;
use crate::linebuf::lines::attach_lines;
use crate::linebuf::lines::pop_line;
use crate::linebuf::lines::push_line;
use crate::linebuf::lines::replace_line;
use crate::linebuf::lines::split_lines_at;
use crate::linebuf::lines::to_lines;
use crate::linebuf::lines::Text;
use crate::linebuf::pos::Cursor;
use crate::linebuf::pos::Pos;
use crate::text;
use crate::text::chars_end_with;
use crate::text::chars_of;
use crate::text::trim;
use crate::text::trim_right;
use crate::unicode;
use vstd::prelude::*;

verus! {

/// What is put between two command lines: the separator, unless the buffer
/// already ends with it.
pub open spec fn separator(t: Text, sep: Seq<char>) -> Seq<Seq<char>> {
    if text::has_suffix(text::trimmed_right(lines::text_chars(t)), text::trimmed(sep)) {
        Seq::empty()
    } else {
        unicode::clusters(sep)
    }
}

/// What comes before the buffer when another command line is joined to its
/// left.
pub open spec fn left_part(t: Text, sep: Seq<char>, other: Seq<char>) -> Text {
    let n = lines::lines_of(other);
    n.drop_last().push(n.last() + separator(t, sep))
}

/// The buffer's own part when another command line is joined to its left.
pub open spec fn kept_right(t: Text) -> Text {
    t.update(0, line::trimmed_start(t[0]))
}

/// The buffer's own part when another command line is joined to its right.
pub open spec fn kept_left(t: Text) -> Text {
    t.drop_last().push(line::trimmed_end(t.last()))
}

/// What comes behind the buffer when another command line is joined to its
/// right.
pub open spec fn right_part(t: Text, sep: Seq<char>, other: Seq<char>) -> Text {
    let n = lines::lines_of(other);
    n.update(0, separator(t, sep) + n[0])
}

/// Taking the left part off again gives the buffer as it was, without the
/// whitespace at its start.
pub proof fn pop_left_undoes_concat_left(t: Text, sep: Seq<char>, other: Seq<char>)
    requires
        t.len() > 0,
        left_part(t, sep, other).len() <= usize::MAX,
        left_part(t, sep, other).last().len() <= usize::MAX,
    ensures
        ({
            let l = left_part(t, sep, other);
            lines::after(lines::attached(l, kept_right(t)), lines::seam(l)) == kept_right(t)
        }),
{
    lines::lemma_rows_nonempty(other);
    lines::attach_then_split(left_part(t, sep, other), kept_right(t));
}

/// Taking the right part off again gives the buffer as it was, without the
/// whitespace at its end.
pub proof fn pop_right_undoes_concat_right(t: Text, sep: Seq<char>, other: Seq<char>)
    requires
        t.len() > 0,
        t.len() <= usize::MAX,
        line::trimmed_end(t.last()).len() <= usize::MAX,
    ensures
        ({
            let l = kept_left(t);
            lines::before(lines::attached(l, right_part(t, sep, other)), lines::seam(l)) == l
        }),
{
    lines::lemma_rows_nonempty(other);
    lines::attach_then_split(kept_left(t), right_part(t, sep, other));
}

impl LineBuf {
    fn needs_sep(&self, sep: &str) -> (r: bool)
        ensures
            r == !text::has_suffix(
                text::trimmed_right(lines::text_chars(self.text())),
                text::trimmed(sep@),
            ),
    {
        let joined = self.joined();
        let v = chars_of(joined.as_str());
        let v = trim_right(v.as_slice());
        let s = chars_of(sep);
        let s = trim(s.as_slice());
        !chars_end_with(v.as_slice(), s.as_slice())
    }

    /// Joins another command line to the left of the buffer.
    pub fn concat_left(&mut self, sep: &str, other: &str)
        ensures
            ({
                let t = old(self).text();
                if exec::blank(t) {
                    &&& final(self).text() == lines::lines_of(other@)
                    &&& *final(self) == (LineBuf { lines: final(self).lines, ..*old(self) })
                } else {
                    let l = left_part(t, sep@, other@);
                    &&& final(self).text() == lines::attached(l, kept_right(t))
                    &&& final(self).concat_points@ == seq![lines::seam(l)]
                        + old(self).concat_points@
                    &&& *final(self) == (LineBuf {
                        lines: final(self).lines,
                        concat_points: final(self).concat_points,
                        ..*old(self)
                    })
                }
            }),
    {
        let ghost t = self.text();
        assert(t.len() == self.lines@.len());
        if self.is_empty() {
            self.lines = to_lines(other);
            return;
        }
        let more: bool = self.needs_sep(sep);
        let mut new_lines = to_lines(other);
        let ghost n = lines::text(new_lines@);
        assert(n.len() == new_lines@.len());
        assert(t[0] == self.lines@[0]@);
        let first = self.lines[0].trim_start();
        replace_line(&mut self.lines, 0, first);
        let mut last = pop_line(&mut new_lines);
        if more {
            last.push_str(sep);
        }
        assert(last@ =~= n.last() + separator(t, sep@));
        let at = Pos { row: new_lines.len(), col: last.len() };
        push_line(&mut new_lines, last);
        let ghost l = left_part(t, sep@, other@);
        assert(lines::text(new_lines@) == l);
        assert(at == lines::seam(l));
        attach_lines(&mut new_lines, &mut self.lines);
        self.lines = new_lines;
        self.concat_points.push_front(at);
    }

    /// Joins another command line to the right of the buffer.
    pub fn concat_right(&mut self, sep: &str, other: &str)
        ensures
            ({
                let t = old(self).text();
                if exec::blank(t) {
                    &&& final(self).text() == lines::lines_of(other@)
                    &&& *final(self) == (LineBuf { lines: final(self).lines, ..*old(self) })
                } else {
                    let l = kept_left(t);
                    &&& final(self).text() == lines::attached(l, right_part(t, sep@, other@))
                    &&& final(self).concat_points@ == old(self).concat_points@.push(
                        lines::seam(l),
                    )
                    &&& *final(self) == (LineBuf {
                        lines: final(self).lines,
                        concat_points: final(self).concat_points,
                        ..*old(self)
                    })
                }
            }),
    {
        let ghost t = self.text();
        assert(t.len() == self.lines@.len());
        if self.is_empty() {
            self.lines = to_lines(other);
            return;
        }
        let more: bool = self.needs_sep(sep);
        let mut new_lines = to_lines(other);
        let ghost n = lines::text(new_lines@);
        assert(n.len() == new_lines@.len());
        let last = pop_line(&mut self.lines);
        let last = trim_line_end(last);
        let at = Pos { row: self.lines.len(), col: last.len() };
        push_line(&mut self.lines, last);
        assert(self.text() =~= kept_left(t));
        if more {
            assert(n[0] == new_lines@[0]@);
            let mut first = new_lines[0].clone();
            first.insert_str(0, sep);
            assert(first@ =~= unicode::clusters(sep@) + n[0]);
            replace_line(&mut new_lines, 0, first);
        } else {
            assert(separator(t, sep@) + n[0] =~= n[0]);
            assert(n =~= n.update(0, n[0]));
        }
        assert(lines::text(new_lines@) == right_part(t, sep@, other@));
        attach_lines(&mut self.lines, &mut new_lines);
        self.concat_points.push_back(at);
    }

    /// Takes the leftmost command line off again.
    pub fn pop_left(&mut self, view: Viewport) -> (r: bool)
        requires
            old(self).lines@.len() > 0,
        ensures
            r == (old(self).concat_points@.len() > 0),
            !r ==> *final(self) == *old(self),
            r ==> {
                let t = lines::after(old(self).text(), old(self).concat_points@[0]);
                &&& final(self).concat_points@ == old(self).concat_points@.skip(1)
                &&& popped(*old(self), *final(self), t, view)
            },
    {
        let ghost a = *self;
        let ghost t = self.text();
        assert(t.len() == self.lines@.len());
        if self.concat_points.len() == 0 {
            return false;
        }
        if let Some(p) = self.concat_points.pop_front() {
            let rest = split_lines_at(&mut self.lines, p);
            self.lines = rest;
            assert(self.text().len() > 0);
            assert(self.text().len() == self.lines@.len());
            self.fix_cursor(view);
            assert(self.concat_points@ =~= a.concat_points@.skip(1));
        }
        true
    }

    /// Takes the rightmost command line off again.
    pub fn pop_right(&mut self, view: Viewport) -> (r: bool)
        requires
            old(self).lines@.len() > 0,
        ensures
            r == (old(self).concat_points@.len() > 0),
            !r ==> *final(self) == *old(self),
            r ==> {
                let t = lines::before(old(self).text(), old(self).concat_points@.last());
                &&& final(self).concat_points@ == old(self).concat_points@.drop_last()
                &&& popped(*old(self), *final(self), t, view)
            },
    {
        let ghost a = *self;
        let ghost t = self.text();
        assert(t.len() == self.lines@.len());
        if self.concat_points.len() == 0 {
            return false;
        }
        if let Some(p) = self.concat_points.pop_back() {
            split_lines_at(&mut self.lines, p);
            assert(self.text().len() > 0);
            assert(self.text().len() == self.lines@.len());
            self.fix_cursor(view);
            assert(self.concat_points@ =~= a.concat_points@.drop_last());
        }
        true
    }

    /// Appends a string to the buffer.
    pub fn push_str(&mut self, s: &str)
        ensures
            final(self).text() == lines::attached(old(self).text(), lines::lines_of(s@)),
            *final(self) == (LineBuf { lines: final(self).lines, ..*old(self) }),
    {
        let mut l = to_lines(s);
        attach_lines(&mut self.lines, &mut l);
    }

    /// Appends a grapheme to the buffer.
    pub fn push(&mut self, g: Grapheme)
        ensures
            final(self).text() == lines::attached(old(self).text(), seq![seq![g@]]),
            *final(self) == (LineBuf { lines: final(self).lines, ..*old(self) }),
    {
        let mut l = Line::default();
        l.push(g);
        let mut v: Vec<Line> = Vec::new();
        push_line(&mut v, l);
        assert(l@ =~= seq![g@]);
        assert(lines::text(v@) =~= seq![seq![g@]]);
        attach_lines(&mut self.lines, &mut v);
    }
}

/// The buffer after a part was taken off, with what is left as its text.
pub open spec fn popped(a: LineBuf, b: LineBuf, t: Text, view: Viewport) -> bool {
    &&& b.text() == t
    &&& b.cursor == (Cursor {
        pos: buffer::fixed_pos(t, a.cursor),
        exclusive: a.cursor.exclusive,
    })
    &&& b.scroll_offset == buffer::scrolled(
        a.scroll_offset as int,
        b.cursor.pos.row as int,
        t.len() as int,
        buffer::shown_height(t, a.hinted(), view.height),
        view.scroll_offset as int,
    )
    &&& b == (LineBuf {
        lines: b.lines,
        cursor: b.cursor,
        scroll_offset: b.scroll_offset,
        concat_points: b.concat_points,
        ..a
    })
}

fn trim_line_end(l: Line) -> (r: Line)
    ensures
        r@ == line::trimmed_end(l@),
{
    let mut l = l;
    let ghost was = l@;
    while l.len() > 0 && l.at(l.len() - 1).is_ws()
        invariant
            line::trimmed_end(l@) == line::trimmed_end(was),
        decreases l@.len(),
    {
        let ghost b = l@;
        let n: usize = l.len();
        l.remove(n - 1);
        assert(l@ =~= b.drop_last());
    }
    l
}

} // verus!
