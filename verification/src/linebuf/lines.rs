//! Texts of several lines: splitting, joining, cutting out and putting in.

use crate::linebuf::line;
use crate::linebuf::line::same_line;
use crate::linebuf::line::Line;
use crate::linebuf::pos;
use crate::linebuf::pos::lesser;
use crate::linebuf::pos::Pos;
use crate::unicode;
use vstd::prelude::*;

verus! {

/// A text as its lines.
pub type Text = Seq<Seq<Seq<char>>>;

/// The text that some lines hold.
pub open spec fn text(lines: Seq<Line>) -> Text {
    Seq::new(lines.len(), |i: int| lines[i]@)
}

/// A position moved into a text: a row past the last one counts as the end of
/// the text, a column past the end of its line as that end.
pub open spec fn inside(t: Text, p: Pos) -> Pos {
    if p.row < t.len() {
        Pos { row: p.row, col: line::least(p.col as int, t[p.row as int].len() as int) as usize }
    } else if t.len() == 0 {
        Pos { row: 0, col: 0 }
    } else {
        Pos { row: (t.len() - 1) as usize, col: t.last().len() as usize }
    }
}

/// The text before a position.
pub open spec fn before(t: Text, p: Pos) -> Text {
    let q = inside(t, p);
    t.take(q.row as int).push(t[q.row as int].take(q.col as int))
}

/// The text from a position on.
pub open spec fn after(t: Text, p: Pos) -> Text {
    let q = inside(t, p);
    seq![t[q.row as int].skip(q.col as int)] + t.skip(q.row + 1)
}

/// Two texts one behind the other: the last line of the first and the first
/// line of the second become one line.
pub open spec fn attached(a: Text, b: Text) -> Text {
    if b.len() == 0 {
        a
    } else if a.len() == 0 {
        b
    } else {
        a.drop_last().push(a.last() + b[0]) + b.skip(1)
    }
}

/// A text with another put in at a position.
pub open spec fn inserted(t: Text, p: Pos, new: Text) -> Text {
    attached(attached(before(t, p), new), after(t, p))
}

/// The text between two positions.
pub open spec fn between(t: Text, s: Pos, e: Pos) -> Text {
    after(before(t, e), s)
}

/// A text without what stands between two positions.
pub open spec fn without(t: Text, s: Pos, e: Pos) -> Text {
    attached(before(t, s), after(t, e))
}

/// The characters of a text, with linefeeds between its lines.
pub open spec fn text_chars(t: Text) -> Seq<char>
    decreases t.len(),
{
    if t.len() == 0 {
        Seq::empty()
    } else if t.len() == 1 {
        unicode::joined(t[0])
    } else {
        text_chars(t.drop_last()).push('\n') + unicode::joined(t.last())
    }
}

/// The lengths of a text are those that memory can hold.
pub open spec fn fits(t: Text) -> bool {
    &&& t.len() <= usize::MAX
    &&& forall|i: int| 0 <= i < t.len() ==> (#[trigger] t[i]).len() <= usize::MAX
}

/// The text that a copy of the lines holds is the same.
pub fn clone_lines(lines: &Vec<Line>) -> (r: Vec<Line>)
    ensures
        text(r@) == text(lines@),
{
    let mut v: Vec<Line> = Vec::new();
    let mut i: usize = 0;
    while i < lines.len()
        invariant
            i <= lines@.len(),
            v@.len() == i,
            forall|j: int| 0 <= j < i ==> (#[trigger] v@[j])@ == lines@[j]@,
        decreases lines@.len() - i,
    {
        v.push(lines[i].clone());
        i = i + 1;
    }
    assert(text(v@) =~= text(lines@));
    v
}

/// Whether two lists of lines hold the same text.
pub fn same_lines(a: &Vec<Line>, b: &Vec<Line>) -> (r: bool)
    ensures
        r == (text(a@) == text(b@)),
{
    if a.len() != b.len() {
        assert(text(a@).len() != text(b@).len());
        return false;
    }
    let mut i: usize = 0;
    while i < a.len()
        invariant
            i <= a@.len(),
            a@.len() == b@.len(),
            forall|j: int| 0 <= j < i ==> (#[trigger] a@[j])@ == b@[j]@,
        decreases a@.len() - i,
    {
        if !same_line(&a[i], &b[i]) {
            assert(text(a@)[i as int] != text(b@)[i as int]);
            return false;
        }
        i = i + 1;
    }
    assert(text(a@) =~= text(b@));
    true
}

/// Moves a position into the text of some lines.
pub fn clamp_pos(lines: &Vec<Line>, p: Pos) -> (r: Pos)
    ensures
        r == inside(text(lines@), p),
        lines@.len() > 0 ==> r.row < lines@.len() && r.col <= lines@[r.row as int]@.len(),
{
    if p.row < lines.len() {
        assert(text(lines@)[p.row as int] == lines@[p.row as int]@);
        Pos { row: p.row, col: lesser(p.col, lines[p.row].len()) }
    } else if lines.len() == 0 {
        Pos { row: 0, col: 0 }
    } else {
        let row: usize = lines.len() - 1;
        assert(text(lines@).last() == lines@[row as int]@);
        Pos { row, col: lines[row].len() }
    }
}

/// Appends one line.
pub fn push_line(lines: &mut Vec<Line>, l: Line)
    ensures
        final(lines)@.len() == old(lines)@.len() + 1,
        text(final(lines)@) == text(old(lines)@).push(l@),
{
    let ghost was = lines@;
    lines.push(l);
    assert(text(lines@) =~= text(was).push(l@));
}

/// Takes off the last line.
pub fn pop_line(lines: &mut Vec<Line>) -> (r: Line)
    requires
        old(lines)@.len() > 0,
    ensures
        final(lines)@.len() == old(lines)@.len() - 1,
        text(final(lines)@) == text(old(lines)@).drop_last(),
        r@ == text(old(lines)@).last(),
{
    let ghost was = lines@;
    let r = lines.pop().unwrap();
    assert(text(lines@) =~= text(was).drop_last());
    r
}

/// Puts a line in at a row.
pub fn insert_line(lines: &mut Vec<Line>, at: usize, l: Line)
    requires
        at <= old(lines)@.len(),
    ensures
        final(lines)@.len() == old(lines)@.len() + 1,
        text(final(lines)@) == text(old(lines)@).insert(at as int, l@),
{
    let ghost was = lines@;
    lines.insert(at, l);
    assert(text(lines@) =~= text(was).insert(at as int, l@));
}

/// Takes out the line at a row.
pub fn remove_line(lines: &mut Vec<Line>, at: usize) -> (r: Line)
    requires
        at < old(lines)@.len(),
    ensures
        final(lines)@.len() == old(lines)@.len() - 1,
        text(final(lines)@) == text(old(lines)@).remove(at as int),
        r@ == text(old(lines)@)[at as int],
{
    let ghost was = lines@;
    let r = lines.remove(at);
    assert(text(lines@) =~= text(was).remove(at as int));
    r
}

/// Puts a line in the place of the one at a row.
pub fn replace_line(lines: &mut Vec<Line>, at: usize, l: Line)
    requires
        at < old(lines)@.len(),
    ensures
        final(lines)@.len() == old(lines)@.len(),
        text(final(lines)@) == text(old(lines)@).update(at as int, l@),
{
    let ghost was = lines@;
    lines.set(at, l);
    assert(text(lines@) =~= text(was).update(at as int, l@));
}

/// Takes the trailing empty lines off.
pub open spec fn without_trailing_empty(t: Text) -> Text
    decreases t.len(),
{
    if t.len() > 0 && t.last().len() == 0 {
        without_trailing_empty(t.drop_last())
    } else {
        t
    }
}

/// Takes the trailing empty lines off.
pub fn trim_lines(lines: &mut Vec<Line>)
    ensures
        text(final(lines)@) == without_trailing_empty(text(old(lines)@)),
{
    let ghost was = text(lines@);
    while lines.len() > 0 && lines[lines.len() - 1].is_empty()
        invariant
            without_trailing_empty(text(lines@)) == without_trailing_empty(was),
        decreases lines@.len(),
    {
        let ghost t = text(lines@);
        assert(t.last() == lines@[lines@.len() - 1]@);
        pop_line(lines);
    }
    proof {
        let t = text(lines@);
        if t.len() > 0 {
            assert(t.last() == lines@[lines@.len() - 1]@);
        }
    }
}

/// Cuts the lines at a position and gives back what stood behind it.
pub fn split_lines_at(lines: &mut Vec<Line>, p: Pos) -> (r: Vec<Line>)
    requires
        old(lines)@.len() > 0,
    ensures
        text(final(lines)@) == before(text(old(lines)@), p),
        text(r@) == after(text(old(lines)@), p),
{
    let ghost t = text(lines@);
    let q = clamp_pos(lines, p);
    let n: usize = lines.len();
    assert(q.row < n);
    let mut rest: Vec<Line> = lines.split_off(q.row + 1);
    let ghost mid = lines@;
    assert(text(mid) =~= t.take(q.row + 1));
    assert(text(rest@) =~= t.skip(q.row + 1));
    let mut head = pop_line(lines);
    assert(t.take(q.row + 1).drop_last() =~= t.take(q.row as int));
    assert(t.take(q.row + 1).last() == t[q.row as int]);
    let tail = head.split_off(q.col);
    push_line(lines, head);
    insert_line(&mut rest, 0, tail);
    assert(text(rest@) =~= after(t, p));
    assert(text(lines@) =~= before(t, p));
    rest
}

/// Cuts lines at a position into two texts.
pub fn split_lines(lines: Vec<Line>, p: Pos) -> (r: (Vec<Line>, Vec<Line>))
    requires
        lines@.len() > 0,
    ensures
        text(r.0@) == before(text(lines@), p),
        text(r.1@) == after(text(lines@), p),
{
    let mut left = lines;
    let right = split_lines_at(&mut left, p);
    (left, right)
}

/// Moves the lines of another text to the end of this one.
pub fn attach_lines(lines: &mut Vec<Line>, other: &mut Vec<Line>)
    ensures
        text(final(lines)@) == attached(text(old(lines)@), text(old(other)@)),
        text(final(other)@) == Seq::<Seq<Seq<char>>>::empty(),
{
    let ghost a = text(lines@);
    let ghost b = text(other@);
    if other.len() == 0 {
        assert(text(other@) =~= Seq::<Seq<Seq<char>>>::empty());
        return;
    }
    if lines.len() == 0 {
        lines.append(other);
        assert(text(lines@) =~= b);
        assert(text(other@) =~= Seq::<Seq<Seq<char>>>::empty());
        return;
    }
    let mut head = remove_line(other, 0);
    let mut tail = pop_line(lines);
    tail.append(&mut head);
    push_line(lines, tail);
    let ghost l = lines@;
    let ghost o = other@;
    lines.append(other);
    assert(text(o) =~= b.skip(1));
    assert(text(lines@) =~= text(l) + text(o));
    assert(text(other@) =~= Seq::<Seq<Seq<char>>>::empty());
}

/// Puts lines in at a position.
pub fn insert_lines(lines: &mut Vec<Line>, p: Pos, new: Vec<Line>)
    requires
        old(lines)@.len() > 0,
    ensures
        text(final(lines)@) == inserted(text(old(lines)@), p, text(new@)),
{
    let mut new = new;
    let mut rest = split_lines_at(lines, p);
    attach_lines(lines, &mut new);
    attach_lines(lines, &mut rest);
}

proof fn lemma_before_inside(t: Text, e: Pos, s: Pos)
    requires
        t.len() > 0,
        fits(t),
        !pos::pos_lt(e, s),
    ensures
        before(before(t, e), s) == before(t, s),
        fits(before(t, e)),
        before(t, e).len() > 0,
{
    let q = inside(t, e);
    let b = before(t, e);
    let p = inside(t, s);
    assert(b.len() == q.row + 1);
    assert(b.last() == t[q.row as int].take(q.col as int));
    assert forall|i: int| 0 <= i < b.len() implies (#[trigger] b[i]).len() <= usize::MAX by {
        if i < q.row {
            assert(b[i] == t[i]);
        }
    }
    assert(!pos::pos_lt(q, p));
    assert(inside(b, s) == p);
    if p.row < q.row {
        assert(b[p.row as int] == t[p.row as int]);
        assert(b.take(p.row as int) =~= t.take(p.row as int));
    } else {
        assert(b.take(p.row as int) =~= t.take(p.row as int));
        assert(b[p.row as int].take(p.col as int) =~= t[p.row as int].take(p.col as int));
    }
    assert(before(b, s) =~= before(t, s));
}

/// Takes out what stands between two positions, the first before the second,
/// and gives it back.
pub fn extract_range_contiguous(buf: &mut Vec<Line>, start: Pos, end: Pos) -> (r: Vec<Line>)
    requires
        old(buf)@.len() > 0,
        !pos::pos_lt(end, start),
    ensures
        text(final(buf)@) == without(text(old(buf)@), start, end),
        text(r@) == between(text(old(buf)@), start, end),
        final(buf)@.len() > 0,
{
    let ghost t = text(buf@);
    proof {
        assert(fits(t)) by {
            assert forall|i: int| 0 <= i < t.len() implies (#[trigger] t[i]).len() <= usize::MAX by {
                buf@[i].lemma_len_fits();
            }
            vstd::std_specs::vec::axiom_spec_len(buf);
        }
        lemma_before_inside(t, end, start);
    }
    let mut rest = split_lines_at(buf, end);
    let cut = split_lines_at(buf, start);
    attach_lines(buf, &mut rest);
    assert(text(buf@).len() == buf@.len());
    cut
}

/// The stretches of a string between its linefeeds.
pub open spec fn rows_of(s: Seq<char>) -> Seq<Seq<char>>
    decreases s.len(),
{
    if s.len() == 0 {
        seq![Seq::<char>::empty()]
    } else {
        let r = rows_of(s.drop_last());
        if s.last() == '\n' {
            r.push(Seq::<char>::empty())
        } else {
            r.update(r.len() - 1, r.last().push(s.last()))
        }
    }
}

/// The text of a string: its stretches between linefeeds, each cut into
/// graphemes.
pub open spec fn lines_of(s: Seq<char>) -> Text {
    Seq::new(rows_of(s).len(), |i: int| unicode::clusters(rows_of(s)[i]))
}

/// There is always at least one stretch.
pub proof fn lemma_rows_nonempty(s: Seq<char>)
    ensures
        rows_of(s).len() > 0,
    decreases s.len(),
{
    if s.len() > 0 {
        lemma_rows_nonempty(s.drop_last());
    }
}

/// The linefeeds of two strings one behind the other add up.
pub proof fn lemma_rows_add(a: Seq<char>, b: Seq<char>)
    ensures
        rows_of(a + b).len() == rows_of(a).len() + rows_of(b).len() - 1,
    decreases b.len(),
{
    lemma_rows_nonempty(a);
    if b.len() == 0 {
        assert(a + b =~= a);
    } else {
        lemma_rows_nonempty(b.drop_last());
        assert((a + b).drop_last() =~= a + b.drop_last());
        assert((a + b).last() == b.last());
        lemma_rows_add(a, b.drop_last());
    }
}

/// How many of some pieces are a linefeed.
pub open spec fn linefeeds(pieces: Seq<Seq<char>>) -> nat
    decreases pieces.len(),
{
    if pieces.len() == 0 {
        0
    } else {
        linefeeds(pieces.drop_last()) + (if pieces.last() == seq!['\n'] {
            1nat
        } else {
            0
        })
    }
}

/// A string has at least as many linefeeds as pieces that are one.
pub proof fn lemma_linefeeds(pieces: Seq<Seq<char>>)
    ensures
        linefeeds(pieces) < rows_of(unicode::joined(pieces)).len(),
    decreases pieces.len(),
{
    if pieces.len() == 0 {
        lemma_rows_nonempty(unicode::joined(pieces));
    } else {
        let init = unicode::joined(pieces.drop_last());
        lemma_linefeeds(pieces.drop_last());
        lemma_rows_add(init, pieces.last());
        lemma_rows_nonempty(pieces.last());
        if pieces.last() == seq!['\n'] {
            assert(pieces.last().drop_last() =~= Seq::<char>::empty());
            assert(rows_of(seq!['\n'].drop_last()).len() == 1);
            assert(rows_of(pieces.last()).len() == 2);
        }
    }
}

/// Part of the pieces holds no more linefeeds than all.
pub proof fn lemma_linefeeds_part(pieces: Seq<Seq<char>>, k: int)
    requires
        0 <= k <= pieces.len(),
    ensures
        linefeeds(pieces.take(k)) <= linefeeds(pieces),
    decreases pieces.len() - k,
{
    if k < pieces.len() {
        lemma_linefeeds_part(pieces, k + 1);
        assert(pieces.take(k + 1).drop_last() =~= pieces.take(k));
    } else {
        assert(pieces.take(k) =~= pieces);
    }
}

/// A string without linefeeds is one stretch.
pub proof fn lemma_one_row(s: Seq<char>)
    requires
        forall|i: int| 0 <= i < s.len() ==> s[i] != '\n',
    ensures
        rows_of(s).len() == 1,
    decreases s.len(),
{
    if s.len() > 0 {
        lemma_one_row(s.drop_last());
    }
}

/// Stretches put together again with linefeeds between them.
pub open spec fn rows_joined(rows: Seq<Seq<char>>) -> Seq<char>
    decreases rows.len(),
{
    if rows.len() == 0 {
        Seq::empty()
    } else if rows.len() == 1 {
        rows[0]
    } else {
        rows_joined(rows.drop_last()).push('\n') + rows.last()
    }
}

/// Cutting a string at its linefeeds and joining the stretches gives it back.
pub proof fn rows_join_back(s: Seq<char>)
    ensures
        rows_joined(rows_of(s)) == s,
    decreases s.len(),
{
    lemma_rows_nonempty(s);
    if s.len() > 0 {
        let init = s.drop_last();
        let r = rows_of(init);
        rows_join_back(init);
        lemma_rows_nonempty(init);
        let full = rows_of(s);
        if s.last() == '\n' {
            assert(full.drop_last() =~= r);
            assert(full.len() >= 2);
            assert(rows_joined(full) =~= init.push('\n'));
        } else if r.len() == 1 {
            assert(rows_joined(full) =~= r[0].push(s.last()));
        } else {
            assert(full.drop_last() =~= r.drop_last());
            assert(full.last() =~= r.last().push(s.last()));
            assert(rows_joined(full) =~= rows_joined(r).push(s.last()));
        }
        assert(init.push(s.last()) =~= s);
    } else {
        assert(rows_joined(rows_of(s)) =~= s);
    }
}

/// The characters of a text are those of its rows, with linefeeds between.
pub proof fn lemma_text_chars(t: Text, rows: Seq<Seq<char>>)
    requires
        t.len() == rows.len(),
        forall|i: int| 0 <= i < t.len() ==> unicode::joined(#[trigger] t[i]) == rows[i],
    ensures
        text_chars(t) == rows_joined(rows),
    decreases t.len(),
{
    if t.len() > 1 {
        lemma_text_chars(t.drop_last(), rows.drop_last());
    }
}

/// The text of a string.
pub fn to_lines(s: &str) -> (r: Vec<Line>)
    ensures
        text(r@) == lines_of(s@),
        text_chars(text(r@)) == s@,
        r@.len() > 0,
{
    let v = crate::text::chars_of(s);
    let mut done: Vec<Line> = Vec::new();
    let ghost mut rows: Seq<Seq<char>> = Seq::empty();
    let mut cur: String = String::new();
    let mut i: usize = 0;
    assert(rows_of(v@.take(0)) =~= rows.push(cur@));
    while i < v.len()
        invariant
            i <= v@.len(),
            rows_of(v@.take(i as int)) == rows.push(cur@),
            rows.len() == done@.len(),
            forall|j: int|
                0 <= j < rows.len() ==> (#[trigger] done@[j])@ == unicode::clusters(rows[j])
                    && unicode::joined(done@[j]@) == rows[j],
        decreases v@.len() - i,
    {
        let c = v[i];
        assert(v@.take(i + 1).drop_last() =~= v@.take(i as int));
        if c == '\n' {
            let l = Line::from_text(cur.as_str());
            done.push(l);
            proof {
                rows = rows.push(cur@);
            }
            cur = String::new();
        } else {
            cur.push(c);
            assert(rows_of(v@.take(i + 1)) =~= rows.push(cur@));
        }
        i = i + 1;
    }
    assert(v@.take(i as int) =~= s@);
    let l = Line::from_text(cur.as_str());
    done.push(l);
    proof {
        rows = rows.push(cur@);
        assert(text(done@) =~= lines_of(s@));
        rows_join_back(s@);
        lemma_text_chars(text(done@), rows);
    }
    done
}

/// The stretches of a text between its linefeeds.
pub fn split_rows(s: &str) -> (r: Vec<String>)
    ensures
        r@.len() == rows_of(s@).len(),
        forall|i: int| 0 <= i < r@.len() ==> (#[trigger] r@[i])@ == rows_of(s@)[i],
        r@.len() > 0,
{
    let v = crate::text::chars_of(s);
    let mut out: Vec<String> = Vec::new();
    let mut cur: String = String::new();
    let mut i: usize = 0;
    assert(cur@ =~= Seq::empty());
    assert(v@.take(0) =~= Seq::<char>::empty());
    while i < v.len()
        invariant
            i <= v@.len(),
            out@.len() + 1 == rows_of(v@.take(i as int)).len(),
            cur@ == rows_of(v@.take(i as int)).last(),
            forall|k: int|
                0 <= k < out@.len() ==> (#[trigger] out@[k])@ == rows_of(v@.take(i as int))[k],
        decreases v@.len() - i,
    {
        assert(v@.take(i + 1).drop_last() =~= v@.take(i as int));
        if v[i] == '\n' {
            out.push(cur);
            cur = String::new();
            assert(cur@ =~= Seq::empty());
        } else {
            cur.push(v[i]);
        }
        i = i + 1;
    }
    assert(v@.take(i as int) =~= v@);
    out.push(cur);
    out
}

/// The characters of some lines, with linefeeds between them.
pub fn join_lines(lines: &[Line]) -> (r: String)
    ensures
        r@ == text_chars(text(lines@)),
{
    let mut out: String = String::new();
    let mut i: usize = 0;
    while i < lines.len()
        invariant
            i <= lines@.len(),
            out@ == text_chars(text(lines@).take(i as int)),
        decreases lines@.len() - i,
    {
        if i > 0 {
            out.push('\n');
        }
        let l = lines[i].to_string();
        out.push_str(l.as_str());
        assert(text(lines@).take(i + 1).drop_last() =~= text(lines@).take(i as int));
        assert(text(lines@).take(i + 1).last() == lines@[i as int]@);
        assert(out@ =~= text_chars(text(lines@).take(i + 1)));
        i = i + 1;
    }
    assert(text(lines@).take(i as int) =~= text(lines@));
    out
}

/// Cutting a text at a position and putting the parts together gives the text.
pub proof fn split_then_attach(t: Text, p: Pos)
    requires
        t.len() > 0,
        fits(t),
    ensures
        attached(before(t, p), after(t, p)) == t,
{
    let q = inside(t, p);
    let row = t[q.row as int];
    assert(before(t, p).drop_last() =~= t.take(q.row as int));
    assert(before(t, p).last() == row.take(q.col as int));
    assert(row.take(q.col as int) + row.skip(q.col as int) =~= row);
    assert(after(t, p).skip(1) =~= t.skip(q.row + 1));
    assert(attached(before(t, p), after(t, p)) =~= t);
}

/// Where a text was put together, cutting it there gives the parts back.
pub proof fn attach_then_split(a: Text, b: Text)
    requires
        a.len() > 0,
        b.len() > 0,
        a.len() <= usize::MAX,
        a.last().len() <= usize::MAX,
    ensures
        before(attached(a, b), seam(a)) == a,
        after(attached(a, b), seam(a)) == b,
{
    let t = attached(a, b);
    let p = seam(a);
    assert(t[p.row as int] == a.last() + b[0]);
    assert(inside(t, p) == p);
    assert(t.take(p.row as int) =~= a.drop_last());
    assert((a.last() + b[0]).take(p.col as int) =~= a.last());
    assert((a.last() + b[0]).skip(p.col as int) =~= b[0]);
    assert(before(t, p) =~= a);
    assert(t.skip(p.row + 1) =~= b.skip(1));
    assert(after(t, p) =~= b);
}

/// The place where something attached to a text begins.
pub open spec fn seam(a: Text) -> Pos {
    Pos { row: (a.len() - 1) as usize, col: a.last().len() as usize }
}

/// Attaching is associative.
pub proof fn lemma_attach_assoc(a: Text, b: Text, c: Text)
    ensures
        attached(attached(a, b), c) == attached(a, attached(b, c)),
{
    if a.len() > 0 && b.len() > 0 && c.len() > 0 {
        let l = attached(attached(a, b), c);
        let r = attached(a, attached(b, c));
        let ab = attached(a, b);
        let bc = attached(b, c);
        if b.len() == 1 {
            assert(b.skip(1) =~= Seq::<Seq<Seq<char>>>::empty());
            assert(ab =~= a.drop_last().push(a.last() + b[0]));
            assert(ab.drop_last() =~= a.drop_last());
            assert(bc =~= seq![b[0] + c[0]] + c.skip(1));
            assert(bc.skip(1) =~= c.skip(1));
            assert((a.last() + b[0]) + c[0] =~= a.last() + (b[0] + c[0]));
            assert(l =~= r);
        } else {
            assert(ab.last() == b.last());
            assert(ab.drop_last() =~= a.drop_last().push(a.last() + b[0]) + b.skip(1).drop_last());
            assert(bc[0] == b[0]);
            assert(bc.skip(1) =~= b.skip(1).drop_last().push(b.last() + c[0]) + c.skip(1));
            assert(l =~= r);
        }
    }
}

/// Taking a stretch out of a text and putting it in again where it began gives
/// the text back.
pub proof fn extract_then_insert(t: Text, s: Pos, e: Pos)
    requires
        t.len() > 0,
        fits(t),
        !pos::pos_lt(e, s),
    ensures
        inserted(without(t, s, e), inside(t, s), between(t, s, e)) == t,
{
    let l = before(t, s);
    let m = between(t, s, e);
    let r = after(t, e);
    lemma_before_inside(t, e, s);
    split_then_attach(before(t, e), s);
    split_then_attach(t, e);
    assert(attached(l, m) == before(t, e));
    let q = inside(t, s);
    assert(l.last() == t[q.row as int].take(q.col as int));
    assert(seam(l) == q);
    attach_then_split(l, r);
    assert(attached(attached(l, m), r) == t);
}

/// Putting a stretch into a text and taking it out again gives the text back.
pub proof fn insert_then_extract(t: Text, p: Pos, new: Text)
    requires
        t.len() > 0,
        fits(t),
        new.len() > 0,
        fits(attached(before(t, p), new)),
    ensures
        without(inserted(t, p, new), inside(t, p), seam(attached(before(t, p), new))) == t,
        between(inserted(t, p, new), inside(t, p), seam(attached(before(t, p), new))) == new,
{
    let l = before(t, p);
    let r = after(t, p);
    let ln = attached(l, new);
    let q = inside(t, p);
    assert(l.last() == t[q.row as int].take(q.col as int));
    assert(seam(l) == q);
    attach_then_split(ln, r);
    attach_then_split(l, new);
    lemma_attach_assoc(l, new, r);
    attach_then_split(l, attached(new, r));
    split_then_attach(t, p);
}

/// The places that a text has: its graphemes and the linefeeds between lines.
pub open spec fn places(t: Text) -> nat
    decreases t.len(),
{
    if t.len() == 0 {
        0
    } else {
        places(t.drop_last()) + t.last().len() + 1
    }
}

/// The graphemes of a text.
pub open spec fn count(t: Text) -> nat
    decreases t.len(),
{
    if t.len() == 0 {
        0
    } else {
        count(t.drop_last()) + t.last().len()
    }
}

/// How many places stand before a position.
pub open spec fn flat(t: Text, p: Pos) -> nat {
    let q = inside(t, p);
    places(t.take(q.row as int)) + q.col as nat
}

/// Whether a position is a place of the text.
pub open spec fn valid(t: Text, p: Pos) -> bool {
    p.row < t.len() && p.col <= t[p.row as int].len()
}

} // verus!
