//! What the verbs do to a text: taking spans out, changing the case of what
//! they cover, breaking lines, typing, indenting, joining.

use crate::linebuf::buffer;
use crate::linebuf::line;
use crate::linebuf::line::Grapheme;
use crate::linebuf::line::Line;
use crate::linebuf::line::Row;
use crate::linebuf::lines;
use crate::linebuf::lines::clamp_pos;
use crate::linebuf::lines::clone_lines;
use crate::linebuf::lines::extract_range_contiguous;
use crate::linebuf::lines::insert_line;
use crate::linebuf::lines::push_line;
use crate::linebuf::lines::remove_line;
use crate::linebuf::lines::replace_line;
use crate::linebuf::lines::Text;
use crate::linebuf::pos;
use crate::linebuf::pos::lesser;
use crate::linebuf::pos::ordered_pos;
use crate::linebuf::pos::rot13_char;
use crate::linebuf::pos::toggle_case_char;
use crate::linebuf::pos::MotionKind;
use crate::linebuf::pos::Pos;
use crate::linebuf::scan;
use crate::linebuf::scan::step_right;
use crate::unicode;
use crate::unicode::ascii_lowered;
use crate::unicode::ascii_uppered;
use crate::unicode::is_ascii_alpha;
use vstd::prelude::*;

verus! {

/// The row behind the last one of a span of whole lines.
pub open spec fn rows_end(end: usize, inclusive: bool) -> int {
    if inclusive {
        end + 1
    } else if end == 0 {
        1
    } else {
        end as int
    }
}

/// The larger of two indices.
pub open spec fn greatest(a: int, b: int) -> int {
    if a >= b {
        a
    } else {
        b
    }
}

/// The rows of a text that a span of whole lines covers.
pub open spec fn row_bounds(t: Text, start: usize, end: usize, inclusive: bool) -> (int, int) {
    let a = line::least(start as int, t.len() as int);
    (a, line::least(greatest(rows_end(end, inclusive), a), t.len() as int))
}

/// The columns of a line that a block covers.
pub open spec fn block_cols(row: Row, from: usize, to: usize) -> (int, int) {
    let a = line::least(from as int, row.len() as int);
    (a, greatest(line::least(to + 1, row.len() as int), a))
}

/// A text without what a span covers, and what the span covers.
pub open spec fn taken(t: Text, m: MotionKind) -> (Text, Text) {
    match m {
        MotionKind::Char { start, end, inclusive } => {
            let s = pos::pos_min(start, end);
            let e = pos::pos_max(start, end);
            let e = if inclusive {
                scan::next_col(e)
            } else {
                e
            };
            (lines::without(t, s, e), lines::between(t, s, e))
        },
        MotionKind::Line { start, end, inclusive } => {
            let (a, b) = row_bounds(t, start, end, inclusive);
            (buffer::fixed_text(t.take(a) + t.skip(b)), t.subrange(a, b))
        },
        MotionKind::Block { start, end } => {
            let s = pos::pos_min(start, end);
            let e = pos::pos_max(start, end);
            let lo = line::least(s.row as int, t.len() as int);
            let hi = line::least(e.row + 1, t.len() as int);
            (
                Seq::new(
                    t.len(),
                    |r: int|
                        if lo <= r < hi {
                            let (a, b) = block_cols(t[r], s.col, e.col);
                            t[r].take(a) + t[r].skip(b)
                        } else {
                            t[r]
                        },
                ),
                Seq::new(
                    (hi - lo) as nat,
                    |i: int|
                        {
                            let (a, b) = block_cols(t[lo + i], s.col, e.col);
                            t[lo + i].subrange(a, b)
                        },
                ),
            )
        },
    }
}

/// Takes the graphemes between two columns out of a line.
fn cut_cols(l: &mut Line, from: usize, to: usize) -> (r: Line)
    ensures
        r@ == ({
            let (a, b) = block_cols(old(l)@, from, to);
            old(l)@.subrange(a, b)
        }),
        final(l)@ == ({
            let (a, b) = block_cols(old(l)@, from, to);
            old(l)@.take(a) + old(l)@.skip(b)
        }),
{
    let ghost row = l@;
    let n: usize = l.len();
    let a: usize = lesser(from, n);
    let e: usize = if to < n {
        to + 1
    } else {
        n
    };
    let b: usize = if e > a {
        e
    } else {
        a
    };
    let mut rest = l.split_off(b);
    let mid = l.split_off(a);
    assert(mid@ =~= row.subrange(a as int, b as int));
    assert(l@ =~= row.take(a as int));
    l.append(&mut rest);
    mid
}

/// Takes what a span covers out of some lines and gives it back.
pub fn extract_range(buf: &mut Vec<Line>, m: &MotionKind) -> (r: Vec<Line>)
    requires
        old(buf)@.len() > 0,
    ensures
        lines::text(final(buf)@) == taken(lines::text(old(buf)@), *m).0,
        lines::text(r@) == taken(lines::text(old(buf)@), *m).1,
        final(buf)@.len() > 0,
{
    let ghost t = lines::text(buf@);
    assert(t.len() == buf@.len());
    match m {
        MotionKind::Char { start, end, inclusive } => {
            let (s, e) = ordered_pos(*start, *end);
            let e = if *inclusive {
                step_right(e)
            } else {
                e
            };
            extract_range_contiguous(buf, s, e)
        },
        MotionKind::Line { start, end, inclusive } => {
            let n: usize = buf.len();
            let a: usize = lesser(*start, n);
            let e: usize = if *inclusive {
                if *end < n {
                    *end + 1
                } else {
                    n
                }
            } else if *end == 0 {
                1
            } else {
                lesser(*end, n)
            };
            let b: usize = if e > a {
                e
            } else {
                a
            };
            let mut rest = buf.split_off(b);
            let mid = buf.split_off(a);
            assert(lines::text(rest@) =~= t.skip(b as int));
            assert(lines::text(mid@) =~= t.subrange(a as int, b as int));
            assert(lines::text(buf@) =~= t.take(a as int));
            buf.append(&mut rest);
            assert(lines::text(buf@) =~= t.take(a as int) + t.skip(b as int));
            assert(lines::text(buf@).len() == buf@.len());
            if buf.len() == 0 {
                push_line(buf, Line::default());
                assert(lines::text(buf@) =~= seq![Seq::<Seq<char>>::empty()]);
            }
            mid
        },
        MotionKind::Block { start, end } => {
            let (s, e) = ordered_pos(*start, *end);
            let n: usize = buf.len();
            let lo: usize = lesser(s.row, n);
            let hi: usize = if e.row < n {
                e.row + 1
            } else {
                n
            };
            let ghost full = taken(t, *m);
            let mut out: Vec<Line> = Vec::new();
            let mut r: usize = lo;
            assert(lines::text(out@) =~= full.1.take(0));
            while r < hi
                invariant
                    lo <= r <= hi <= n,
                    n == buf@.len(),
                    t.len() == n,
                    *m == (MotionKind::Block { start: *start, end: *end }),
                    s == pos::pos_min(*start, *end),
                    e == pos::pos_max(*start, *end),
                    lo == line::least(s.row as int, t.len() as int),
                    hi == line::least(e.row + 1, t.len() as int),
                    full == taken(t, *m),
                    lines::text(out@) == full.1.take(r - lo),
                    forall|i: int|
                        0 <= i < n ==> (#[trigger] lines::text(buf@)[i]) == (if i < r {
                            full.0[i]
                        } else {
                            t[i]
                        }),
                decreases hi - r,
            {
                let ghost was = lines::text(buf@);
                assert(was[r as int] == buf@[r as int]@);
                let mut l = buf[r].clone();
                let cut = cut_cols(&mut l, s.col, e.col);
                push_line(&mut out, cut);
                replace_line(buf, r, l);
                r = r + 1;
                assert(lines::text(out@) =~= full.1.take(r - lo));
            }
            assert(full.1.take(r - lo) =~= full.1);
            assert(lines::text(buf@) =~= full.0);
            out
        },
    }
}

/// What a span covers, as a copy.
pub fn yank_range(buf: &Vec<Line>, m: &MotionKind) -> (r: Vec<Line>)
    requires
        buf@.len() > 0,
    ensures
        lines::text(r@) == taken(lines::text(buf@), *m).1,
{
    let mut copy = clone_lines(buf);
    assert(lines::text(copy@).len() == copy@.len());
    assert(lines::text(buf@).len() == buf@.len());
    extract_range(&mut copy, m)
}

/// A change of single characters.
#[derive(Debug, Clone, Copy, PartialEq, Eq, Structural)]
pub enum Recase {
    Rot13,
    Replace(char),
    Toggle,
    Lower,
    Upper,
}

/// A grapheme changed. Only a replacement touches graphemes of more than one
/// character.
pub open spec fn recast(g: Seq<char>, how: Recase) -> Seq<char> {
    match how {
        Recase::Replace(c) => seq![c],
        _ => if g.len() != 1 {
            g
        } else {
            seq![
                match how {
                    Recase::Rot13 => pos::rotated(g[0]),
                    Recase::Toggle => pos::toggled(g[0]),
                    Recase::Lower => unicode::to_lower_ascii(g[0]),
                    Recase::Upper => unicode::to_upper_ascii(g[0]),
                    Recase::Replace(c) => c,
                },
            ]
        },
    }
}

/// Changes a grapheme.
pub fn recast_gr(g: &Grapheme, how: Recase) -> (r: Grapheme)
    ensures
        r@ == recast(g@, how),
{
    match (g.as_char(), how) {
        (_, Recase::Replace(c)) => Grapheme::from_char(c),
        (None, _) => g.clone(),
        (Some(c), Recase::Rot13) => Grapheme::from_char(rot13_char(c)),
        (Some(c), Recase::Toggle) => Grapheme::from_char(toggle_case_char(c)),
        (Some(c), Recase::Lower) => Grapheme::from_char(ascii_lowered(c)),
        (Some(c), Recase::Upper) => Grapheme::from_char(ascii_uppered(c)),
    }
}

/// Whether a span covers a place. Blocks are not covered.
pub open spec fn covers(m: MotionKind, row: int, col: int) -> bool {
    match m {
        MotionKind::Char { start, end, inclusive } => {
            let s = pos::pos_min(start, end);
            let e = pos::pos_max(start, end);
            &&& (s.row < row || (s.row == row && s.col <= col))
            &&& (row < e.row || (row == e.row && (col < e.col || (inclusive && col == e.col))))
        },
        MotionKind::Line { start, end, inclusive } => start <= row < rows_end(end, inclusive),
        MotionKind::Block { start, end } => false,
    }
}

fn is_covered(m: &MotionKind, row: usize, col: usize) -> (r: bool)
    ensures
        r == covers(*m, row as int, col as int),
{
    match m {
        MotionKind::Char { start, end, inclusive } => {
            let (s, e) = ordered_pos(*start, *end);
            (s.row < row || (s.row == row && s.col <= col)) && (row < e.row || (row == e.row && (col
                < e.col || (*inclusive && col == e.col))))
        },
        MotionKind::Line { start, end, inclusive } => *start <= row && (if *inclusive {
            row <= *end
        } else if *end == 0 {
            row == 0
        } else {
            row < *end
        }),
        MotionKind::Block { start, end } => false,
    }
}

/// A line changed where a span covers it.
pub open spec fn recast_row(row: Row, r: int, m: MotionKind, how: Recase) -> Row {
    Seq::new(
        row.len(),
        |c: int|
            if covers(m, r, c) {
                recast(row[c], how)
            } else {
                row[c]
            },
    )
}

/// A text changed where a span covers it.
pub open spec fn recast_text(t: Text, m: MotionKind, how: Recase) -> Text {
    Seq::new(t.len(), |r: int| recast_row(t[r], r, m, how))
}

/// Changes the graphemes that a span covers.
pub fn motion_mutation(buf: &mut Vec<Line>, m: &MotionKind, how: Recase)
    ensures
        lines::text(final(buf)@) == recast_text(lines::text(old(buf)@), *m, how),
        final(buf)@.len() == old(buf)@.len(),
{
    let ghost t = lines::text(buf@);
    let n: usize = buf.len();
    let mut r: usize = 0;
    while r < n
        invariant
            r <= n,
            n == buf@.len(),
            t.len() == n,
            forall|i: int|
                0 <= i < n ==> (#[trigger] lines::text(buf@)[i]) == (if i < r {
                    recast_row(t[i], i, *m, how)
                } else {
                    t[i]
                }),
        decreases n - r,
    {
        let ghost was = lines::text(buf@);
        assert(was[r as int] == buf@[r as int]@);
        let mut l = buf[r].clone();
        let ghost row = l@;
        let k: usize = l.len();
        let mut c: usize = 0;
        while c < k
            invariant
                c <= k,
                k == row.len(),
                l@.len() == k,
                forall|j: int|
                    0 <= j < k ==> (#[trigger] l@[j]) == (if j < c {
                        recast_row(row, r as int, *m, how)[j]
                    } else {
                        row[j]
                    }),
            decreases k - c,
        {
            if is_covered(m, r, c) {
                let g = recast_gr(l.at(c), how);
                l.replace_at(c, g);
            }
            c = c + 1;
        }
        assert(l@ =~= recast_row(row, r as int, *m, how));
        replace_line(buf, r, l);
        r = r + 1;
    }
    assert(lines::text(buf@) =~= recast_text(t, *m, how));
}

/// A grapheme that is a single ASCII letter.
pub open spec fn is_letter(g: Seq<char>) -> bool {
    g.len() == 1 && unicode::ascii_alpha(g[0])
}

/// Whether a span covers a letter of a row before a column.
pub open spec fn letter_before(row: Row, r: int, m: MotionKind, col: int) -> bool {
    exists|c: int| 0 <= c < col && covers(m, r, c) && is_letter(#[trigger] row[c])
}

/// Whether a span covers a letter above a row.
pub open spec fn letter_above(t: Text, m: MotionKind, r: int) -> bool {
    exists|q: int| 0 <= q < r && #[trigger] letter_before(t[q], q, m, t[q].len() as int)
}

/// A line with the first letter that a span covers in upper case and the
/// others in lower case; `seen` if the first was met before.
pub open spec fn capital_row(row: Row, r: int, m: MotionKind, seen: bool) -> Row {
    Seq::new(
        row.len(),
        |c: int|
            if covers(m, r, c) && is_letter(row[c]) {
                recast(
                    row[c],
                    if seen || letter_before(row, r, m, c) {
                        Recase::Lower
                    } else {
                        Recase::Upper
                    },
                )
            } else {
                row[c]
            },
    )
}

/// A text with the first letter that a span covers in upper case and the
/// others in lower case.
pub open spec fn capitalized(t: Text, m: MotionKind) -> Text {
    Seq::new(t.len(), |r: int| capital_row(t[r], r, m, letter_above(t, m, r)))
}

/// Puts the first letter that a span covers in upper case and the others in
/// lower case.
pub fn capitalize(buf: &mut Vec<Line>, m: &MotionKind)
    ensures
        lines::text(final(buf)@) == capitalized(lines::text(old(buf)@), *m),
        final(buf)@.len() == old(buf)@.len(),
{
    let ghost t = lines::text(buf@);
    let n: usize = buf.len();
    let mut r: usize = 0;
    let mut seen: bool = false;
    while r < n
        invariant
            r <= n,
            n == buf@.len(),
            t.len() == n,
            seen == letter_above(t, *m, r as int),
            forall|i: int|
                0 <= i < n ==> (#[trigger] lines::text(buf@)[i]) == (if i < r {
                    capital_row(t[i], i, *m, letter_above(t, *m, i))
                } else {
                    t[i]
                }),
        decreases n - r,
    {
        let ghost was = lines::text(buf@);
        assert(was[r as int] == buf@[r as int]@);
        let mut l = buf[r].clone();
        let ghost row = l@;
        assert(row == t[r as int]);
        let ghost above = seen;
        let k: usize = l.len();
        let mut c: usize = 0;
        while c < k
            invariant
                c <= k,
                k == row.len(),
                l@.len() == k,
                seen == (above || letter_before(row, r as int, *m, c as int)),
                forall|j: int|
                    0 <= j < k ==> (#[trigger] l@[j]) == (if j < c {
                        capital_row(row, r as int, *m, above)[j]
                    } else {
                        row[j]
                    }),
            decreases k - c,
        {
            let alpha: bool = match l.at(c).as_char() {
                Some(ch) => is_ascii_alpha(ch),
                None => false,
            };
            assert(alpha == is_letter(row[c as int]));
            if is_covered(m, r, c) && alpha {
                let g = recast_gr(
                    l.at(c),
                    if seen {
                        Recase::Lower
                    } else {
                        Recase::Upper
                    },
                );
                l.replace_at(c, g);
                seen = true;
                assert(is_letter(row[c as int]) && covers(*m, r as int, c as int));
            }
            c = c + 1;
        }
        assert(l@ =~= capital_row(row, r as int, *m, above));
        replace_line(buf, r, l);
        proof {
            if letter_before(row, r as int, *m, k as int) {
                assert(letter_before(t[r as int], r as int, *m, t[r as int].len() as int));
            }
        }
        r = r + 1;
    }
    assert(lines::text(buf@) =~= capitalized(t, *m));
}

/// Some tabs.
pub open spec fn tabs(n: nat) -> Row {
    Seq::new(n, |i: int| seq!['\t'])
}

/// Puts tabs before a line.
pub fn indent_line(l: &mut Line, n: usize)
    ensures
        final(l)@ == tabs(n as nat) + old(l)@,
{
    let ghost row = l@;
    let mut i: usize = 0;
    assert(l@ =~= tabs(0) + row);
    while i < n
        invariant
            i <= n,
            l@ == tabs(i as nat) + row,
        decreases n - i,
    {
        l.insert_char(0, '\t');
        i = i + 1;
        assert(l@ =~= tabs(i as nat) + row);
    }
}

/// A line without up to `n` of the tabs before it.
pub open spec fn untabbed(row: Row, n: nat) -> Row
    decreases n,
{
    if n > 0 && row.len() > 0 && row[0] == seq!['\t'] {
        untabbed(row.skip(1), (n - 1) as nat)
    } else {
        row
    }
}

/// A line without the tabs before it.
pub open spec fn all_untabbed(row: Row) -> Row
    decreases row.len(),
{
    if row.len() > 0 && row[0] == seq!['\t'] {
        all_untabbed(row.skip(1))
    } else {
        row
    }
}

/// Takes up to `n` tabs from before a line.
pub fn dedent_line(l: &mut Line, n: usize)
    ensures
        final(l)@ == untabbed(old(l)@, n as nat),
{
    let ghost row = l@;
    let mut i: usize = n;
    while i > 0 && l.len() > 0 && l.at(0).is_char('\t')
        invariant
            i <= n,
            untabbed(row, n as nat) == untabbed(l@, i as nat),
        decreases i,
    {
        let ghost was = l@;
        l.remove(0);
        assert(l@ =~= was.skip(1));
        i = i - 1;
    }
}

/// Takes the tabs from before a line.
pub fn dedent_fully(l: &mut Line)
    ensures
        final(l)@ == all_untabbed(old(l)@),
{
    let ghost row = l@;
    while l.len() > 0 && l.at(0).is_char('\t')
        invariant
            all_untabbed(row) == all_untabbed(l@),
        decreases l@.len(),
    {
        let ghost was = l@;
        l.remove(0);
        assert(l@ =~= was.skip(1));
    }
}

/// A text broken at a position, the new line indented; and where the cursor
/// then is.
pub open spec fn broken(t: Text, p: Pos, level: usize) -> (Text, Pos) {
    let q = lines::inside(t, p);
    let row = t[q.row as int];
    (
        t.take(q.row as int).push(row.take(q.col as int)).push(
            tabs(level as nat) + row.skip(q.col as int),
        ) + t.skip(q.row + 1),
        Pos { row: (q.row + 1) as usize, col: level },
    )
}

/// Breaks the line at a position and indents the new line.
pub fn break_line_at(buf: &mut Vec<Line>, p: Pos, level: usize) -> (r: Pos)
    requires
        old(buf)@.len() > 0,
        old(buf)@.len() < usize::MAX,
    ensures
        (lines::text(final(buf)@), r) == broken(lines::text(old(buf)@), p, level),
        final(buf)@.len() == old(buf)@.len() + 1,
{
    let ghost t = lines::text(buf@);
    let q = clamp_pos(buf, p);
    let ghost row = t[q.row as int];
    assert(row == buf@[q.row as int]@);
    let mut head = buf[q.row].clone();
    let mut rest = head.split_off(q.col);
    indent_line(&mut rest, level);
    replace_line(buf, q.row, head);
    insert_line(buf, q.row + 1, rest);
    assert(lines::text(buf@) =~= broken(t, p, level).0);
    Pos { row: q.row + 1, col: level }
}

/// A text with a grapheme typed at a position. Where the shell's indentation
/// falls with it, the cursor's line loses as many tabs.
pub open spec fn typed(t: Text, cur_row: int, at: Pos, g: Seq<char>, lv: (usize, usize)) -> Text {
    let q = lines::inside(t, at);
    let t1 = t.update(q.row as int, t[q.row as int].insert(q.col as int, g));
    if lv.1 < lv.0 {
        t1.update(cur_row, untabbed(t1[cur_row], (lv.0 - lv.1) as nat))
    } else {
        t1
    }
}

/// A text with a grapheme put in at a position, and where the cursor then is:
/// a linefeed breaks the line, anything else leaves the cursor where it was.
pub open spec fn put_in(t: Text, cur: Pos, at: Pos, g: Seq<char>, lv: (usize, usize)) -> (
    Text,
    Pos,
) {
    if g == seq!['\n'] {
        let (t1, p) = broken(t, at, lv.1);
        if lv.1 < lv.0 {
            (t1.update(p.row as int, untabbed(t1[p.row as int], (lv.0 - lv.1) as nat)), p)
        } else {
            (t1, p)
        }
    } else {
        (typed(t, cur.row as int, at, g, lv), cur)
    }
}

/// Puts a grapheme in at a position. `lv` are the shell's indentation levels
/// before and behind it.
pub fn insert_at(buf: &mut Vec<Line>, cur: Pos, at: Pos, g: Grapheme, lv: (usize, usize)) -> (r:
    Pos)
    requires
        old(buf)@.len() > 0,
        old(buf)@.len() < usize::MAX,
        cur.row < old(buf)@.len(),
    ensures
        (lines::text(final(buf)@), r) == put_in(lines::text(old(buf)@), cur, at, g@, lv),
        r.row < final(buf)@.len(),
        final(buf)@.len() == old(buf)@.len() + (if g@ == seq!['\n'] {
            1int
        } else {
            0
        }),
{
    let ghost t = lines::text(buf@);
    let p = if g.is_lf() {
        break_line_at(buf, at, lv.1)
    } else {
        let q = clamp_pos(buf, at);
        assert(t[q.row as int] == buf@[q.row as int]@);
        let mut l = buf[q.row].clone();
        l.insert(q.col, g);
        replace_line(buf, q.row, l);
        cur
    };
    if lv.1 < lv.0 {
        let ghost t1 = lines::text(buf@);
        assert(t1.len() == buf@.len());
        assert(t1[p.row as int] == buf@[p.row as int]@);
        let mut l = buf[p.row].clone();
        dedent_line(&mut l, lv.0 - lv.1);
        replace_line(buf, p.row, l);
    }
    p
}

/// The indentation levels for the `k`-th question, none where there is no
/// answer.
pub open spec fn level_at(levels: Seq<(usize, usize)>, k: int) -> (usize, usize) {
    if 0 <= k < levels.len() {
        levels[k]
    } else {
        (0, 0)
    }
}

/// The indentation levels for the `k`-th question.
pub fn get_level(levels: &[(usize, usize)], k: usize) -> (r: (usize, usize))
    ensures
        r == level_at(levels@, k as int),
{
    if k < levels.len() {
        levels[k]
    } else {
        (0, 0)
    }
}

/// A text with graphemes typed at the cursor one after the other, and where
/// the cursor then is.
pub open spec fn typed_all(
    t: Text,
    cur: Pos,
    gs: Seq<Seq<char>>,
    levels: Seq<(usize, usize)>,
    k: nat,
) -> (Text, Pos)
    decreases k,
{
    if k == 0 {
        (t, cur)
    } else {
        let (t1, c1) = typed_all(t, cur, gs, levels, (k - 1) as nat);
        let g = gs[k - 1];
        let lv = level_at(levels, k - 1);
        if g == seq!['\n'] {
            broken(t1, c1, lv.1)
        } else {
            (typed(t1, c1.row as int, c1, g, lv), scan::next_col(c1))
        }
    }
}

/// Types a string at the cursor. `levels` are the shell's indentation levels
/// before and behind each of its graphemes.
pub fn insert_str(buf: &mut Vec<Line>, cur: Pos, s: &str, levels: &[(usize, usize)]) -> (r: Pos)
    requires
        old(buf)@.len() > 0,
        old(buf)@.len() + lines::rows_of(s@).len() <= usize::MAX,
        cur.row < old(buf)@.len(),
    ensures
        (lines::text(final(buf)@), r) == typed_all(
            lines::text(old(buf)@),
            cur,
            unicode::clusters(s@),
            levels@,
            unicode::clusters(s@).len(),
        ),
        r.row < final(buf)@.len(),
        final(buf)@.len() < old(buf)@.len() + lines::rows_of(s@).len(),
{
    let gs = unicode::graphemes_of(s);
    let ghost cl = unicode::clusters(s@);
    let ghost t = lines::text(buf@);
    let ghost n0 = buf@.len();
    assert(cl.len() == gs@.len());
    proof {
        lines::lemma_linefeeds(cl);
        assert(cl.take(0) =~= Seq::<Seq<char>>::empty());
    }
    let mut c: Pos = cur;
    let mut k: usize = 0;
    while k < gs.len()
        invariant
            k <= gs@.len(),
            cl == gs@.map_values(|g: String| g@),
            n0 + lines::linefeeds(cl) < usize::MAX,
            0 < buf@.len() == n0 + lines::linefeeds(cl.take(k as int)),
            c.row < buf@.len(),
            (lines::text(buf@), c) == typed_all(t, cur, cl, levels@, k as nat),
        decreases gs@.len() - k,
    {
        let g = Grapheme::from_cluster(gs[k].as_str());
        let lv = get_level(levels, k);
        assert(cl[k as int] == g@);
        proof {
            assert(cl.take(k + 1).drop_last() =~= cl.take(k as int));
            lines::lemma_linefeeds_part(cl, k + 1);
        }
        if g.is_lf() {
            c = break_line_at(buf, c, lv.1);
        } else {
            insert_at(buf, c, c, g, lv);
            c = step_right(c);
        }
        k = k + 1;
    }
    assert(cl.take(k as int) =~= cl);
    c
}

/// A text with a line joined to the next: the whitespace before the next is
/// dropped, and a blank stands between them unless one of them is empty or
/// there is whitespace already.
pub open spec fn joined_once(t: Text, row: int) -> Text {
    let a = t[row];
    let b = line::trimmed_start(t[row + 1]);
    let space = a.len() > 0 && b.len() > 0 && !line::is_space(a.last());
    t.remove(row + 1).update(
        row,
        a + (if space {
            seq![seq![' ']] + b
        } else {
            b
        }),
    )
}

/// A text with a line joined to the next up to `n` times, and where the cursor
/// then is: where the last two lines meet.
pub open spec fn joined_rows(t: Text, cur: Pos, row: int, n: nat) -> (Text, Pos)
    decreases n,
{
    if n == 0 || row + 1 >= t.len() {
        (t, cur)
    } else {
        joined_rows(
            joined_once(t, row),
            Pos { row: row as usize, col: t[row].len() as usize },
            row,
            (n - 1) as nat,
        )
    }
}

/// Joins a line to the next up to `n` times.
pub fn join_rows(buf: &mut Vec<Line>, cur: Pos, row: usize, n: usize) -> (r: Pos)
    ensures
        (lines::text(final(buf)@), r) == joined_rows(
            lines::text(old(buf)@),
            cur,
            row as int,
            n as nat,
        ),
        old(buf)@.len() > 0 ==> final(buf)@.len() > 0,
{
    let ghost t0 = lines::text(buf@);
    let mut c: Pos = cur;
    let mut k: usize = n;
    while k > 0 && row < buf.len() && row < buf.len() - 1
        invariant
            old(buf)@.len() > 0 ==> buf@.len() > 0,
            k <= n,
            joined_rows(t0, cur, row as int, n as nat) == joined_rows(
                lines::text(buf@),
                c,
                row as int,
                k as nat,
            ),
        decreases k,
    {
        let ghost t = lines::text(buf@);
        assert(t.len() == buf@.len());
        assert(t[row as int] == buf@[row as int]@);
        let next = remove_line(buf, row + 1);
        let mut next = next.trim_start();
        assert(lines::text(buf@)[row as int] == buf@[row as int]@);
        let mut this = buf[row].clone();
        let len: usize = this.len();
        let has_ws: bool = len > 0 && this.at(len - 1).is_ws();
        if !has_ws && len > 0 && next.len() > 0 {
            let ghost b = next@;
            next.insert_char(0, ' ');
            assert(next@ =~= seq![seq![' ']] + b);
        }
        this.append(&mut next);
        replace_line(buf, row, this);
        assert(lines::text(buf@) =~= joined_once(t, row as int));
        c = Pos { row, col: len };
        k = k - 1;
    }
    assert(lines::text(buf@).len() == buf@.len());
    c
}

/// A text with a tab before each of some lines.
pub open spec fn indented(t: Text, s: int, e: int) -> Text {
    Seq::new(
        t.len(),
        |r: int|
            if s <= r <= e {
                seq![seq!['\t']] + t[r]
            } else {
                t[r]
            },
    )
}

/// Whether a line begins with a tab.
pub open spec fn has_tab(row: Row) -> bool {
    row.len() > 0 && row[0] == seq!['\t']
}

/// A text with a tab taken from before each of some lines.
pub open spec fn dedented(t: Text, s: int, e: int) -> Text {
    Seq::new(
        t.len(),
        |r: int|
            if s <= r <= e && has_tab(t[r]) {
                t[r].skip(1)
            } else {
                t[r]
            },
    )
}

/// How many of the first `n` lines a dedent changes.
pub open spec fn tabbed_rows(t: Text, s: int, e: int, n: int) -> int
    decreases n,
{
    if n <= 0 {
        0
    } else {
        tabbed_rows(t, s, e, n - 1) + (if s <= n - 1 <= e && has_tab(t[n - 1]) {
            1int
        } else {
            0
        })
    }
}

/// How many of the first `n` lines stand between two rows.
pub open spec fn rows_among(s: int, e: int, n: int) -> int
    decreases n,
{
    if n <= 0 {
        0
    } else {
        rows_among(s, e, n - 1) + (if s <= n - 1 <= e {
            1int
        } else {
            0
        })
    }
}

/// Puts a tab before each of some lines and counts them.
pub fn indent_rows(buf: &mut Vec<Line>, s: usize, e: usize) -> (r: usize)
    ensures
        lines::text(final(buf)@) == indented(lines::text(old(buf)@), s as int, e as int),
        r == rows_among(s as int, e as int, old(buf)@.len() as int),
        final(buf)@.len() == old(buf)@.len(),
{
    let ghost t = lines::text(buf@);
    let n: usize = buf.len();
    let mut k: usize = 0;
    let mut r: usize = 0;
    while r < n
        invariant
            r <= n,
            n == buf@.len(),
            t.len() == n,
            k <= r,
            k == rows_among(s as int, e as int, r as int),
            forall|i: int|
                0 <= i < n ==> (#[trigger] lines::text(buf@)[i]) == (if i < r {
                    indented(t, s as int, e as int)[i]
                } else {
                    t[i]
                }),
        decreases n - r,
    {
        if s <= r && r <= e {
            let ghost was = lines::text(buf@);
            assert(was[r as int] == buf@[r as int]@);
            let mut l = buf[r].clone();
            l.insert_char(0, '\t');
            assert(l@ =~= seq![seq!['\t']] + t[r as int]);
            replace_line(buf, r, l);
            k = k + 1;
        }
        r = r + 1;
    }
    assert(lines::text(buf@) =~= indented(t, s as int, e as int));
    k
}

/// Takes a tab from before each of some lines and counts those that had one.
pub fn dedent_rows(buf: &mut Vec<Line>, s: usize, e: usize) -> (r: usize)
    ensures
        lines::text(final(buf)@) == dedented(lines::text(old(buf)@), s as int, e as int),
        r == tabbed_rows(lines::text(old(buf)@), s as int, e as int, old(buf)@.len() as int),
        final(buf)@.len() == old(buf)@.len(),
{
    let ghost t = lines::text(buf@);
    let n: usize = buf.len();
    let mut k: usize = 0;
    let mut r: usize = 0;
    while r < n
        invariant
            r <= n,
            n == buf@.len(),
            t.len() == n,
            k <= r,
            k == tabbed_rows(t, s as int, e as int, r as int),
            forall|i: int|
                0 <= i < n ==> (#[trigger] lines::text(buf@)[i]) == (if i < r {
                    dedented(t, s as int, e as int)[i]
                } else {
                    t[i]
                }),
        decreases n - r,
    {
        let ghost was = lines::text(buf@);
        assert(was[r as int] == buf@[r as int]@);
        if s <= r && r <= e && buf[r].len() > 0 && buf[r].at(0).is_char('\t') {
            let mut l = buf[r].clone();
            l.remove(0);
            assert(l@ =~= t[r as int].skip(1));
            replace_line(buf, r, l);
            k = k + 1;
        }
        r = r + 1;
    }
    assert(lines::text(buf@) =~= dedented(t, s as int, e as int));
    k
}

/// A line indented as the shell has it, instead of as it was.
pub open spec fn equal_row(row: Row, lv: (usize, usize)) -> Row {
    tabs(line::least(lv.0 as int, lv.1 as int) as nat) + all_untabbed(row)
}

/// A text with some lines indented as the shell has it: each line as little as
/// its start or its end asks for.
pub open spec fn equalized(t: Text, s: int, e: int, levels: Seq<(usize, usize)>) -> Text {
    Seq::new(
        t.len(),
        |r: int|
            if s <= r <= e {
                equal_row(t[r], level_at(levels, r - s))
            } else {
                t[r]
            },
    )
}

/// Indents some lines as the shell has it. `levels` are its indentation levels
/// at the start and at the end of each of them.
pub fn equalize(buf: &mut Vec<Line>, s: usize, e: usize, levels: &[(usize, usize)])
    ensures
        lines::text(final(buf)@) == equalized(
            lines::text(old(buf)@),
            s as int,
            e as int,
            levels@,
        ),
        final(buf)@.len() == old(buf)@.len(),
{
    let ghost t = lines::text(buf@);
    let n: usize = buf.len();
    let mut r: usize = 0;
    while r < n
        invariant
            r <= n,
            n == buf@.len(),
            t.len() == n,
            forall|i: int|
                0 <= i < n ==> (#[trigger] lines::text(buf@)[i]) == (if i < r {
                    equalized(t, s as int, e as int, levels@)[i]
                } else {
                    t[i]
                }),
        decreases n - r,
    {
        let ghost was = lines::text(buf@);
        assert(was[r as int] == buf@[r as int]@);
        if s <= r && r <= e {
            let lv = get_level(levels, r - s);
            let mut l = buf[r].clone();
            dedent_fully(&mut l);
            indent_line(&mut l, lesser(lv.0, lv.1));
            replace_line(buf, r, l);
        }
        r = r + 1;
    }
    assert(lines::text(buf@) =~= equalized(t, s as int, e as int, levels@));
}

} // verus!
