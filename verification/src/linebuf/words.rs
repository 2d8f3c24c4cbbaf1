//! Word motions and word objects: they walk over the classes of the graphemes
//! and do not care what the graphemes are.

use crate::editcmd::Bound;
use crate::editcmd::Direction;
use crate::editcmd::To;
use crate::editcmd::Word;
use crate::linebuf::line;
use crate::linebuf::line::CharClass;
use crate::linebuf::line::Line;
use crate::linebuf::lines;
use crate::linebuf::lines::Text;
use crate::linebuf::pos::lesser;
use crate::linebuf::pos::MotionKind;
use crate::linebuf::pos::Pos;
use vstd::prelude::*;

verus! {

/// The classes met on a walk, each with its position.
pub type Walk = Seq<(Pos, CharClass)>;

/// The classes of a line from a column on.
pub open spec fn row_walk(t: Text, row: int, col: int) -> Walk {
    let n = t[row].len();
    Seq::new(
        (if col < n {
            n - col
        } else {
            0
        }) as nat,
        |i: int|
            (
                Pos { row: row as usize, col: (col + i) as usize },
                line::class_of(t[row][col + i]),
            ),
    )
}

/// The class of a line boundary or an empty line.
pub open spec fn blank(row: int, col: int) -> (Pos, CharClass) {
    (Pos { row: row as usize, col: col as usize }, CharClass::Whitespace)
}

/// The classes met when walking forward. A line boundary is met as whitespace
/// at the start of the next line, and an empty line as whitespace.
pub open spec fn forward(t: Text, row: int, col: int) -> Walk
    decreases t.len() - row,
{
    if row < 0 || row >= t.len() {
        Seq::empty()
    } else if t[row].len() == 0 {
        seq![blank(row, 0)] + forward(t, row + 1, 0)
    } else if row + 1 < t.len() {
        row_walk(t, row, col) + seq![blank(row + 1, 0)] + forward(t, row + 1, 0)
    } else {
        row_walk(t, row, col)
    }
}

/// The last column of a row that holds a grapheme, 0 where none does.
pub open spec fn last_col(t: Text, row: int) -> int {
    if t[row].len() > 0 {
        t[row].len() - 1
    } else {
        0
    }
}

/// The classes of a line from a column back to its start.
pub open spec fn row_walk_back(t: Text, row: int, col: int) -> Walk {
    Seq::new(
        (col + 1) as nat,
        |i: int|
            (
                Pos { row: row as usize, col: (col - i) as usize },
                line::class_of(t[row][col - i]),
            ),
    )
}

/// The classes met when walking backward. A line boundary is met as whitespace
/// at the last column of the previous line, and an empty line as whitespace.
pub open spec fn backward(t: Text, row: int, col: int) -> Walk
    decreases row,
{
    if row < 0 || row >= t.len() {
        Seq::empty()
    } else if t[row].len() == 0 {
        if row == 0 {
            seq![blank(row, 0)]
        } else {
            seq![blank(row, 0)] + backward(t, row - 1, last_col(t, row - 1))
        }
    } else if row == 0 {
        row_walk_back(t, row, col)
    } else {
        row_walk_back(t, row, col) + seq![blank(row - 1, last_col(t, row - 1))] + backward(
            t,
            row - 1,
            last_col(t, row - 1),
        )
    }
}

/// The walk forward from a position.
pub open spec fn forward_from(t: Text, p: Pos) -> Walk {
    forward(t, p.row as int, p.col as int)
}

/// The walk backward from a position, which is moved onto the text first.
pub open spec fn backward_from(t: Text, p: Pos) -> Walk {
    if t.len() == 0 {
        Seq::empty()
    } else {
        let row = line::least(p.row as int, t.len() - 1);
        backward(t, row, line::least(p.col as int, last_col(t, row)))
    }
}

/// The classes met when walking forward from a position.
pub fn char_classes_forward_from(lines: &Vec<Line>, p: Pos) -> (r: Vec<(Pos, CharClass)>)
    ensures
        r@ == forward_from(lines::text(lines@), p),
{
    let ghost t = lines::text(lines@);
    let mut out: Vec<(Pos, CharClass)> = Vec::new();
    let mut row: usize = p.row;
    let mut col: usize = p.col;
    assert(out@ + forward(t, row as int, col as int) =~= forward_from(t, p));
    while row < lines.len()
        invariant
            t == lines::text(lines@),
            out@ + forward(t, row as int, col as int) == forward_from(t, p),
        decreases lines@.len() - row,
    {
        let n: usize = lines[row].len();
        assert(t[row as int] == lines@[row as int]@);
        let ghost start = out@;
        if n == 0 {
            out.push((Pos { row, col: 0 }, CharClass::Whitespace));
            assert(out@ + forward(t, row + 1, 0) =~= start + forward(t, row as int, col as int));
        } else {
            let ghost c0 = col as int;
            let mut c: usize = col;
            assert(out@ =~= start + row_walk(t, row as int, c0).take(0));
            while c < n
                invariant
                    row < lines@.len(),
                    t == lines::text(lines@),
                    n == lines@[row as int]@.len(),
                    c0 <= c,
                    c0 < n ==> c <= n,
                    c0 >= n ==> c == c0,
                    out@ == start + row_walk(t, row as int, c0).take(c - c0),
                decreases n - c,
            {
                let k = lines[row].at(c).class();
                assert(t[row as int] == lines@[row as int]@);
                out.push((Pos { row, col: c }, k));
                c = c + 1;
                assert(out@ =~= start + row_walk(t, row as int, c0).take(c - c0));
            }
            assert(row_walk(t, row as int, c0).take(c - c0) =~= row_walk(t, row as int, c0));
            if row + 1 < lines.len() {
                out.push((Pos { row: row + 1, col: 0 }, CharClass::Whitespace));
            }
            assert(out@ + forward(t, row + 1, 0) =~= start + forward(t, row as int, c0));
        }
        row = row + 1;
        col = 0;
    }
    assert(out@ + forward(t, row as int, col as int) =~= out@);
    out
}

/// The classes met when walking backward from a position.
pub fn char_classes_backward_from(lines: &Vec<Line>, p: Pos) -> (r: Vec<(Pos, CharClass)>)
    ensures
        r@ == backward_from(lines::text(lines@), p),
{
    let ghost t = lines::text(lines@);
    let mut out: Vec<(Pos, CharClass)> = Vec::new();
    if lines.len() == 0 {
        assert(out@ =~= backward_from(t, p));
        return out;
    }
    let mut row: usize = lesser(p.row, lines.len() - 1);
    assert(t[row as int] == lines@[row as int]@);
    let mut col: usize = lesser(p.col, lines[row].len().saturating_sub(1));
    assert(out@ + backward(t, row as int, col as int) =~= backward_from(t, p));
    loop
        invariant_except_break
            out@ + backward(t, row as int, col as int) == backward_from(t, p),
        invariant
            t == lines::text(lines@),
            row < lines@.len(),
            col <= last_col(t, row as int),
        ensures
            out@ == backward_from(t, p),
        decreases row,
    {
        let ghost start = out@;
        assert(t[row as int] == lines@[row as int]@);
        if lines[row].len() == 0 {
            out.push((Pos { row, col: 0 }, CharClass::Whitespace));
            if row == 0 {
                assert(out@ =~= start + backward(t, 0, col as int));
                break;
            }
        } else {
            let ghost c0 = col as int;
            let mut c: usize = col;
            assert(out@ =~= start + row_walk_back(t, row as int, c0).take(0));
            loop
                invariant_except_break
                    out@ == start + row_walk_back(t, row as int, c0).take(c0 - c),
                invariant
                    row < lines@.len(),
                    t == lines::text(lines@),
                    c <= c0 < lines@[row as int]@.len(),
                ensures
                    out@ == start + row_walk_back(t, row as int, c0),
                decreases c,
            {
                let k = lines[row].at(c).class();
                assert(t[row as int] == lines@[row as int]@);
                out.push((Pos { row, col: c }, k));
                assert(out@ =~= start + row_walk_back(t, row as int, c0).take(c0 - c + 1));
                if c == 0 {
                    assert(row_walk_back(t, row as int, c0).take(c0 + 1) =~= row_walk_back(
                        t,
                        row as int,
                        c0,
                    ));
                    break;
                }
                c = c - 1;
            }
            if row == 0 {
                assert(out@ =~= start + backward(t, 0, c0));
                break;
            }
            let prev: usize = lines[row - 1].len().saturating_sub(1);
            assert(t[row - 1] == lines@[row - 1]@);
            out.push((Pos { row: row - 1, col: prev }, CharClass::Whitespace));
        }
        row = row - 1;
        assert(t[row as int] == lines@[row as int]@);
        let ghost c1 = col as int;
        col = lines[row].len().saturating_sub(1);
        assert(out@ + backward(t, row as int, col as int) =~= start + backward(t, row + 1, c1));
    }
    out
}

/// The first place from `i` on that is whitespace, or is not, as asked; the
/// length of the walk where there is none.
pub open spec fn first_ws(s: Walk, i: int, ws: bool) -> int
    decreases s.len() - i,
{
    if i >= s.len() {
        s.len() as int
    } else if (s[i].1 == CharClass::Whitespace) == ws {
        i
    } else {
        first_ws(s, i + 1, ws)
    }
}

/// The first place from `i` on with another class than `c`; the length of the
/// walk where there is none.
pub open spec fn first_other(s: Walk, i: int, c: CharClass) -> int
    decreases s.len() - i,
{
    if i >= s.len() {
        s.len() as int
    } else if s[i].1 != c {
        i
    } else {
        first_other(s, i + 1, c)
    }
}

/// Where the word that `c` belongs to ends, from `i` on: at whitespace for a
/// big word, at another class for a normal one.
pub open spec fn word_end(s: Walk, i: int, word: Word, c: CharClass) -> int {
    match word {
        Word::Big => first_ws(s, i, true),
        Word::Normal => first_other(s, i, c),
    }
}

/// The position at a place of the walk.
pub open spec fn place(s: Walk, i: int) -> Option<Pos> {
    if 0 <= i < s.len() {
        Some(s[i].0)
    } else {
        None
    }
}

fn find_ws(v: &Vec<(Pos, CharClass)>, from: usize, ws: bool) -> (r: usize)
    ensures
        r == first_ws(v@, from as int, ws),
        r <= v@.len(),
        from <= v@.len() ==> r >= from,
{
    let mut i: usize = from;
    while i < v.len()
        invariant
            first_ws(v@, from as int, ws) == first_ws(v@, i as int, ws),
            from <= i,
            from <= v@.len() ==> i <= v@.len(),
        decreases v@.len() - i,
    {
        if v[i].1.is_ws() == ws {
            return i;
        }
        i = i + 1;
    }
    v.len()
}

fn find_other(v: &Vec<(Pos, CharClass)>, from: usize, c: CharClass) -> (r: usize)
    ensures
        r == first_other(v@, from as int, c),
        r <= v@.len(),
        from <= v@.len() ==> r >= from,
{
    let mut i: usize = from;
    while i < v.len()
        invariant
            first_other(v@, from as int, c) == first_other(v@, i as int, c),
            from <= i,
            from <= v@.len() ==> i <= v@.len(),
        decreases v@.len() - i,
    {
        if v[i].1.is_other_class(&c) {
            return i;
        }
        i = i + 1;
    }
    v.len()
}

fn find_word_end(v: &Vec<(Pos, CharClass)>, from: usize, word: Word, c: CharClass) -> (r: usize)
    ensures
        r == word_end(v@, from as int, word, c),
        r <= v@.len(),
        from <= v@.len() ==> r >= from,
{
    match word {
        Word::Big => find_ws(v, from, true),
        Word::Normal => find_other(v, from, c),
    }
}

fn place_at(v: &Vec<(Pos, CharClass)>, i: usize) -> (r: Option<Pos>)
    ensures
        r == place(v@, i as int),
{
    if i < v.len() {
        Some(v[i].0)
    } else {
        None
    }
}

/// Where `w` lands: the start of the next word. If trailing whitespace is to
/// be ignored, a normal word ends on its last grapheme and a big one on the
/// whitespace behind it.
pub open spec fn w_target(s: Walk, word: Word, ignore_ws: bool) -> Option<Pos> {
    if s.len() == 0 {
        None
    } else if s[0].1 == CharClass::Whitespace {
        place(s, first_ws(s, 0, false))
    } else {
        match word {
            Word::Big => {
                let e = first_ws(s, 0, true);
                if ignore_ws {
                    place(s, e)
                } else {
                    place(s, first_ws(s, e + 1, false))
                }
            },
            Word::Normal => {
                let e = first_other(s, 1, s[0].1);
                if e >= s.len() {
                    None
                } else if s[e].1 != CharClass::Whitespace {
                    Some(s[e].0)
                } else if ignore_ws {
                    Some(s[e - 1].0)
                } else {
                    place(s, first_ws(s, e + 1, false))
                }
            },
        }
    }
}

/// Whether `w` stops on the last grapheme of a normal word, which then belongs
/// to the span.
pub open spec fn w_stops_short(s: Walk, word: Word, ignore_ws: bool) -> bool {
    &&& word == Word::Normal
    &&& ignore_ws
    &&& s.len() > 0
    &&& s[0].1 != CharClass::Whitespace
    &&& ({
        let e = first_other(s, 1, s[0].1);
        e < s.len() && s[e].1 == CharClass::Whitespace
    })
}

/// Where the nearest word begins on a walk that has just left its start.
pub open spec fn word_from(s: Walk) -> int {
    if s.len() > 1 && s[1].1 == CharClass::Whitespace {
        first_ws(s, 1, false)
    } else {
        1
    }
}

/// Where `b` lands: the start of the word before.
pub open spec fn b_target(s: Walk, word: Word) -> Option<Pos> {
    let f = word_from(s);
    if f >= s.len() {
        None
    } else {
        place(s, word_end(s, f + 1, word, s[f].1) - 1)
    }
}

/// Where `e` lands: the end of the word ahead.
pub open spec fn e_target(s: Walk, word: Word) -> Option<Pos> {
    let f = word_from(s);
    if f >= s.len() {
        None
    } else {
        let e = word_end(s, f + 1, word, s[f].1);
        if e < s.len() {
            Some(s[e - 1].0)
        } else {
            None
        }
    }
}

/// Where `ge` lands: the end of the word before.
pub open spec fn ge_target(s: Walk, word: Word) -> Option<Pos> {
    if s.len() <= 1 {
        None
    } else if s[1].1 == CharClass::Whitespace {
        place(s, first_ws(s, 1, false))
    } else {
        match word {
            Word::Big => place(s, first_ws(s, first_ws(s, 1, true) + 1, false)),
            Word::Normal => {
                let b = first_other(s, 1, s[1].1);
                if b >= s.len() {
                    None
                } else if s[b].1 == CharClass::Whitespace {
                    place(s, first_ws(s, b + 1, false))
                } else {
                    Some(s[b].0)
                }
            },
        }
    }
}

/// Where `w` lands from a position, and whether it stops short.
pub fn word_motion_w(lines: &Vec<Line>, word: Word, start: Pos, ignore_ws: bool) -> (r: (
    Option<Pos>,
    bool,
))
    ensures
        r.0 == w_target(forward_from(lines::text(lines@), start), word, ignore_ws),
        r.1 == w_stops_short(forward_from(lines::text(lines@), start), word, ignore_ws),
{
    let v = char_classes_forward_from(lines, start);
    if v.len() == 0 {
        return (None, false);
    }
    if v[0].1.is_ws() {
        let i = find_ws(&v, 0, false);
        return (place_at(&v, i), false);
    }
    match word {
        Word::Big => {
            let e = find_ws(&v, 0, true);
            if ignore_ws {
                (place_at(&v, e), false)
            } else if e < v.len() {
                let i = find_ws(&v, e + 1, false);
                (place_at(&v, i), false)
            } else {
                (None, false)
            }
        },
        Word::Normal => {
            let e = find_other(&v, 1, v[0].1);
            if e >= v.len() {
                (None, false)
            } else if !v[e].1.is_ws() {
                (Some(v[e].0), false)
            } else if ignore_ws {
                (Some(v[e - 1].0), true)
            } else {
                let i = find_ws(&v, e + 1, false);
                (place_at(&v, i), false)
            }
        },
    }
}

fn find_word_from(v: &Vec<(Pos, CharClass)>) -> (r: usize)
    ensures
        r == word_from(v@),
        r >= 1 || v@.len() == 0,
{
    if v.len() > 1 && v[1].1.is_ws() {
        find_ws(v, 1, false)
    } else {
        1
    }
}

/// Where `b` lands from a position.
pub fn word_motion_b(lines: &Vec<Line>, word: Word, start: Pos) -> (r: Option<Pos>)
    ensures
        r == b_target(backward_from(lines::text(lines@), start), word),
{
    let v = char_classes_backward_from(lines, start);
    let f = find_word_from(&v);
    if f >= v.len() {
        return None;
    }
    let e = find_word_end(&v, f + 1, word, v[f].1);
    Some(v[e - 1].0)
}

/// Where `e` lands from a position.
pub fn word_motion_e(lines: &Vec<Line>, word: Word, start: Pos) -> (r: Option<Pos>)
    ensures
        r == e_target(forward_from(lines::text(lines@), start), word),
{
    let v = char_classes_forward_from(lines, start);
    let f = find_word_from(&v);
    if f >= v.len() {
        return None;
    }
    let e = find_word_end(&v, f + 1, word, v[f].1);
    if e < v.len() {
        Some(v[e - 1].0)
    } else {
        None
    }
}

/// Where `ge` lands from a position.
pub fn word_motion_ge(lines: &Vec<Line>, word: Word, start: Pos) -> (r: Option<Pos>)
    ensures
        r == ge_target(backward_from(lines::text(lines@), start), word),
{
    let v = char_classes_backward_from(lines, start);
    if v.len() <= 1 {
        return None;
    }
    if v[1].1.is_ws() {
        let i = find_ws(&v, 1, false);
        return place_at(&v, i);
    }
    match word {
        Word::Big => {
            let w = find_ws(&v, 1, true);
            if w < v.len() {
                let i = find_ws(&v, w + 1, false);
                place_at(&v, i)
            } else {
                None
            }
        },
        Word::Normal => {
            let b = find_other(&v, 1, v[1].1);
            if b >= v.len() {
                None
            } else if v[b].1.is_ws() {
                let i = find_ws(&v, b + 1, false);
                place_at(&v, i)
            } else {
                Some(v[b].0)
            }
        },
    }
}

/// One step of a word motion: where it lands and whether its end belongs to
/// the span. A step that finds no word goes to the end, or the start, of the
/// text.
pub open spec fn word_step(
    t: Text,
    to: To,
    word: Word,
    dir: Direction,
    ignore_ws: bool,
    at: (Pos, bool),
) -> (Pos, bool) {
    let far = Pos { row: usize::MAX, col: usize::MAX };
    let home = Pos { row: 0, col: 0 };
    match (to, dir) {
        (To::Start, Direction::Forward) => {
            let s = forward_from(t, at.0);
            match w_target(s, word, ignore_ws) {
                Some(p) => (p, at.1 || w_stops_short(s, word, ignore_ws)),
                None => (far, true),
            }
        },
        (To::End, Direction::Forward) => (
            match e_target(forward_from(t, at.0), word) {
                Some(p) => p,
                None => far,
            },
            true,
        ),
        (To::Start, Direction::Backward) => (
            match b_target(backward_from(t, at.0), word) {
                Some(p) => p,
                None => home,
            },
            at.1,
        ),
        (To::End, Direction::Backward) => (
            match ge_target(backward_from(t, at.0), word) {
                Some(p) => p,
                None => home,
            },
            true,
        ),
    }
}

/// `k` steps out of `count`; only the last one may ignore trailing whitespace.
pub open spec fn word_steps(
    t: Text,
    count: nat,
    k: nat,
    to: To,
    word: Word,
    dir: Direction,
    ignore_ws: bool,
    at: (Pos, bool),
) -> (Pos, bool)
    decreases k,
{
    if k == 0 {
        at
    } else {
        word_step(
            t,
            to,
            word,
            dir,
            ignore_ws && k == count,
            word_steps(t, count, (k - 1) as nat, to, word, dir, ignore_ws, at),
        )
    }
}

/// A position moved onto the text, on the last grapheme of its line if
/// `exclusive`. Unlike a span's end, its row and column are bounded one by one.
pub open spec fn bounded(t: Text, p: Pos, exclusive: bool) -> Pos {
    if t.len() == 0 {
        Pos { row: 0, col: 0 }
    } else {
        let row = line::least(p.row as int, t.len() - 1);
        let max = if exclusive {
            last_col(t, row)
        } else {
            t[row].len() as int
        };
        Pos { row: row as usize, col: line::least(p.col as int, max) as usize }
    }
}

/// Moves a position onto the text.
pub fn bound_pos(lines: &Vec<Line>, p: Pos, exclusive: bool) -> (r: Pos)
    ensures
        r == bounded(lines::text(lines@), p, exclusive),
        lines@.len() > 0 ==> r.row < lines@.len() && r.col <= lines@[r.row as int]@.len(),
{
    if lines.len() == 0 {
        return Pos { row: 0, col: 0 };
    }
    let row: usize = lesser(p.row, lines.len() - 1);
    assert(lines::text(lines@)[row as int] == lines@[row as int]@);
    let n: usize = lines[row].len();
    let max: usize = if exclusive {
        n.saturating_sub(1)
    } else {
        n
    };
    Pos { row, col: lesser(p.col, max) }
}

/// The span of a word motion from `start`.
pub open spec fn word_span(
    t: Text,
    start: Pos,
    exclusive: bool,
    count: nat,
    to: To,
    word: Word,
    dir: Direction,
    ignore_ws: bool,
    inclusive: bool,
) -> MotionKind {
    let r = word_steps(t, count, count, to, word, dir, ignore_ws, (start, inclusive));
    MotionKind::Char { start, end: bounded(t, r.0, exclusive), inclusive: r.1 }
}

/// The span of a word motion from `start`.
pub fn eval_word_motion(
    lines: &Vec<Line>,
    start: Pos,
    exclusive: bool,
    count: usize,
    to: To,
    word: Word,
    dir: Direction,
    ignore_ws: bool,
    inclusive: bool,
) -> (r: MotionKind)
    ensures
        r == word_span(
            lines::text(lines@),
            start,
            exclusive,
            count as nat,
            to,
            word,
            dir,
            ignore_ws,
            inclusive,
        ),
{
    let ghost t = lines::text(lines@);
    let mut target: Pos = start;
    let mut incl: bool = inclusive;
    let mut k: usize = 0;
    while k < count
        invariant
            k <= count,
            t == lines::text(lines@),
            (target, incl) == word_steps(
                t,
                count as nat,
                k as nat,
                to,
                word,
                dir,
                ignore_ws,
                (start, inclusive),
            ),
        decreases count - k,
    {
        k = k + 1;
        let iws: bool = ignore_ws && k == count;
        match (to, dir) {
            (To::Start, Direction::Forward) => {
                let (p, short) = word_motion_w(lines, word, target, iws);
                match p {
                    Some(q) => {
                        target = q;
                        incl = incl || short;
                    },
                    None => {
                        target = Pos::max();
                        incl = true;
                    },
                }
            },
            (To::End, Direction::Forward) => {
                incl = true;
                target = match word_motion_e(lines, word, target) {
                    Some(q) => q,
                    None => Pos::max(),
                };
            },
            (To::Start, Direction::Backward) => {
                target = match word_motion_b(lines, word, target) {
                    Some(q) => q,
                    None => Pos::min(),
                };
            },
            (To::End, Direction::Backward) => {
                incl = true;
                target = match word_motion_ge(lines, word, target) {
                    Some(q) => q,
                    None => Pos::min(),
                };
            },
        }
    }
    let end = bound_pos(lines, target, exclusive);
    MotionKind::Char { start, end, inclusive: incl }
}

/// The last position of a stretch of a walk, `or` where it is empty.
pub open spec fn stretch_end(s: Walk, from: int, to: int, or: Pos) -> Pos {
    if to > from {
        s[to - 1].0
    } else {
        or
    }
}

/// The word object at a position. On whitespace it is the whitespace, and
/// around it the word that follows; on a word it is the word, and around it
/// the whitespace that follows.
pub open spec fn word_object(t: Text, from: Pos, word: Word, bound: Bound) -> Option<MotionKind> {
    let s = forward_from(t, from);
    if s.len() == 0 {
        None
    } else {
        let p = s[0].0;
        let c = s[0].1;
        let f = forward_from(t, p);
        let b = backward_from(t, p);
        if c == CharClass::Whitespace {
            let start = stretch_end(b, 0, first_ws(b, 0, false), p);
            let n = first_ws(f, 0, false);
            let white = stretch_end(f, 0, n, p);
            match bound {
                Bound::Inside => Some(MotionKind::Char { start, end: white, inclusive: true }),
                Bound::Around => if n >= f.len() {
                    None
                } else {
                    let e = word_end(f, n + 1, word, f[n].1);
                    Some(
                        MotionKind::Char {
                            start,
                            end: stretch_end(f, n + 1, e, white),
                            inclusive: true,
                        },
                    )
                },
            }
        } else {
            let start = stretch_end(b, 0, word_end(b, 0, word, c), p);
            let n = word_end(f, 0, word, c);
            let end = stretch_end(f, 0, n, p);
            match bound {
                Bound::Inside => Some(MotionKind::Char { start, end, inclusive: true }),
                Bound::Around => Some(
                    MotionKind::Char {
                        start,
                        end: stretch_end(f, n, first_ws(f, n, false), end),
                        inclusive: true,
                    },
                ),
            }
        }
    }
}

/// The last position of a stretch of a walk, `or` where it is empty.
fn end_of(v: &Vec<(Pos, CharClass)>, from: usize, to: usize, or: Pos) -> (r: Pos)
    requires
        to <= v@.len(),
    ensures
        r == stretch_end(v@, from as int, to as int, or),
{
    if to > from {
        v[to - 1].0
    } else {
        or
    }
}

/// The word object at a position.
pub fn text_obj_word(lines: &Vec<Line>, from: Pos, word: Word, bound: Bound) -> (r: Option<
    MotionKind,
>)
    ensures
        r == word_object(lines::text(lines@), from, word, bound),
{
    let s = char_classes_forward_from(lines, from);
    if s.len() == 0 {
        return None;
    }
    let p: Pos = s[0].0;
    let c: CharClass = s[0].1;
    let f = char_classes_forward_from(lines, p);
    let b = char_classes_backward_from(lines, p);
    if c.is_ws() {
        let nb = find_ws(&b, 0, false);
        let start = end_of(&b, 0, nb, p);
        let n = find_ws(&f, 0, false);
        let white = end_of(&f, 0, n, p);
        match bound {
            Bound::Inside => Some(MotionKind::Char { start, end: white, inclusive: true }),
            Bound::Around => {
                if n >= f.len() {
                    return None;
                }
                let e = find_word_end(&f, n + 1, word, f[n].1);
                let end = end_of(&f, n + 1, e, white);
                Some(MotionKind::Char { start, end, inclusive: true })
            },
        }
    } else {
        let nb = find_word_end(&b, 0, word, c);
        let start = end_of(&b, 0, nb, p);
        let n = find_word_end(&f, 0, word, c);
        let end = end_of(&f, 0, n, p);
        match bound {
            Bound::Inside => Some(MotionKind::Char { start, end, inclusive: true }),
            Bound::Around => {
                let g = find_ws(&f, n, false);
                let end = end_of(&f, n, g, end);
                Some(MotionKind::Char { start, end, inclusive: true })
            },
        }
    }
}

} // verus!
