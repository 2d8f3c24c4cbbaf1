//! What the verbs make of a buffer, said of the rows and columns of its text.

use crate::editcmd::Anchor;
use crate::editcmd::EditCmd;
use crate::editcmd::Verb;
use crate::linebuf::buffer::LineBuf;
use crate::linebuf::exec;
use crate::linebuf::line;
use crate::linebuf::line::Row;
use crate::linebuf::lines;
use crate::linebuf::lines::Text;
use crate::linebuf::numbers;
use crate::linebuf::ops;
use crate::linebuf::ops::Recase;
use crate::linebuf::pos::Cursor;
use crate::linebuf::pos::MotionKind;
use crate::linebuf::pos::Pos;
use crate::linebuf::verbs;
use crate::linebuf::verbs::Effect;
use crate::linebuf::word_laws;
use crate::linebuf::words;
use crate::register;
use crate::register::RegisterContent;
use crate::unicode;
use vstd::prelude::*;

verus! {

/// Whether a text is another one with what stands between two places of it left out: the
/// rows before and behind stay, and of the rows of the two places the start of the first
/// and the end of the second make one.
pub open spec fn left_out(t: Text, s: Pos, e: Pos, r: Text) -> bool {
    let gone = e.row - s.row;
    &&& r.len() == t.len() - gone
    &&& forall|i: int| 0 <= i < s.row ==> #[trigger] r[i] == t[i]
    &&& r[s.row as int] == t[s.row as int].take(s.col as int) + t[e.row as int].skip(e.col as int)
    &&& forall|i: int| s.row < i < r.len() ==> #[trigger] r[i] == t[i + gone]
}

/// Whether a text is what stands between two places of another: the end of the row of the
/// first, whole rows, and the start of the row of the second.
pub open spec fn cut_out(t: Text, s: Pos, e: Pos, k: Text) -> bool {
    let last = e.row - s.row;
    &&& k.len() == last + 1
    &&& last == 0 ==> k[0] == t[s.row as int].subrange(s.col as int, e.col as int)
    &&& last > 0 ==> k[0] == t[s.row as int].skip(s.col as int) && k[last]
        == t[e.row as int].take(e.col as int)
    &&& forall|i: int| 0 < i < last ==> #[trigger] k[i] == t[s.row + i]
}

/// Whether a place is one where a text can be cut.
pub open spec fn cuttable(t: Text, p: Pos) -> bool {
    p.row < t.len() && p.col <= t[p.row as int].len()
}

/// Taking out leaves the rest of the text and gives what stood between the two places.
pub proof fn taking_cuts(t: Text, s: Pos, e: Pos)
    requires
        word_laws::countable(t),
        cuttable(t, s),
        cuttable(t, e),
        !word_laws::prior(e, s),
    ensures
        left_out(t, s, e, lines::without(t, s, e)),
        cut_out(t, s, e, lines::between(t, s, e)),
{
    let w = lines::without(t, s, e);
    let b = lines::before(t, s);
    let a = lines::after(t, e);
    assert(lines::inside(t, s) == s);
    assert(lines::inside(t, e) == e);
    assert(b.len() == s.row + 1 && a.len() == t.len() - e.row);
    assert(b.last() == t[s.row as int].take(s.col as int));
    assert(a[0] == t[e.row as int].skip(e.col as int));
    let be = lines::before(t, e);
    let k = lines::between(t, s, e);
    assert(be.len() == e.row + 1);
    assert(lines::inside(be, s) == s);
    if s.row == e.row {
        assert(be[s.row as int] == t[e.row as int].take(e.col as int));
        assert(k[0] =~= t[s.row as int].subrange(s.col as int, e.col as int));
    } else {
        assert(be[s.row as int] == t[s.row as int]);
    }
}

/// The place behind the last of a span.
pub open spec fn span_end(e: Pos, inclusive: bool) -> Pos {
    Pos {
        row: e.row,
        col: (if inclusive {
            e.col + 1
        } else {
            e.col as int
        }) as usize,
    }
}

/// Whether a span of places goes forward on a text, with its end on it.
pub open spec fn runs(t: Text, s: Pos, e: Pos, inclusive: bool) -> bool {
    &&& word_laws::countable(t)
    &&& cuttable(t, s)
    &&& cuttable(t, e)
    &&& inclusive ==> e.col < t[e.row as int].len()
    &&& !word_laws::prior(e, s)
}

/// What a span of places covers leaves the text as it stands, whichever way the span goes.
pub proof fn spans_are_taken(t: Text, s: Pos, e: Pos, inclusive: bool)
    requires
        runs(t, s, e, inclusive),
    ensures
        ({
            let m = MotionKind::Char { start: s, end: e, inclusive };
            let back = MotionKind::Char { start: e, end: s, inclusive };
            let x = span_end(e, inclusive);
            &&& left_out(t, s, x, ops::taken(t, m).0)
            &&& cut_out(t, s, x, ops::taken(t, m).1)
            &&& ops::taken(t, back) == ops::taken(t, m)
        }),
{
    taking_cuts(t, s, span_end(e, inclusive));
}

/// Whole rows leave the text as they stand; where all of them do, an empty row is left.
pub proof fn rows_are_taken(t: Text, s: usize, e: usize)
    requires
        s <= e < t.len(),
    ensures
        ({
            let (rest, k) = ops::taken(t, MotionKind::Line { start: s, end: e, inclusive: true });
            &&& k == t.subrange(s as int, e + 1)
            &&& e + 1 - s < t.len() ==> rest == t.take(s as int) + t.skip(e + 1)
            &&& e + 1 - s == t.len() ==> rest == seq![Seq::<Seq<char>>::empty()]
        }),
{
    if e + 1 - s == t.len() {
        assert((t.take(s as int) + t.skip(e + 1)).len() == 0);
    }
}

/// A block takes the same columns out of each of its rows, as far as a row has them, and
/// leaves the other rows alone.
pub proof fn blocks_are_taken(t: Text, s: Pos, e: Pos, r: int, c: int)
    requires
        s.row <= e.row < t.len(),
        s.col <= e.col,
        0 <= r < t.len(),
        0 <= c < t[r].len(),
    ensures
        ({
            let (rest, k) = ops::taken(t, MotionKind::Block { start: s, end: e });
            &&& rest.len() == t.len() && k.len() == e.row - s.row + 1
            &&& !(s.row <= r <= e.row) ==> rest[r] == t[r]
            &&& s.row <= r <= e.row && c < s.col ==> rest[r].len() > c && rest[r][c] == t[r][c]
            &&& s.row <= r <= e.row && c > e.col ==> {
                let n = e.col - s.col + 1;
                0 <= c - n < rest[r].len() && rest[r][c - n] == t[r][c]
            }
            &&& s.row <= r <= e.row && s.col <= c <= e.col ==> {
                let row = k[r - s.row];
                0 <= c - s.col < row.len() && row[c - s.col] == t[r][c]
            }
            &&& s.row <= r <= e.row ==> rest[r].len() + k[r - s.row].len() == t[r].len()
        }),
{
}

/// A text with another put in at a place: of the row of the place the start goes before
/// the first of the new rows and the end behind the last.
pub open spec fn put_between(t: Text, p: Pos, k: Text, r: Text) -> bool {
    let row = p.row as int;
    let head = t[row].take(p.col as int);
    let tail = t[row].skip(p.col as int);
    let last = k.len() - 1;
    &&& r.len() == t.len() + last
    &&& forall|i: int| 0 <= i < row ==> #[trigger] r[i] == t[i]
    &&& forall|i: int| row + last < i < r.len() ==> #[trigger] r[i] == t[i - last]
    &&& last == 0 ==> r[row] == head + k[0] + tail
    &&& last > 0 ==> r[row] == head + k[0] && r[row + last] == k[last] + tail
    &&& forall|i: int| 0 < i < last ==> #[trigger] k[i] == r[row + i]
}

/// Putting in goes between what stands before the place and what stands behind it.
pub proof fn inserting_goes_between(t: Text, p: Pos, k: Text)
    requires
        word_laws::countable(t),
        cuttable(t, p),
        k.len() > 0,
    ensures
        put_between(t, p, k, lines::inserted(t, p, k)),
{
    let b = lines::before(t, p);
    let a = lines::after(t, p);
    assert(lines::inside(t, p) == p);
    let x = lines::attached(b, k);
    let r = lines::inserted(t, p, k);
    let row = p.row as int;
    let last = k.len() - 1;
    assert(b.len() == row + 1 && a.len() == t.len() - row);
    assert(x.len() == row + 1 + last);
    assert(x[row] == b.last() + k[0]);
    if last == 0 {
        assert(r[row] =~= b.last() + k[0] + a[0]);
    } else {
        assert(x.last() == k[last]);
        assert(r[row] == x[row]);
        assert(r[row + last] == x.last() + a[0]);
    }
    assert forall|i: int| 0 < i < last implies #[trigger] k[i] == r[row + i] by {
        assert(x[row + i] == k[i]);
    }
}

proof fn lemma_lines_put(t: Text, c: Pos, saved: Option<usize>, row: int, k: Text, n: nat)
    requires
        0 <= row <= t.len(),
        n <= k.len(),
    ensures
        verbs::lines_put(t, c, saved, row, k, n).0 == t.take(row) + k.take(n as int) + t.skip(row),
    decreases n,
{
    if n == 0 {
        assert(t.take(row) + k.take(0) + t.skip(row) =~= t);
    } else {
        lemma_lines_put(t, c, saved, row, k, (n - 1) as nat);
        let u = t.take(row) + k.take(n - 1) + t.skip(row);
        assert(u.insert(row + n - 1, k[n - 1]) =~= t.take(row) + k.take(n as int) + t.skip(row));
    }
}

/// Whole lines are put above the cursor's row by a put before and below it by a put after,
/// in their order, and the cursor goes to the last of them. Nothing else changes.
#[verifier::rlimit(60)]
pub proof fn lines_are_put_whole(
    a: LineBuf,
    b: LineBuf,
    cmd: EditCmd,
    height: usize,
    levels: Seq<(usize, usize)>,
    reg: RegisterContent,
    effect: Effect,
    anchor: Anchor,
    k: Text,
)
    requires
        exec::verb_done(a, b, cmd, height, levels, Some(reg), effect),
        verbs::verb_of(cmd) == Some(Verb::Put(anchor)),
        reg@ == register::Held::Line(k),
        k.len() > 0,
        a.text().len() + k.len() <= usize::MAX,
        a.cursor.pos.row < a.text().len(),
    ensures
        ({
            let t = a.text();
            let r = a.cursor.pos.row as int;
            let at = if anchor == Anchor::Before {
                r
            } else {
                r + 1
            };
            &&& b.text() == t.take(at) + k + t.skip(at)
            &&& b.cursor.pos.row == at + k.len() - 1
            &&& effect is Nothing
            &&& b == (LineBuf { lines: b.lines, cursor: b.cursor, ..a })
        }),
{
    let t = a.text();
    let r = a.cursor.pos.row as int;
    let at = if anchor == Anchor::Before {
        r
    } else {
        r + 1
    };
    lemma_lines_put(t, a.cursor.pos, a.saved_col, at, k, k.len());
    lemma_lines_put(t, a.cursor.pos, a.saved_col, at, k, (k.len() - 1) as nat);
    assert(k.take(k.len() as int) =~= k);
    reveal_with_fuel(verbs::lines_put, 2);
}

/// A stretch is put at the cursor by a put before, and behind the grapheme at the cursor
/// by a put after.
#[verifier::rlimit(60)]
pub proof fn stretches_are_put_at_the_cursor(
    a: LineBuf,
    b: LineBuf,
    cmd: EditCmd,
    height: usize,
    levels: Seq<(usize, usize)>,
    reg: RegisterContent,
    effect: Effect,
    anchor: Anchor,
    k: Text,
)
    requires
        exec::verb_done(a, b, cmd, height, levels, Some(reg), effect),
        verbs::verb_of(cmd) == Some(Verb::Put(anchor)),
        reg@ == register::Held::Span(k),
        k.len() > 0,
        word_laws::countable(a.text()),
        cuttable(a.text(), a.cursor.pos),
    ensures
        ({
            let p = a.cursor.pos;
            let at = if anchor == Anchor::After && p.col < a.text()[p.row as int].len() {
                Pos { row: p.row, col: (p.col + 1) as usize }
            } else {
                p
            };
            put_between(a.text(), at, k, b.text())
        }),
{
    let t = a.text();
    let p = a.cursor.pos;
    let at = if anchor == Anchor::After && p.col < t[p.row as int].len() {
        Pos { row: p.row, col: (p.col + 1) as usize }
    } else {
        p
    };
    inserting_goes_between(t, at, k);
}

/// Putting a register that holds neither lines nor a stretch changes nothing.
#[verifier::rlimit(60)]
pub proof fn other_registers_are_not_put(
    a: LineBuf,
    b: LineBuf,
    cmd: EditCmd,
    height: usize,
    levels: Seq<(usize, usize)>,
    reg: Option<RegisterContent>,
    effect: Effect,
    anchor: Anchor,
)
    requires
        exec::verb_done(a, b, cmd, height, levels, reg, effect),
        verbs::verb_of(cmd) == Some(Verb::Put(anchor)),
        reg matches Some(r) ==> !(r@ is Line) && !(r@ is Span),
    ensures
        b.text() == a.text(),
        b.cursor == a.cursor,
{
}

/// What a delete or a change takes out of the text goes to the register, and what a yank
/// copies does: whole rows as lines, a stretch as a stretch. A yank leaves the text.
#[verifier::rlimit(60)]
pub proof fn taking_fills_the_register(
    a: LineBuf,
    b: LineBuf,
    cmd: EditCmd,
    height: usize,
    levels: Seq<(usize, usize)>,
    reg: Option<RegisterContent>,
    effect: Effect,
    m: MotionKind,
)
    requires
        exec::verb_done(a, b, cmd, height, levels, reg, effect),
        verbs::verb_of(cmd) matches Some(v) && (v is Delete || v is Change || v is Yank),
        verbs::motion_of(a, cmd, height) == Some(m),
        verbs::text_seen(a.text(), a.hinted(), cmd) == a.text(),
    ensures
        effect matches Effect::Store(c) && match m {
            MotionKind::Char { start, end, inclusive } => runs(a.text(), start, end, inclusive)
                ==> (c@ matches register::Held::Span(k) && cut_out(
                a.text(),
                start,
                span_end(end, inclusive),
                k,
            )),
            MotionKind::Line { start, end, inclusive } => inclusive && start <= end < a.text().len()
                ==> c@ == register::Held::Line(a.text().subrange(start as int, end + 1)),
            MotionKind::Block { start, end } => c@ is Block,
        },
        verbs::verb_of(cmd) == Some(Verb::Yank) ==> b.text() == a.text(),
{
    match m {
        MotionKind::Char { start, end, inclusive } => {
            if runs(a.text(), start, end, inclusive) {
                spans_are_taken(a.text(), start, end, inclusive);
            }
        },
        MotionKind::Line { start, end, inclusive } => {
            if inclusive && start <= end < a.text().len() {
                rows_are_taken(a.text(), start, end);
            }
        },
        MotionKind::Block { start, end } => {},
    }
}

/// A delete of a stretch leaves it out of the text and puts the cursor where it began; so
/// does a change.
#[verifier::rlimit(60)]
pub proof fn stretches_are_deleted(
    a: LineBuf,
    b: LineBuf,
    cmd: EditCmd,
    height: usize,
    levels: Seq<(usize, usize)>,
    reg: Option<RegisterContent>,
    effect: Effect,
    s: Pos,
    e: Pos,
    inclusive: bool,
)
    requires
        exec::verb_done(a, b, cmd, height, levels, reg, effect),
        verbs::verb_of(cmd) matches Some(v) && (v is Delete || v is Change),
        verbs::motion_of(a, cmd, height) == Some(MotionKind::Char { start: s, end: e, inclusive })
            || verbs::motion_of(a, cmd, height) == Some(
            MotionKind::Char { start: e, end: s, inclusive },
        ),
        verbs::text_seen(a.text(), a.hinted(), cmd) == a.text(),
        runs(a.text(), s, e, inclusive),
    ensures
        left_out(a.text(), s, span_end(e, inclusive), b.text()),
        b.cursor.pos == s,
{
    spans_are_taken(a.text(), s, e, inclusive);
    let r = ops::taken(a.text(), MotionKind::Char { start: s, end: e, inclusive }).0;
    assert(r[s.row as int].len() >= s.col);
}

/// A delete of whole rows leaves them out of the text; the cursor stays at the row where
/// they began, as far as the text goes. A change leaves one row in their place.
#[verifier::rlimit(60)]
pub proof fn rows_are_deleted(
    a: LineBuf,
    b: LineBuf,
    cmd: EditCmd,
    height: usize,
    levels: Seq<(usize, usize)>,
    reg: Option<RegisterContent>,
    effect: Effect,
    s: usize,
    e: usize,
)
    requires
        exec::verb_done(a, b, cmd, height, levels, reg, effect),
        verbs::motion_of(a, cmd, height) == Some(
            MotionKind::Line { start: s, end: e, inclusive: true },
        ),
        verbs::text_seen(a.text(), a.hinted(), cmd) == a.text(),
        s <= e < a.text().len() <= usize::MAX,
        e + 1 - s < a.text().len(),
    ensures
        ({
            let t = a.text();
            let rest = t.take(s as int) + t.skip(e + 1);
            &&& verbs::verb_of(cmd) == Some(Verb::Delete) ==> {
                &&& b.text() == rest
                &&& b.cursor.pos.row == (if s < rest.len() {
                    s as int
                } else {
                    rest.len() - 1
                })
            }
            &&& verbs::verb_of(cmd) == Some(Verb::Change) && a.cursor.pos.row == s ==> {
                &&& b.text() == t.take(s as int).push(ops::tabs(ops::level_at(levels, 0).0 as nat))
                    + t.skip(e + 1)
                &&& b.cursor.pos.row == s
            }
        }),
{
    let t = a.text();
    rows_are_taken(t, s, e);
    let rest = t.take(s as int) + t.skip(e + 1);
    if verbs::verb_of(cmd) == Some(Verb::Change) && a.cursor.pos.row == s {
        let lv = ops::level_at(levels, 0).0;
        let u = rest.insert(s as int, Seq::<Seq<char>>::empty());
        assert(line::least(s as int, rest.len() as int) == s);
        assert(u[s as int] == Seq::<Seq<char>>::empty());
        let v = u.update(s as int, ops::tabs(lv as nat) + u[s as int]);
        assert(ops::tabs(lv as nat) + u[s as int] =~= ops::tabs(lv as nat));
        assert(v =~= t.take(s as int).push(ops::tabs(lv as nat)) + t.skip(e + 1));
        assert(b.text() == v);
    }
}

/// Lines that are deleted and put back before the cursor, where the cursor is left on the
/// row that they began at, are where they were.
pub proof fn deleted_lines_can_be_put_back(t: Text, s: usize, e: usize, c: Cursor, saved: Option<usize>)
    requires
        s <= e < t.len(),
        e + 1 - s < t.len(),
        c.pos.row == s,
    ensures
        ({
            let (rest, k) = ops::taken(t, MotionKind::Line { start: s, end: e, inclusive: true });
            verbs::put_result(rest, c, saved, Anchor::Before, Some(register::Held::Line(k))).0 == t
        }),
{
    rows_are_taken(t, s, e);
    let (rest, k) = ops::taken(t, MotionKind::Line { start: s, end: e, inclusive: true });
    lemma_lines_put(rest, c.pos, saved, s as int, k, k.len());
    assert(rest.take(s as int) =~= t.take(s as int));
    assert(rest.skip(s as int) =~= t.skip(e + 1));
    assert(k.take(k.len() as int) =~= k);
    assert(t.take(s as int) + k + t.skip(e + 1) =~= t);
}

/// A stretch that is deleted and put back before the cursor, where the cursor is left at
/// its begin, is where it was.
pub proof fn a_deleted_stretch_can_be_put_back(
    t: Text,
    s: Pos,
    e: Pos,
    inclusive: bool,
    c: Cursor,
    saved: Option<usize>,
)
    requires
        runs(t, s, e, inclusive),
        c.pos == s,
    ensures
        ({
            let (rest, k) = ops::taken(t, MotionKind::Char { start: s, end: e, inclusive });
            verbs::put_result(rest, c, saved, Anchor::Before, Some(register::Held::Span(k))).0 == t
        }),
{
    let x = span_end(e, inclusive);
    assert(lines::fits(t));
    lines::extract_then_insert(t, s, x);
    assert(lines::inside(t, s) == s);
}

/// A new line is opened below the cursor's by one behind it and above by one before it. It
/// holds the tabs that are asked for, and the cursor stands behind them.
#[verifier::rlimit(60)]
pub proof fn lines_are_opened(
    a: LineBuf,
    b: LineBuf,
    cmd: EditCmd,
    height: usize,
    levels: Seq<(usize, usize)>,
    reg: Option<RegisterContent>,
    effect: Effect,
    anchor: Anchor,
)
    requires
        exec::verb_done(a, b, cmd, height, levels, reg, effect),
        verbs::verb_of(cmd) == Some(Verb::InsertModeLineBreak(anchor)),
        a.cursor.pos.row < a.text().len() < usize::MAX,
    ensures
        ({
            let t = a.text();
            let at = if anchor == Anchor::Before {
                a.cursor.pos.row as int
            } else {
                a.cursor.pos.row + 1
            };
            let n = ops::level_at(levels, 0).0;
            &&& b.text().len() == t.len() + 1
            &&& b.text().take(at) == t.take(at) && b.text().skip(at + 1) == t.skip(at)
            &&& b.text()[at].len() == n
            &&& forall|i: int| 0 <= i < n ==> (#[trigger] b.text()[at][i]) == seq!['\t']
            &&& b.cursor.pos == (Pos { row: at as usize, col: n })
        }),
{
    let t = a.text();
    let at = if anchor == Anchor::Before {
        a.cursor.pos.row as int
    } else {
        a.cursor.pos.row + 1
    };
    assert(b.text().take(at) =~= t.take(at));
    assert(b.text().skip(at + 1) =~= t.skip(at));
}

/// Whether a place is covered by a span that goes forward.
pub open spec fn within(m: MotionKind, p: Pos) -> bool {
    match m {
        MotionKind::Char { start, end, inclusive } => !word_laws::prior(p, start) && (
        word_laws::prior(p, end) || (inclusive && p == end)),
        MotionKind::Line { start, end, inclusive } => start <= p.row && (if inclusive {
            p.row <= end
        } else {
            p.row < end
        }),
        MotionKind::Block { start, end } => false,
    }
}

/// The verbs that change letters change those of the span and no others: to upper case, to
/// lower case, to the other case, thirteen letters on, or to one character.
#[verifier::rlimit(60)]
pub proof fn letters_of_the_span_change(
    a: LineBuf,
    b: LineBuf,
    cmd: EditCmd,
    height: usize,
    levels: Seq<(usize, usize)>,
    reg: Option<RegisterContent>,
    effect: Effect,
    v: Verb,
    m: MotionKind,
    p: Pos,
)
    requires
        exec::verb_done(a, b, cmd, height, levels, reg, effect),
        verbs::verb_of(cmd) == Some(v),
        v is ToUpper || v is ToLower || v is ToggleCaseRange || v is Rot13 || v is ReplaceChar,
        verbs::motion_of(a, cmd, height) == Some(m),
        verbs::text_seen(a.text(), a.hinted(), cmd) == a.text(),
        m matches MotionKind::Char { start, end, inclusive } ==> !word_laws::prior(end, start),
        m matches MotionKind::Line { start, end, inclusive } ==> inclusive || end > 0,
        word_laws::on(a.text(), p),
    ensures
        ({
            let row = p.row as int;
            let col = p.col as int;
            let g = a.text()[row][col];
            let h = b.text()[row][col];
            &&& b.text().len() == a.text().len()
            &&& b.text()[row].len() == a.text()[row].len()
            &&& !within(m, p) ==> h == g
            &&& within(m, p) ==> match v {
                Verb::ReplaceChar(c) => h == seq![c],
                _ => if g.len() != 1 {
                    h == g
                } else {
                    &&& h.len() == 1
                    &&& !unicode::ascii_alpha(g[0]) ==> h[0] == g[0]
                    &&& v is ToUpper && unicode::ascii_lower(g[0]) ==> h[0] as u32 + 32 == g[0] as u32
                    &&& v is ToUpper && unicode::ascii_upper(g[0]) ==> h[0] == g[0]
                    &&& v is ToLower && unicode::ascii_upper(g[0]) ==> g[0] as u32 + 32 == h[0] as u32
                    &&& v is ToLower && unicode::ascii_lower(g[0]) ==> h[0] == g[0]
                    &&& v is ToggleCaseRange && unicode::ascii_lower(g[0]) ==> h[0] as u32 + 32
                        == g[0] as u32
                    &&& v is ToggleCaseRange && unicode::ascii_upper(g[0]) ==> g[0] as u32 + 32
                        == h[0] as u32
                    &&& v is Rot13 && unicode::ascii_alpha(g[0]) ==> (h[0] as u32 == g[0] as u32
                        + 13 || h[0] as u32 + 13 == g[0] as u32) && (unicode::ascii_lower(g[0])
                        <==> unicode::ascii_lower(h[0])) && (unicode::ascii_upper(g[0])
                        <==> unicode::ascii_upper(h[0]))
                },
            }
        }),
{
    let how = match v {
        Verb::ToUpper => Recase::Upper,
        Verb::ToLower => Recase::Lower,
        Verb::ToggleCaseRange => Recase::Toggle,
        Verb::Rot13 => Recase::Rot13,
        Verb::ReplaceChar(c) => Recase::Replace(c),
        _ => Recase::Upper,
    };
    let row = p.row as int;
    let col = p.col as int;
    assert(b.text() == ops::recast_text(a.text(), m, how));
    assert(ops::covers(m, row, col) == within(m, p));
}

/// An indent puts one tab before each row of the span, a dedent takes one from each that
/// has one, and no other row changes.
#[verifier::rlimit(60)]
pub proof fn rows_are_indented(
    a: LineBuf,
    b: LineBuf,
    cmd: EditCmd,
    height: usize,
    levels: Seq<(usize, usize)>,
    reg: Option<RegisterContent>,
    effect: Effect,
    s: usize,
    e: usize,
    inclusive: bool,
    r: int,
)
    requires
        exec::verb_done(a, b, cmd, height, levels, reg, effect),
        verbs::verb_of(cmd) matches Some(v) && (v is Indent || v is Dedent),
        verbs::motion_of(a, cmd, height) == Some(MotionKind::Line { start: s, end: e, inclusive }),
        verbs::text_seen(a.text(), a.hinted(), cmd) == a.text(),
        s <= e,
        0 <= r < a.text().len(),
    ensures
        ({
            let row = a.text()[r];
            let new = b.text()[r];
            &&& b.text().len() == a.text().len()
            &&& !(s <= r <= e) ==> new == row
            &&& s <= r <= e && verbs::verb_of(cmd) == Some(Verb::Indent) ==> new.len()
                == row.len() + 1 && new[0] == seq!['\t'] && new.skip(1) == row
            &&& s <= r <= e && verbs::verb_of(cmd) == Some(Verb::Dedent) ==> if row.len() > 0
                && row[0] == seq!['\t'] {
                new == row.skip(1)
            } else {
                new == row
            }
        }),
{
    let row = a.text()[r];
    if s <= r <= e && verbs::verb_of(cmd) == Some(Verb::Indent) {
        assert((seq![seq!['\t']] + row).skip(1) =~= row);
    }
}

/// A dedent takes back what an indent put in.
pub proof fn a_dedent_undoes_an_indent(t: Text, s: int, e: int)
    ensures
        ops::dedented(ops::indented(t, s, e), s, e) == t,
{
    let u = ops::indented(t, s, e);
    assert forall|r: int| 0 <= r < t.len() implies (#[trigger] ops::dedented(u, s, e)[r])
        == t[r] by {
        if s <= r <= e {
            assert(u[r][0] == seq!['\t']);
            assert(u[r].skip(1) =~= t[r]);
        }
    }
    assert(ops::dedented(u, s, e) =~= t);
}

/// Joining a row to the next makes one of the two: the first stays as it is, the
/// whitespace before the second goes, and a blank comes between them where neither is
/// empty and the first does not end with whitespace.
pub proof fn rows_are_joined(t: Text, row: int, w: int)
    requires
        0 <= row,
        row + 1 < t.len(),
        0 <= w <= t[row + 1].len(),
        forall|i: int| 0 <= i < w ==> line::is_space(#[trigger] t[row + 1][i]),
        w < t[row + 1].len() ==> !line::is_space(t[row + 1][w]),
    ensures
        ({
            let r = ops::joined_once(t, row);
            let a = t[row];
            let b = t[row + 1].skip(w);
            &&& r.len() == t.len() - 1
            &&& r.take(row) == t.take(row) && r.skip(row + 1) == t.skip(row + 2)
            &&& if a.len() > 0 && b.len() > 0 && !line::is_space(a.last()) {
                r[row] == a.push(seq![' ']) + b
            } else {
                r[row] == a + b
            }
        }),
{
    let r = ops::joined_once(t, row);
    lemma_trimmed(t[row + 1], w);
    assert(r.take(row) =~= t.take(row));
    assert(r.skip(row + 1) =~= t.skip(row + 2));
    let a = t[row];
    let b = t[row + 1].skip(w);
    assert(a + (seq![seq![' ']] + b) =~= a.push(seq![' ']) + b);
}

proof fn lemma_trimmed(row: Row, w: int)
    requires
        0 <= w <= row.len(),
        forall|i: int| 0 <= i < w ==> line::is_space(#[trigger] row[i]),
        w < row.len() ==> !line::is_space(row[w]),
    ensures
        line::trimmed_start(row) == row.skip(w),
    decreases w,
{
    if w > 0 {
        assert(line::is_space(row[0]));
        let s = row.skip(1);
        assert forall|i: int| 0 <= i < w - 1 implies line::is_space(#[trigger] s[i]) by {
            assert(s[i] == row[i + 1]);
        }
        lemma_trimmed(s, w - 1);
        assert(s.skip(w - 1) =~= row.skip(w));
    } else {
        assert(row.skip(0) =~= row);
    }
}

/// A join counts: it makes one row of the cursor's and as many others as it is made
/// times, as far as the text goes.
pub proof fn joins_are_counted(t: Text, cur: Pos, row: int, n: nat)
    requires
        0 <= row < t.len(),
    ensures
        ops::joined_rows(t, cur, row, n).0.len() == (if row + n < t.len() {
            t.len() - n
        } else {
            row + 1
        }),
        ops::joined_rows(t, cur, row, n).0.take(row) == t.take(row),
    decreases n,
{
    if n > 0 && row + 1 < t.len() {
        let u = ops::joined_once(t, row);
        joins_are_counted(
            u,
            Pos { row: row as usize, col: t[row].len() as usize },
            row,
            (n - 1) as nat,
        );
        assert(u.take(row) =~= t.take(row));
    }
}

/// A character that is typed stands at the place where it was typed, before what stood
/// there, where the indentation does not change; a linefeed breaks the row there.
pub proof fn typing_puts_in(t: Text, cur: Pos, g: Seq<char>, level: usize)
    requires
        word_laws::countable(t),
        t.len() < usize::MAX,
        cuttable(t, cur),
    ensures
        ({
            let row = cur.row as int;
            let head = t[row].take(cur.col as int);
            let tail = t[row].skip(cur.col as int);
            let (r, p) = ops::put_in(t, cur, cur, g, (level, level));
            &&& r.take(row) == t.take(row)
            &&& if g == seq!['\n'] {
                &&& r.len() == t.len() + 1
                &&& r[row] == head
                &&& r[row + 1] == ops::tabs(level as nat) + tail
                &&& r.skip(row + 2) == t.skip(row + 1)
                &&& p == (Pos { row: (row + 1) as usize, col: level })
            } else {
                &&& r.len() == t.len()
                &&& r[row] == head.push(g) + tail
                &&& r.skip(row + 1) == t.skip(row + 1)
                &&& p == cur
            }
        }),
{
    let row = cur.row as int;
    let (r, p) = ops::put_in(t, cur, cur, g, (level, level));
    assert(lines::inside(t, cur) == cur);
    assert(r.take(row) =~= t.take(row));
    if g == seq!['\n'] {
        assert(r.skip(row + 2) =~= t.skip(row + 1));
    } else {
        assert(r[row] =~= t[row].take(cur.col as int).push(g) + t[row].skip(cur.col as int));
        assert(r.skip(row + 1) =~= t.skip(row + 1));
    }
}

/// A return breaks the row at the cursor, and the cursor goes to the start of the new row,
/// behind its tabs.
#[verifier::rlimit(60)]
pub proof fn a_return_breaks_the_row(
    a: LineBuf,
    b: LineBuf,
    cmd: EditCmd,
    height: usize,
    levels: Seq<(usize, usize)>,
    reg: Option<RegisterContent>,
    effect: Effect,
)
    requires
        exec::verb_done(a, b, cmd, height, levels, reg, effect),
        verbs::verb_of(cmd) == Some(Verb::AcceptLineOrNewline),
        word_laws::countable(a.text()),
        cuttable(a.text(), a.cursor.pos),
        a.text().len() < usize::MAX,
    ensures
        ({
            let t = a.text();
            let row = a.cursor.pos.row as int;
            let col = a.cursor.pos.col as int;
            let n = ops::level_at(levels, 0).1;
            &&& b.text().len() == t.len() + 1
            &&& b.text().take(row) == t.take(row)
            &&& b.text()[row] == t[row].take(col)
            &&& b.text()[row + 1] == ops::tabs(n as nat) + t[row].skip(col)
            &&& b.text().skip(row + 2) == t.skip(row + 1)
            &&& b.cursor.pos == (Pos { row: (row + 1) as usize, col: n })
        }),
{
    let t = a.text();
    let row = a.cursor.pos.row as int;
    assert(lines::inside(t, a.cursor.pos) == a.cursor.pos);
    assert(b.text().take(row) =~= t.take(row));
    assert(b.text().skip(row + 2) =~= t.skip(row + 1));
}

/// A replaced character gives way to the new one, and no other changes.
#[verifier::rlimit(60)]
pub proof fn one_character_is_replaced(
    a: LineBuf,
    b: LineBuf,
    cmd: EditCmd,
    height: usize,
    levels: Seq<(usize, usize)>,
    reg: Option<RegisterContent>,
    effect: Effect,
    ch: char,
)
    requires
        exec::verb_done(a, b, cmd, height, levels, reg, effect),
        verbs::verb_of(cmd) == Some(Verb::ReplaceCharInplace(ch, 1)),
        word_laws::on(a.text(), a.cursor.pos),
    ensures
        ({
            let row = a.cursor.pos.row as int;
            let col = a.cursor.pos.col as int;
            &&& b.text() == a.text().update(row, a.text()[row].update(col, seq![ch]))
            &&& b.cursor.pos == a.cursor.pos
        }),
{
}

/// The motion of a command without a verb takes the cursor to the end of its span, or to
/// the first row of a span of rows; the text stays where no hint is there to be taken.
#[verifier::rlimit(60)]
pub proof fn motions_move_the_cursor(
    a: LineBuf,
    b: LineBuf,
    cmd: EditCmd,
    height: usize,
    levels: Seq<(usize, usize)>,
    reg: Option<RegisterContent>,
    effect: Effect,
    m: MotionKind,
)
    requires
        exec::verb_done(a, b, cmd, height, levels, reg, effect),
        verbs::verb_of(cmd) is None,
        verbs::motion_of(a, cmd, height) == Some(m),
        verbs::text_seen(a.text(), a.hinted(), cmd) == a.text(),
        a.hinted() is None,
    ensures
        b.text() == a.text(),
        m matches MotionKind::Char { start, end, inclusive } ==> (cuttable(a.text(), end)
            ==> b.cursor.pos == end),
        m matches MotionKind::Line { start, end, inclusive } ==> (start < a.text().len()
            ==> b.cursor.pos.row == start),
        effect is Nothing,
{
}

/// An increment adds to the number at the cursor and a decrement takes away: the sum is
/// typed where the number stood. Where there is no sum, nothing changes.
#[verifier::rlimit(60)]
pub proof fn numbers_are_added_to(
    a: LineBuf,
    b: LineBuf,
    cmd: EditCmd,
    height: usize,
    levels: Seq<(usize, usize)>,
    reg: Option<RegisterContent>,
    effect: Effect,
    n: u16,
    up: bool,
    s: Pos,
    e: Pos,
    rest: Text,
    word: Text,
)
    requires
        exec::verb_done(a, b, cmd, height, levels, reg, effect),
        verbs::verb_of(cmd) == Some(
            if up {
                Verb::IncrementNumber(n)
            } else {
                Verb::DecrementNumber(n)
            },
        ),
        verbs::number_of(a) == Some((s, e)),
        runs(a.text(), s, e, true),
        left_out(a.text(), s, span_end(e, true), rest),
        cut_out(a.text(), s, span_end(e, true), word),
    ensures
        ({
            let by = if up {
                n as int
            } else {
                -(n as int)
            };
            match numbers::added(lines::text_chars(word), by) {
                None => b == a,
                Some(x) => {
                    let gs = unicode::clusters(x);
                    b.text() == ops::typed_all(rest, s, gs, levels, gs.len()).0
                },
            }
        }),
{
    let m = MotionKind::Char { start: s, end: e, inclusive: true };
    spans_are_taken(a.text(), s, e, true);
    assert(ops::taken(a.text(), m).0 =~= rest);
    assert(ops::taken(a.text(), m).1 =~= word);
    assert(rest[s.row as int].len() >= s.col);
    assert(words::bounded(rest, s, false) == s);
}

/// Rows that are selected are joined from the first of them on, once for each; without a
/// selection the row of the cursor is, as often as counted.
pub proof fn joins_begin_with_the_first_row(
    a: LineBuf,
    cmd: EditCmd,
    height: usize,
    start: usize,
    end: usize,
)
    requires
        start <= end,
        end - start < usize::MAX,
    ensures
        a.select_mode is Some && verbs::motion_of(a, cmd, height) == Some(
            MotionKind::Line { start, end, inclusive: true },
        ) ==> verbs::join_range(a, cmd, height) == (start as int, (end - start + 1) as nat),
        a.select_mode is Some && verbs::motion_of(a, cmd, height) == Some(
            MotionKind::Line { start: end, end: start, inclusive: true },
        ) ==> verbs::join_range(a, cmd, height) == (start as int, (end - start + 1) as nat),
        a.select_mode is None && cmd.motion is Some ==> verbs::join_range(a, cmd, height) == (
            a.cursor.pos.row as int,
            (cmd.motion->0).0 as nat,
        ),
        a.select_mode is None && cmd.motion is None ==> verbs::join_range(a, cmd, height) == (
            a.cursor.pos.row as int,
            1nat,
        ),
{
}

} // verus!
