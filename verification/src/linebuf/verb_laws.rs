//! What the rest of the verbs make of a buffer: killing and putting back, typing,
//! changing places, and going back in time.

use crate::editcmd::Anchor;
use crate::editcmd::EditCmd;
use crate::editcmd::Motion;
use crate::editcmd::Verb;
use crate::linebuf::bang;
use crate::linebuf::buffer;
use crate::linebuf::buffer::LineBuf;
use crate::linebuf::buffer::MAX_KILL_RING;
use crate::linebuf::edit_laws;
use crate::linebuf::exec;
use crate::linebuf::line;
use crate::linebuf::lines;
use crate::linebuf::lines::Text;
use crate::linebuf::motion;
use crate::linebuf::ops;
use crate::linebuf::ops::Recase;
use crate::linebuf::pos::Cursor;
use crate::linebuf::pos::MotionKind;
use crate::linebuf::pos::Pos;
use crate::linebuf::pos::SelectMode;
use crate::linebuf::scan;
use crate::linebuf::verbs;
use crate::linebuf::verbs::Effect;
use crate::linebuf::word_laws;
use crate::linebuf::words;
use crate::register;
use crate::register::RegisterContent;
use crate::text;
use crate::unicode;
use vstd::prelude::*;

verus! {

/// A kill leaves a stretch out of the text and keeps it as the newest kill; a kill that
/// follows another goes on from that one. The oldest is forgotten where there are too many.
#[verifier::rlimit(60)]
#[verifier::spinoff_prover]
pub proof fn killed_text_is_kept(
    a: LineBuf,
    b: LineBuf,
    cmd: EditCmd,
    height: usize,
    levels: Seq<(usize, usize)>,
    reg: Option<RegisterContent>,
    effect: Effect,
    s: Pos,
    e: Pos,
    inclusive: bool,
    k: Text,
)
    requires
        exec::verb_done(a, b, cmd, height, levels, reg, effect),
        verbs::verb_of(cmd) == Some(Verb::Kill),
        verbs::motion_of(a, cmd, height) == Some(MotionKind::Char { start: s, end: e, inclusive })
            || verbs::motion_of(a, cmd, height) == Some(
            MotionKind::Char { start: e, end: s, inclusive },
        ),
        verbs::text_seen(a.text(), a.hinted(), cmd) == a.text(),
        edit_laws::runs(a.text(), s, e, inclusive),
        edit_laws::cut_out(a.text(), s, edit_laws::span_end(e, inclusive), k),
    ensures
        edit_laws::left_out(a.text(), s, edit_laws::span_end(e, inclusive), b.text()),
        b.kill_ring.merging,
        a.kill_ring.merging && a.kill_ring@.len() > 0 ==> b.kill_ring@
            == a.kill_ring@.drop_last().push(a.kill_ring@.last() + k),
        !a.kill_ring.merging && (k.len() > 1 || k[0].len() > 0) ==> {
            &&& b.kill_ring@.len() > 0 && b.kill_ring@.last() == k
            &&& a.kill_ring@.len() < MAX_KILL_RING ==> b.kill_ring@ == a.kill_ring@.push(k)
            &&& a.kill_ring@.len() == MAX_KILL_RING ==> b.kill_ring@ == a.kill_ring@.skip(1).push(k)
        },
        !a.kill_ring.merging && k.len() == 1 && k[0].len() == 0 ==> b.kill_ring@ == a.kill_ring@,
{
    edit_laws::spans_are_taken(a.text(), s, e, inclusive);
    let m = MotionKind::Char { start: s, end: e, inclusive };
    assert(ops::taken(a.text(), m).1 =~= k);
    assert(a.kill_ring@.len() == MAX_KILL_RING ==> a.kill_ring@.push(k).skip(1)
        =~= a.kill_ring@.skip(1).push(k));
}

/// The newest kill comes back at the cursor; asked again, the one before it, and behind
/// the oldest the newest again.
#[verifier::rlimit(60)]
pub proof fn kills_come_back(
    a: LineBuf,
    b: LineBuf,
    cmd: EditCmd,
    height: usize,
    levels: Seq<(usize, usize)>,
    reg: Option<RegisterContent>,
    effect: Effect,
    i: int,
)
    requires
        exec::verb_done(a, b, cmd, height, levels, reg, effect),
        verbs::verb_of(cmd) == Some(Verb::KillPut),
        word_laws::countable(a.text()),
        edit_laws::cuttable(a.text(), a.cursor.pos),
        0 < a.kill_ring@.len() <= usize::MAX,
        match a.kill_ring.selected {
            None => i == a.kill_ring@.len() - 1,
            Some(j) => j < a.kill_ring@.len() && (if j == 0 {
                i == a.kill_ring@.len() - 1
            } else {
                i == j - 1
            }),
        },
        a.kill_ring@[i].len() > 0,
    ensures
        edit_laws::put_between(a.text(), a.cursor.pos, a.kill_ring@[i], b.text()),
        b.kill_ring@ == a.kill_ring@,
        b.kill_ring.selected == Some(i as usize),
{
    edit_laws::inserting_goes_between(a.text(), a.cursor.pos, a.kill_ring@[i]);
}

/// An undo gives back the text and the cursor that the last edit began with, a redo those
/// that the last edit that was undone ended with. Without an edit nothing changes.
#[verifier::rlimit(60)]
pub proof fn undo_and_redo_go_through_the_edits(
    a: LineBuf,
    b: LineBuf,
    cmd: EditCmd,
    height: usize,
    levels: Seq<(usize, usize)>,
    reg: Option<RegisterContent>,
    effect: Effect,
)
    requires
        exec::verb_done(a, b, cmd, height, levels, reg, effect),
    ensures
        verbs::verb_of(cmd) == Some(Verb::Undo) ==> if a.undo_stack@.len() == 0 {
            b == a
        } else {
            let e = a.undo_stack@[a.undo_stack@.len() - 1];
            &&& b.text() == lines::text(e.old@)
            &&& b.cursor.pos == e.old_cursor
            &&& b.undo_stack@ == a.undo_stack@.take(a.undo_stack@.len() - 1)
            &&& b.redo_stack@ == a.redo_stack@.push(e)
        },
        verbs::verb_of(cmd) == Some(Verb::Redo) ==> if a.redo_stack@.len() == 0 {
            b == a
        } else {
            let e = a.redo_stack@[a.redo_stack@.len() - 1];
            &&& b.text() == lines::text(e.new@)
            &&& b.cursor.pos == e.new_cursor
            &&& b.redo_stack@ == a.redo_stack@.take(a.redo_stack@.len() - 1)
            &&& b.undo_stack@ == a.undo_stack@.push(e)
        },
{
}

/// Whether no character that is typed takes from the indentation.
pub open spec fn steady(levels: Seq<(usize, usize)>) -> bool {
    forall|i: int| 0 <= i < levels.len() ==> (#[trigger] levels[i]).0 <= levels[i].1
}

proof fn lemma_typed_row(
    t: Text,
    p: Pos,
    gs: Seq<Seq<char>>,
    levels: Seq<(usize, usize)>,
    n: nat,
)
    requires
        word_laws::countable(t),
        edit_laws::cuttable(t, p),
        steady(levels),
        n <= gs.len(),
        p.col + gs.len() < usize::MAX,
        t[p.row as int].len() + gs.len() < usize::MAX,
        forall|i: int| 0 <= i < gs.len() ==> (#[trigger] gs[i]) != seq!['\n'],
    ensures
        ops::typed_all(t, p, gs, levels, n) == (
            t.update(
                p.row as int,
                t[p.row as int].take(p.col as int) + gs.take(n as int) + t[p.row as int].skip(
                    p.col as int,
                ),
            ),
            Pos { row: p.row, col: (p.col + n) as usize },
        ),
    decreases n,
{
    let row = p.row as int;
    let head = t[row].take(p.col as int);
    let tail = t[row].skip(p.col as int);
    if n == 0 {
        assert(head + gs.take(0) + tail =~= t[row]);
        assert(t.update(row, t[row]) =~= t);
    } else {
        lemma_typed_row(t, p, gs, levels, (n - 1) as nat);
        let t1 = t.update(row, head + gs.take(n - 1) + tail);
        let c1 = Pos { row: p.row, col: (p.col + (n - 1)) as usize };
        assert(t1[row].len() == t[row].len() + n - 1);
        assert(lines::inside(t1, c1) == c1);
        assert(t1[row].insert(c1.col as int, gs[n - 1]) =~= head + gs.take(n as int) + tail);
        assert(t1.update(row, head + gs.take(n as int) + tail) =~= t.update(
            row,
            head + gs.take(n as int) + tail,
        ));
    }
}

/// A text without linefeeds that is put in goes in at the cursor as it is, and the cursor
/// goes behind it.
#[verifier::rlimit(60)]
pub proof fn inserted_text_stands_at_the_cursor(
    a: LineBuf,
    b: LineBuf,
    cmd: EditCmd,
    height: usize,
    levels: Seq<(usize, usize)>,
    reg: Option<RegisterContent>,
    effect: Effect,
    s: String,
)
    requires
        exec::verb_done(a, b, cmd, height, levels, reg, effect),
        verbs::verb_of(cmd) == Some(Verb::Insert(s)),
        word_laws::countable(a.text()),
        edit_laws::cuttable(a.text(), a.cursor.pos),
        steady(levels),
        a.cursor.pos.col + unicode::clusters(s@).len() < usize::MAX,
        a.text()[a.cursor.pos.row as int].len() + unicode::clusters(s@).len() < usize::MAX,
        forall|i: int|
            0 <= i < unicode::clusters(s@).len() ==> (#[trigger] unicode::clusters(s@)[i])
                != seq!['\n'],
    ensures
        ({
            let gs = unicode::clusters(s@);
            let p = a.cursor.pos;
            let row = a.text()[p.row as int];
            &&& b.text() == a.text().update(
                p.row as int,
                row.take(p.col as int) + gs + row.skip(p.col as int),
            )
            &&& b.cursor.pos == (Pos { row: p.row, col: (p.col + gs.len()) as usize })
        }),
{
    let gs = unicode::clusters(s@);
    lemma_typed_row(a.text(), a.cursor.pos, gs, levels, gs.len());
    assert(gs.take(gs.len() as int) =~= gs);
}

/// A character that is typed stands at the cursor, before what stood there.
#[verifier::rlimit(60)]
pub proof fn a_typed_character_stands_at_the_cursor(
    a: LineBuf,
    b: LineBuf,
    cmd: EditCmd,
    height: usize,
    levels: Seq<(usize, usize)>,
    reg: Option<RegisterContent>,
    effect: Effect,
    ch: char,
)
    requires
        exec::verb_done(a, b, cmd, height, levels, reg, effect),
        verbs::verb_of(cmd) == Some(Verb::InsertChar(ch)),
        ch != '\n',
        a.hint is None,
        word_laws::countable(a.text()),
        edit_laws::cuttable(a.text(), a.cursor.pos),
        steady(levels),
        cmd.motion matches Some(m) ==> !(m.1 is ToBracket) && !(m.1 is ToParen) && !(
        m.1 is ToBrace),
    ensures
        ({
            let p = a.cursor.pos;
            let row = a.text()[p.row as int];
            b.text() == a.text().update(
                p.row as int,
                row.take(p.col as int) + seq![seq![ch]] + row.skip(p.col as int),
            )
        }),
{
    let p = a.cursor.pos;
    let row = a.text()[p.row as int];
    assert(lines::inside(a.text(), p) == p);
    assert(seq![ch] != seq!['\n']) by {
        assert(seq![ch][0] != seq!['\n'][0]);
    }
    assert(row.insert(p.col as int, seq![ch]) =~= row.take(p.col as int) + seq![seq![ch]]
        + row.skip(p.col as int));
}

/// The grapheme before the cursor changes places with the one at it, and the cursor goes
/// behind both.
pub proof fn characters_change_places(t: Text, c: Pos, lv: (usize, usize))
    requires
        word_laws::countable(t),
        c.row < t.len(),
        0 < c.col < t[c.row as int].len(),
        lv.0 <= lv.1,
        t[c.row as int][c.col - 1] != seq!['\n'],
    ensures
        ({
            let row = t[c.row as int];
            let i = c.col as int;
            let (r, p) = verbs::chars_transposed(t, c, lv);
            &&& r == t.update(c.row as int, row.update(i - 1, row[i]).update(i, row[i - 1]))
            &&& p == (Pos { row: c.row, col: (c.col + 1) as usize })
        }),
{
    let row = t[c.row as int];
    let i = c.col as int;
    let t1 = t.update(c.row as int, row.remove(i - 1));
    assert(lines::inside(t1, c) == c);
    assert(row.remove(i - 1).insert(i, row[i - 1]) =~= row.update(i - 1, row[i]).update(
        i,
        row[i - 1],
    ));
    let r = verbs::chars_transposed(t, c, lv).0;
    assert(r =~= t.update(c.row as int, row.update(i - 1, row[i]).update(i, row[i - 1])));
}

proof fn lemma_between_row(t: Text, r: int, a: int, b: int)
    requires
        word_laws::countable(t),
        0 <= r < t.len(),
        0 <= a <= b <= t[r].len(),
    ensures
        ({
            let s = Pos { row: r as usize, col: a as usize };
            let e = Pos { row: r as usize, col: b as usize };
            &&& lines::between(t, s, e) == seq![t[r].subrange(a, b)]
            &&& lines::without(t, s, e) == t.update(r, t[r].take(a) + t[r].skip(b))
        }),
{
    let s = Pos { row: r as usize, col: a as usize };
    let e = Pos { row: r as usize, col: b as usize };
    edit_laws::taking_cuts(t, s, e);
    assert(lines::between(t, s, e) =~= seq![t[r].subrange(a, b)]);
    assert(lines::without(t, s, e) =~= t.update(r, t[r].take(a) + t[r].skip(b)));
}

proof fn lemma_inserted_row(t: Text, r: int, a: int, w: Seq<Seq<char>>)
    requires
        word_laws::countable(t),
        0 <= r < t.len(),
        0 <= a <= t[r].len(),
    ensures
        lines::inserted(t, Pos { row: r as usize, col: a as usize }, seq![w]) == t.update(
            r,
            t[r].take(a) + w + t[r].skip(a),
        ),
{
    let p = Pos { row: r as usize, col: a as usize };
    edit_laws::inserting_goes_between(t, p, seq![w]);
    assert(lines::inserted(t, p, seq![w]) =~= t.update(r, t[r].take(a) + w + t[r].skip(a)));
}

proof fn lemma_exchanged(t: Text, r: int, a: int, b: int, w: Seq<Seq<char>>)
    requires
        word_laws::countable(t),
        0 <= r < t.len(),
        0 <= a <= b <= t[r].len(),
    ensures
        ({
            let s = Pos { row: r as usize, col: a as usize };
            let e = Pos { row: r as usize, col: b as usize };
            &&& lines::between(t, s, e) == seq![t[r].subrange(a, b)]
            &&& lines::inserted(lines::without(t, s, e), s, seq![w]) == t.update(
                r,
                t[r].take(a) + w + t[r].skip(b),
            )
        }),
{
    lemma_between_row(t, r, a, b);
    let row = t[r];
    let u = t.update(r, row.take(a) + row.skip(b));
    assert(word_laws::countable(u));
    lemma_inserted_row(u, r, a, w);
    assert(u[r].take(a) =~= row.take(a));
    assert(u[r].skip(a) =~= row.skip(b));
    assert(u.update(r, row.take(a) + w + row.skip(b)) =~= t.update(
        r,
        row.take(a) + w + row.skip(b),
    ));
}

#[verifier::rlimit(40)]
proof fn lemma_swapped(
    t: Text,
    r: int,
    x: Seq<Seq<char>>,
    prev: Seq<Seq<char>>,
    y: Seq<Seq<char>>,
    this: Seq<Seq<char>>,
    z: Seq<Seq<char>>,
)
    requires
        word_laws::countable(t),
        0 <= r < t.len(),
        t[r] == x + prev + y + this + z,
        t[r].len() + this.len() + prev.len() < usize::MAX,
    ensures
        ({
            let a2 = Pos { row: r as usize, col: x.len() as usize };
            let b2 = Pos { row: r as usize, col: (x.len() + prev.len()) as usize };
            let a1 = Pos { row: r as usize, col: (x.len() + prev.len() + y.len()) as usize };
            let b1 = Pos {
                row: r as usize,
                col: (x.len() + prev.len() + y.len() + this.len()) as usize,
            };
            let w1 = lines::between(t, a1, b1);
            let w2 = lines::between(t, a2, b2);
            let t1 = lines::inserted(lines::without(t, a1, b1), a1, w2);
            lines::inserted(lines::without(t1, a2, b2), a2, w1) == t.update(
                r,
                x + this + y + prev + z,
            )
        }),
{
    let row = t[r];
    let a2 = x.len() as int;
    let b2 = a2 + prev.len();
    let a1 = b2 + y.len();
    let b1 = a1 + this.len();
    lemma_exchanged(t, r, a1, b1, prev);
    lemma_between_row(t, r, a2, b2);
    assert(row.subrange(a1, b1) =~= this);
    assert(row.subrange(a2, b2) =~= prev);
    let row1 = x + prev + y + prev + z;
    assert(row.take(a1) + prev + row.skip(b1) =~= row1) by {
        assert(row.take(a1) =~= x + prev + y);
        assert(row.skip(b1) =~= z);
    }
    let t1 = t.update(r, row1);
    assert(word_laws::countable(t1));
    lemma_exchanged(t1, r, a2, b2, this);
    let row2 = x + this + y + prev + z;
    assert(row1.take(a2) + this + row1.skip(b2) =~= row2) by {
        assert(row1.take(a2) =~= x);
        assert(row1.skip(b2) =~= y + prev + z);
    }
    assert(t1.update(r, row2) =~= t.update(r, row2));
}

/// Two words of a row that change places leave what is between and around them where it
/// was: the second stands first, and the first second.
pub proof fn words_change_places(
    t: Text,
    c: Cursor,
    r: int,
    x: Seq<Seq<char>>,
    prev: Seq<Seq<char>>,
    y: Seq<Seq<char>>,
    this: Seq<Seq<char>>,
    z: Seq<Seq<char>>,
)
    requires
        word_laws::countable(t),
        0 <= r < t.len(),
        t[r] == x + prev + y + this + z,
        t[r].len() + this.len() + prev.len() < usize::MAX,
        prev.len() > 0,
        !verbs::on_space(t, c.pos),
        verbs::word_at(t, c.pos) == Some(
            (
                Pos { row: r as usize, col: (x.len() + prev.len() + y.len()) as usize },
                Pos {
                    row: r as usize,
                    col: (x.len() + prev.len() + y.len() + this.len()) as usize,
                },
            ),
        ),
        verbs::word_at(
            t,
            verbs::word_target(t, c, 2, crate::editcmd::Direction::Backward),
        ) == Some(
            (
                Pos { row: r as usize, col: x.len() as usize },
                Pos { row: r as usize, col: (x.len() + prev.len()) as usize },
            ),
        ),
    ensures
        verbs::words_transposed(t, c) matches Some((t2, _)) && t2 == t.update(
            r,
            x + this + y + prev + z,
        ),
{
    lemma_swapped(t, r, x, prev, y, this, z);
}

/// The case of the letter at the cursor changes, no other grapheme does, and the cursor
/// goes on by one.
#[verifier::rlimit(60)]
pub proof fn a_letter_changes_its_case(
    a: LineBuf,
    b: LineBuf,
    cmd: EditCmd,
    height: usize,
    levels: Seq<(usize, usize)>,
    reg: Option<RegisterContent>,
    effect: Effect,
)
    requires
        exec::verb_done(a, b, cmd, height, levels, reg, effect),
        verbs::verb_of(cmd) == Some(Verb::ToggleCaseInplace(1)),
        word_laws::on(a.text(), a.cursor.pos),
        a.cursor.pos.col < usize::MAX,
    ensures
        ({
            let p = a.cursor.pos;
            let g = a.text()[p.row as int][p.col as int];
            let h = b.text()[p.row as int][p.col as int];
            &&& b.text() == a.text().update(
                p.row as int,
                a.text()[p.row as int].update(p.col as int, h),
            )
            &&& h.len() == g.len()
            &&& g.len() == 1 && 'a' <= g[0] <= 'z' ==> h[0] as u32 + 32 == g[0] as u32
            &&& g.len() == 1 && 'A' <= g[0] <= 'Z' ==> g[0] as u32 + 32 == h[0] as u32
            &&& g.len() != 1 || !unicode::ascii_alpha(g[0]) ==> h == g
            &&& b.cursor.pos == (Pos { row: p.row, col: (p.col + 1) as usize })
        }),
{
    let p = a.cursor.pos;
    let g = a.text()[p.row as int][p.col as int];
    if g.len() == 1 {
        assert(g =~= seq![g[0]]);
    }
    reveal_with_fuel(verbs::changed_along, 2);
}

proof fn lemma_replaced_along(t: Text, c: Cursor, ch: char, n: nat)
    requires
        c.pos.row < t.len() <= usize::MAX,
        1 <= n,
        c.pos.col + n <= t[c.pos.row as int].len() <= isize::MAX,
    ensures
        ({
            let row = t[c.pos.row as int];
            let (r, p) = verbs::changed_along(t, c, Recase::Replace(ch), n);
            &&& r == t.update(
                c.pos.row as int,
                row.take(c.pos.col as int) + Seq::new(n, |i: int| seq![ch]) + row.skip(
                    c.pos.col + n,
                ),
            )
            &&& p == (Pos { row: c.pos.row, col: (c.pos.col + n - 1) as usize })
        }),
    decreases n,
{
    let row = t[c.pos.row as int];
    let k = c.pos.col as int;
    let r = verbs::changed_along(t, c, Recase::Replace(ch), n).0;
    if n == 1 {
        reveal_with_fuel(verbs::changed_along, 2);
        assert(row.update(k, seq![ch]) =~= row.take(k) + Seq::new(1, |i: int| seq![ch]) + row.skip(
            k + 1,
        ));
    } else {
        lemma_replaced_along(t, c, ch, (n - 1) as nat);
        let (t1, p1) = verbs::changed_along(t, c, Recase::Replace(ch), (n - 1) as nat);
        let p = motion::offset_cursor(t1, verbs::at(c, p1), 0, 1);
        assert(t1[c.pos.row as int].len() == row.len());
        assert(p == (Pos { row: c.pos.row, col: (k + n - 1) as usize }));
        assert(t1[c.pos.row as int].update(k + n - 1, seq![ch]) =~= row.take(k) + Seq::new(
            n,
            |i: int| seq![ch],
        ) + row.skip(k + n));
    }
    assert(r =~= t.update(
        c.pos.row as int,
        row.take(k) + Seq::new(n, |i: int| seq![ch]) + row.skip(k + n),
    ));
}

/// A replacement with a count takes as many graphemes from the cursor on, and the cursor
/// goes to the last of them.
#[verifier::rlimit(60)]
pub proof fn replacements_are_counted(
    a: LineBuf,
    b: LineBuf,
    cmd: EditCmd,
    height: usize,
    levels: Seq<(usize, usize)>,
    reg: Option<RegisterContent>,
    effect: Effect,
    ch: char,
    n: u16,
)
    requires
        exec::verb_done(a, b, cmd, height, levels, reg, effect),
        verbs::verb_of(cmd) == Some(Verb::ReplaceCharInplace(ch, n)),
        a.cursor.pos.row < a.text().len() <= usize::MAX,
        1 <= n,
        a.cursor.pos.col + n <= a.text()[a.cursor.pos.row as int].len() <= isize::MAX,
    ensures
        ({
            let p = a.cursor.pos;
            let row = a.text()[p.row as int];
            &&& b.text() == a.text().update(
                p.row as int,
                row.take(p.col as int) + Seq::new(n as nat, |i: int| seq![ch]) + row.skip(
                    p.col + n,
                ),
            )
            &&& b.cursor.pos == (Pos { row: p.row, col: (p.col + n - 1) as usize })
        }),
{
    lemma_replaced_along(a.text(), a.cursor, ch, n as nat);
}

/// Of a span that is capitalized the first letter is in upper case and the others are in
/// lower case; outside it nothing changes.
pub proof fn spans_are_capitalized(t: Text, s: Pos, e: Pos, inclusive: bool, first: Pos, p: Pos)
    requires
        !word_laws::prior(e, s),
        word_laws::on(t, first),
        word_laws::on(t, p),
        ({
            let m = MotionKind::Char { start: s, end: e, inclusive };
            let g = t[first.row as int][first.col as int];
            &&& edit_laws::within(m, first)
            &&& g.len() == 1 && unicode::ascii_alpha(g[0])
            &&& forall|q: Pos|
                #[trigger] word_laws::on(t, q) && word_laws::prior(q, first) && edit_laws::within(
                    m,
                    q,
                ) ==> !ops::is_letter(t[q.row as int][q.col as int])
        }),
        t.len() <= usize::MAX,
        forall|i: int| 0 <= i < t.len() ==> (#[trigger] t[i]).len() <= usize::MAX,
    ensures
        ({
            let m = MotionKind::Char { start: s, end: e, inclusive };
            let r = ops::capitalized(t, m);
            let g = t[p.row as int][p.col as int];
            let h = r[p.row as int][p.col as int];
            let letter = g.len() == 1 && unicode::ascii_alpha(g[0]);
            &&& r.len() == t.len() && r[p.row as int].len() == t[p.row as int].len()
            &&& !edit_laws::within(m, p) || !letter ==> h == g
            &&& letter && p == first ==> h.len() == 1 && 'A' <= h[0] <= 'Z' && (h[0] == g[0]
                || h[0] as u32 + 32 == g[0] as u32)
            &&& letter && edit_laws::within(m, p) && p != first ==> h.len() == 1 && 'a' <= h[0]
                <= 'z' && (h[0] == g[0] || g[0] as u32 + 32 == h[0] as u32)
        }),
{
    let m = MotionKind::Char { start: s, end: e, inclusive };
    let row = p.row as int;
    let col = p.col as int;
    let g = t[row][col];
    assert(ops::covers(m, row, col) == edit_laws::within(m, p));
    assert(ops::covers(m, first.row as int, first.col as int));
    if ops::covers(m, row, col) && ops::is_letter(g) {
        if p == first {
            if ops::letter_before(t[row], row, m, col) {
                let c = choose|c: int|
                    0 <= c < col && ops::covers(m, row, c) && ops::is_letter(#[trigger] t[row][c]);
                let q = Pos { row: p.row, col: c as usize };
                assert(word_laws::on(t, q));
                assert(edit_laws::within(m, q));
            }
            if ops::letter_above(t, m, row) {
                let k = choose|k: int|
                    0 <= k < row && #[trigger] ops::letter_before(t[k], k, m, t[k].len() as int);
                let c = choose|c: int|
                    0 <= c < t[k].len() && ops::covers(m, k, c) && ops::is_letter(
                        #[trigger] t[k][c],
                    );
                let q = Pos { row: k as usize, col: c as usize };
                assert(word_laws::on(t, q));
                assert(edit_laws::within(m, q));
            }
        } else {
            let f = first.row as int;
            let fc = first.col as int;
            if word_laws::prior(p, first) {
                assert(word_laws::on(t, p));
            }
            assert(ops::is_letter(t[f][fc]));
            if f == row {
                assert(ops::letter_before(t[row], row, m, col));
            } else {
                assert(ops::letter_before(t[f], f, m, t[f].len() as int));
            }
        }
    }
}

/// The cursor and the other end of the selection change places.
#[verifier::rlimit(60)]
pub proof fn the_ends_of_the_selection_change_places(
    a: LineBuf,
    b: LineBuf,
    cmd: EditCmd,
    height: usize,
    levels: Seq<(usize, usize)>,
    reg: Option<RegisterContent>,
    effect: Effect,
    p: Pos,
)
    requires
        exec::verb_done(a, b, cmd, height, levels, reg, effect),
        verbs::verb_of(cmd) == Some(Verb::SwapVisualAnchor),
        edit_laws::cuttable(a.text(), p),
    ensures
        a.select_mode == Some(SelectMode::Char(p)) ==> b.select_mode == Some(
            SelectMode::Char(a.cursor.pos),
        ) && b.cursor.pos == p && b.text() == a.text(),
        a.select_mode == Some(SelectMode::Line(p)) ==> b.select_mode == Some(
            SelectMode::Line(a.cursor.pos),
        ) && b.cursor.pos == p && b.text() == a.text(),
        a.select_mode == Some(SelectMode::Block(p)) ==> b.select_mode == Some(
            SelectMode::Block(a.cursor.pos),
        ) && b.cursor.pos == p && b.text() == a.text(),
        a.select_mode is None ==> b == a,
{
}

/// A selection goes from the earlier to the later of its two ends, by characters, by whole
/// rows or by columns.
pub proof fn selections_run_forward(p: Pos, cursor: Pos)
    ensures
        ({
            let s = if word_laws::prior(cursor, p) {
                cursor
            } else {
                p
            };
            let e = if word_laws::prior(cursor, p) {
                p
            } else {
                cursor
            };
            &&& buffer::selected_range(Some(SelectMode::Char(p)), cursor) == Some(
                Motion::CharRange(s, e),
            )
            &&& buffer::selected_range(Some(SelectMode::Line(p)), cursor) == Some(
                Motion::LineRange(s.row, e.row),
            )
            &&& buffer::selected_range(Some(SelectMode::Block(p)), cursor) == Some(
                Motion::BlockRange(s, e),
            )
            &&& buffer::selected_range(None, cursor) is None
        }),
{
}

/// The rows of a span are indented as they are to be: as many tabs as the lesser of the
/// two levels, and then what stood behind the tabs. The other rows stay.
pub proof fn rows_are_equalized(t: Text, s: int, e: int, levels: Seq<(usize, usize)>, r: int, w: int)
    requires
        0 <= s <= e,
        0 <= r < t.len(),
        0 <= w <= t[r].len(),
        forall|i: int| 0 <= i < w ==> (#[trigger] t[r][i]) == seq!['\t'],
        w < t[r].len() ==> t[r][w] != seq!['\t'],
        r - s < levels.len(),
    ensures
        ({
            let u = ops::equalized(t, s, e, levels);
            &&& u.len() == t.len()
            &&& !(s <= r <= e) ==> u[r] == t[r]
            &&& s <= r <= e ==> {
                let lv = levels[r - s];
                let n = if lv.0 < lv.1 {
                    lv.0 as int
                } else {
                    lv.1 as int
                };
                &&& u[r].len() == n + t[r].len() - w
                &&& forall|i: int| 0 <= i < n ==> (#[trigger] u[r][i]) == seq!['\t']
                &&& u[r].skip(n) == t[r].skip(w)
            }
        }),
{
    lemma_untabbed(t[r], w);
    if s <= r <= e {
        let lv = levels[r - s];
        let n = line::least(lv.0 as int, lv.1 as int);
        let u = ops::equalized(t, s, e, levels);
        assert(u[r] == ops::tabs(n as nat) + t[r].skip(w));
        assert(u[r].skip(n) =~= t[r].skip(w));
    }
}

proof fn lemma_untabbed(row: Seq<Seq<char>>, w: int)
    requires
        0 <= w <= row.len(),
        forall|i: int| 0 <= i < w ==> (#[trigger] row[i]) == seq!['\t'],
        w < row.len() ==> row[w] != seq!['\t'],
    ensures
        ops::all_untabbed(row) == row.skip(w),
    decreases w,
{
    if w > 0 {
        assert(row[0] == seq!['\t']);
        let s = row.skip(1);
        assert forall|i: int| 0 <= i < w - 1 implies (#[trigger] s[i]) == seq!['\t'] by {
            assert(s[i] == row[i + 1]);
        }
        lemma_untabbed(s, w - 1);
        assert(s.skip(w - 1) =~= row.skip(w));
    } else {
        assert(row.skip(0) =~= row);
    }
}

/// After a stretch of one row was put the cursor stands on the last grapheme of it.
pub proof fn the_cursor_ends_on_what_was_put(t: Text, c: Cursor, anchor: Anchor, k: Seq<Seq<char>>, saved: Option<usize>)
    requires
        word_laws::countable(t),
        word_laws::on(t, c.pos),
        k.len() > 1,
        t[c.pos.row as int].len() + k.len() <= isize::MAX,
    ensures
        verbs::put_result(t, c, saved, anchor, Some(register::Held::Span(seq![k]))).1 == (Pos {
            row: c.pos.row,
            col: (if anchor == Anchor::After {
                c.pos.col + k.len()
            } else {
                c.pos.col + k.len() - 1
            }) as usize,
        }),
{
    let row = c.pos.row as int;
    let col = if anchor == Anchor::After {
        c.pos.col + 1
    } else {
        c.pos.col as int
    };
    lemma_inserted_row(t, row, col, k);
    let t1 = t.update(row, t[row].take(col) + k + t[row].skip(col));
    assert(t1[row].len() == t[row].len() + k.len());
}

/// A longer text gives the hint that makes it up; any other gives none.
pub proof fn a_hint_goes_on_from_the_text(have: Seq<char>, more: Seq<char>, other: Seq<char>)
    ensures
        more.len() > 0 ==> buffer::offered(have, Some(have + more)) == Some(lines::lines_of(more)),
        buffer::offered(have, Some(have)) is None,
        buffer::offered(have, None) is None,
        other.len() < have.len() || other.take(have.len() as int) != have ==> buffer::offered(
            have,
            Some(other),
        ) is None,
{
    assert((have + more).take(have.len() as int) =~= have);
    assert((have + more).skip(have.len() as int) =~= more);
}

/// A hint is taken in up to a place and with it, and the rest stays a hint: the two
/// together are what they were. Behind its end the whole hint is taken in.
pub proof fn hints_are_taken_in(t: Text, h: Text, target: Pos)
    requires
        t.len() > 0,
        h.len() > 0,
        lines::attached(t, h).len() <= usize::MAX,
        forall|i: int|
            0 <= i < lines::attached(t, h).len() ==> (#[trigger] lines::attached(t, h)[i]).len()
                < usize::MAX,
        target.row < lines::attached(t, h).len(),
        target.col < lines::attached(t, h)[target.row as int].len(),
    ensures
        ({
            let all = lines::attached(t, h);
            let (r, left) = buffer::accepted(t, Some(h), target);
            &&& r.len() == target.row + 1
            &&& forall|i: int| 0 <= i < target.row ==> #[trigger] r[i] == all[i]
            &&& r[target.row as int] == all[target.row as int].take(target.col + 1)
            &&& left matches Some(x) ==> lines::attached(r, x) == all
        }),
{
    let all = lines::attached(t, h);
    let p = Pos { row: target.row, col: (target.col + 1) as usize };
    assert(scan::next_col(target) == p);
    assert(words::bounded(all, p, false) == p);
    assert(lines::inside(all, p) == p);
    lines::split_then_attach(all, p);
}

/// The view keeps the row of the cursor in it, and stays where it is as long as the row
/// and those to be kept around it are in it.
pub proof fn the_view_follows_the_cursor(offset: int, row: int, len: int, height: int, keep: int)
    requires
        0 <= offset,
        0 <= row < len,
        0 < height,
        0 <= keep,
        2 * keep < height,
    ensures
        ({
            let v = buffer::scrolled(offset, row, len, height, keep);
            &&& 0 <= v
            &&& v <= row < v + height
            &&& v + height <= len || v == 0
            &&& row - keep >= 0 ==> v <= row - keep
            &&& row + keep < len ==> row + keep < v + height
            &&& offset + keep <= row && row + keep < offset + height && offset + height <= len
                ==> v == offset
        }),
{
}

/// A setting of the height is a number of rows, or a number and a percent sign.
pub proof fn heights_are_read(n: usize)
    ensures
        buffer::height_asked(text::decimal(n as nat)) == buffer::HeightSetting::Rows(n),
        buffer::height_asked(text::decimal(n as nat).push('%')) == buffer::HeightSetting::Percent(
            n,
        ),
{
    let d = text::decimal(n as nat);
    text::decimal_reads_back(n as nat);
    assert(unicode::ascii_digit(d[0]));
    assert(text::parsed_usize(d) == Some(n));
    let p = d.push('%');
    assert(p.drop_last() =~= d);
    assert(p[0] == d[0]);
    assert(!text::all_digits(p)) by {
        assert(!unicode::ascii_digit(p[p.len() - 1]));
    }
}

/// A reference to the history gives way to its command: the graphemes from its start to its
/// end go, and those of the command stand in their place.
pub proof fn references_give_way(
    t: Text,
    c: Cursor,
    p: Pos,
    end: usize,
    s: Seq<char>,
    levels: Seq<(usize, usize)>,
)
    requires
        word_laws::countable(t),
        p.row < t.len(),
        p.col <= end < t[p.row as int].len(),
        steady(levels),
        p.col + unicode::clusters(s).len() < usize::MAX,
        t[p.row as int].len() + unicode::clusters(s).len() < usize::MAX,
        forall|i: int|
            0 <= i < unicode::clusters(s).len() ==> (#[trigger] unicode::clusters(s)[i]) != seq![
                '\n',
            ],
    ensures
        bang::replaced(t, c, (p, Pos { row: p.row, col: end }, s), levels).0 == t.update(
            p.row as int,
            t[p.row as int].take(p.col as int) + unicode::clusters(s) + t[p.row as int].skip(
                end + 1,
            ),
        ),
        bang::all_replaced(
            t,
            c,
            seq![(p, Pos { row: p.row, col: end }, s)],
            Seq::empty(),
            1,
        ) == (t, c.pos),
{
    let r = p.row as int;
    let row = t[r];
    let q = Pos { row: p.row, col: end };
    let k = MotionKind::Char { start: p, end: q, inclusive: true };
    edit_laws::spans_are_taken(t, p, q, true);
    let rest = ops::taken(t, k).0;
    let u = t.update(r, row.take(p.col as int) + row.skip(end + 1));
    assert(rest =~= u);
    let gs = unicode::clusters(s);
    assert(word_laws::countable(u));
    lemma_typed_row(u, p, gs, levels, gs.len());
    assert(gs.take(gs.len() as int) =~= gs);
    assert(u[r].take(p.col as int) =~= row.take(p.col as int));
    assert(u[r].skip(p.col as int) =~= row.skip(end + 1));
    assert(bang::replaced(t, c, (p, q, s), levels).0 =~= t.update(
        r,
        row.take(p.col as int) + gs + row.skip(end + 1),
    ));
}

/// Each reference that has an answer is replaced by it, where it stands, in order.
pub proof fn references_are_answered_in_order(
    w: Seq<bang::Wanted>,
    c: Seq<String>,
    n: int,
    i: int,
)
    requires
        0 <= n <= w.len(),
        forall|k: int| 0 <= k < n ==> bang::answer((#[trigger] w[k]).2, c) is Some,
    ensures
        bang::answers(w, c, n).len() == n,
        0 <= i < n ==> bang::answers(w, c, n)[i] == (
            w[i].0,
            w[i].1,
            bang::answer(w[i].2, c)->0,
        ),
    decreases n,
{
    if n > 0 {
        assert(bang::answer(w[n - 1].2, c) is Some);
        references_are_answered_in_order(w, c, n - 1, i);
    }
}

/// The kill that was put last gives way to the one before it in the ring: what was put goes,
/// and the other kill stands in its place.
pub proof fn a_kill_gives_way_to_the_next(
    a: LineBuf,
    b: LineBuf,
    s: Pos,
    e: Pos,
    i: int,
    k: Seq<Seq<char>>,
)
    requires
        verbs::kill_cycled(a, b),
        a.kill_ring.kill_cycle_span == Some((s, e)),
        word_laws::countable(a.text()),
        s.row == e.row < a.text().len(),
        s.col <= e.col <= a.text()[s.row as int].len(),
        0 < a.kill_ring@.len() <= usize::MAX,
        match a.kill_ring.selected {
            None => i == a.kill_ring@.len() - 1,
            Some(j) => j < a.kill_ring@.len() && (if j == 0 {
                i == a.kill_ring@.len() - 1
            } else {
                i == j - 1
            }),
        },
        a.kill_ring@[i] == seq![k],
    ensures
        b.text() == a.text().update(
            s.row as int,
            a.text()[s.row as int].take(s.col as int) + k + a.text()[s.row as int].skip(
                e.col as int,
            ),
        ),
        b.kill_ring@ == a.kill_ring@,
        b.kill_ring.selected == Some(i as usize),
{
    lemma_exchanged(a.text(), s.row as int, s.col as int, e.col as int, k);
}

/// What is typed after a change is one step with it; after any other edit typing begins a
/// step of its own, and goes on in it.
pub proof fn typing_goes_on_in_a_step(
    s: Seq<exec::Step>,
    cmd: EditCmd,
    typing: EditCmd,
    t: Seq<Text>,
    p: Seq<Pos>,
)
    requires
        t.len() == 4,
        p.len() == 4,
        t[0] != t[1],
        t[1] != t[2],
        t[2] != t[3],
        cmd.verb is Some,
        !exec::types_char(cmd),
        !exec::is_undo(cmd),
        exec::types_char(typing),
    ensures
        ({
            let one = exec::history_after(s, cmd, t[0], t[1], p[0], p[1]);
            let two = exec::history_after(one, typing, t[1], t[2], p[1], p[2]);
            let three = exec::history_after(two, typing, t[2], t[3], p[2], p[3]);
            &&& one.len() == s.len() + 1
            &&& one.last().old == t[0] && one.last().new == t[1]
            &&& three.len() == two.len()
            &&& three.last().new == t[3]
            &&& three.last().old == two.last().old
            &&& (cmd.verb->0).1 is Change ==> two.len() == one.len() && two.last().old == t[0]
            &&& !((cmd.verb->0).1 is Change) ==> two.len() == one.len() + 1 && two.last().old
                == t[1]
        }),
{
}

} // verus!
