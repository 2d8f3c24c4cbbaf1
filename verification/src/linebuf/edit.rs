//! Undo steps that are kept as small differences.

use crate::linebuf::line;
use crate::linebuf::line::same_grapheme;
use crate::linebuf::line::same_line;
use crate::linebuf::line::Line;
use crate::linebuf::lines;
use crate::linebuf::lines::clone_lines;
use crate::linebuf::lines::extract_range_contiguous;
use crate::linebuf::lines::insert_lines;
use crate::linebuf::lines::join_lines;
use crate::linebuf::lines::same_lines;
use crate::linebuf::lines::to_lines;
use crate::linebuf::lines::Text;
use crate::linebuf::pos;
use crate::linebuf::pos::Pos;
use crate::text::same_str;
use crate::unicode;
use crate::unicode::graphemes_of;
use vstd::prelude::*;

verus! {

/// A step as it is kept: a difference, or while later edits may join it, the
/// whole text before and after.
#[derive(Debug)]
pub enum EditBody {
    Delta { at: Pos, removed: String, inserted: String },
    Snapshot { old: Vec<Line>, new: Vec<Line> },
}

/// One step of the undo history.
#[derive(Debug)]
pub struct Edit {
    pub old_cursor: Pos,
    pub new_cursor: Pos,
    pub merging: bool,
    pub body: EditBody,
}

/// What a step keeps.
pub enum Kept {
    Delta(Delta),
    Snapshot(Text, Text),
}

/// A difference: what stood at a place, and what stands there now.
pub struct Delta {
    pub at: Pos,
    pub removed: Seq<char>,
    pub inserted: Seq<char>,
}

impl View for Edit {
    type V = Kept;

    open spec fn view(&self) -> Kept {
        match self.body {
            EditBody::Delta { at, removed, inserted } => Kept::Delta(
                Delta { at, removed: removed@, inserted: inserted@ },
            ),
            EditBody::Snapshot { old, new } => Kept::Snapshot(
                lines::text(old@),
                lines::text(new@),
            ),
        }
    }
}

/// How many items two sequences share from a place on, counted from the start.
pub open spec fn shared_from<A>(a: Seq<A>, b: Seq<A>, i: int) -> int
    decreases a.len() - i,
{
    if 0 <= i < a.len() && i < b.len() && a[i] == b[i] {
        shared_from(a, b, i + 1)
    } else {
        i
    }
}

/// How many items two sequences share at their ends, not counting the first
/// `p`, and at least `s`.
pub open spec fn tail_from<A>(a: Seq<A>, b: Seq<A>, p: int, s: int) -> int
    decreases a.len() - p - s,
{
    if 0 <= s && 0 <= p && s < a.len() - p && s < b.len() - p && a[a.len() - 1 - s] == b[b.len() - 1
        - s] {
        tail_from(a, b, p, s + 1)
    } else {
        s
    }
}

/// What lies between the shared start and the shared end.
pub open spec fn middle<A>(a: Seq<A>, p: int, s: int) -> Seq<A> {
    a.subrange(p, a.len() - s)
}

proof fn lemma_shared<A>(a: Seq<A>, b: Seq<A>, i: int)
    requires
        0 <= i <= a.len(),
        i <= b.len(),
        a.take(i) == b.take(i),
    ensures
        i <= shared_from(a, b, i) <= a.len(),
        shared_from(a, b, i) <= b.len(),
        a.take(shared_from(a, b, i)) == b.take(shared_from(a, b, i)),
    decreases a.len() - i,
{
    if i < a.len() && i < b.len() && a[i] == b[i] {
        assert(a.take(i + 1) =~= a.take(i).push(a[i]));
        assert(b.take(i + 1) =~= b.take(i).push(b[i]));
        lemma_shared(a, b, i + 1);
    }
}

proof fn lemma_tail<A>(a: Seq<A>, b: Seq<A>, p: int, s: int)
    requires
        0 <= p <= a.len(),
        p <= b.len(),
        0 <= s <= a.len() - p,
        s <= b.len() - p,
        a.skip(a.len() - s) == b.skip(b.len() - s),
    ensures
        s <= tail_from(a, b, p, s) <= a.len() - p,
        tail_from(a, b, p, s) <= b.len() - p,
        a.skip(a.len() - tail_from(a, b, p, s)) == b.skip(b.len() - tail_from(a, b, p, s)),
    decreases a.len() - p - s,
{
    if s < a.len() - p && s < b.len() - p && a[a.len() - 1 - s] == b[b.len() - 1 - s] {
        assert(a.skip(a.len() - s - 1) =~= seq![a[a.len() - 1 - s]] + a.skip(a.len() - s));
        assert(b.skip(b.len() - s - 1) =~= seq![b[b.len() - 1 - s]] + b.skip(b.len() - s));
        lemma_tail(a, b, p, s + 1);
    }
}

/// What two sequences share makes each of them up, with its own middle.
pub proof fn shared_parts_join<A>(a: Seq<A>, b: Seq<A>)
    ensures
        ({
            let p = shared_from(a, b, 0);
            let s = tail_from(a, b, p, 0);
            &&& 0 <= p && 0 <= s && p + s <= a.len() && p + s <= b.len()
            &&& a == a.take(p) + middle(a, p, s) + a.skip(a.len() - s)
            &&& b == a.take(p) + middle(b, p, s) + a.skip(a.len() - s)
        }),
{
    assert(a.take(0) =~= b.take(0));
    lemma_shared(a, b, 0);
    let p = shared_from(a, b, 0);
    assert(a.skip(a.len() as int) =~= b.skip(b.len() as int));
    lemma_tail(a, b, p, 0);
    let s = tail_from(a, b, p, 0);
    assert(a =~= a.take(p) + middle(a, p, s) + a.skip(a.len() - s));
    assert(b =~= b.take(p) + middle(b, p, s) + b.skip(b.len() - s));
}

/// The text that a run of graphemes lays out: linefeeds begin new lines.
pub open spec fn laid_rows(gs: Seq<Seq<char>>) -> Text
    decreases gs.len(),
{
    if gs.len() == 0 {
        seq![Seq::<Seq<char>>::empty()]
    } else {
        let r = laid_rows(gs.drop_last());
        if gs.last() == seq!['\n'] {
            r.push(Seq::<Seq<char>>::empty())
        } else {
            r.drop_last().push(r.last().push(gs.last()))
        }
    }
}

proof fn lemma_laid_nonempty(gs: Seq<Seq<char>>)
    ensures
        laid_rows(gs).len() > 0,
    decreases gs.len(),
{
    if gs.len() > 0 {
        lemma_laid_nonempty(gs.drop_last());
    }
}

proof fn lemma_laid_add(a: Seq<Seq<char>>, b: Seq<Seq<char>>)
    ensures
        laid_rows(a + b) == lines::attached(laid_rows(a), laid_rows(b)),
    decreases b.len(),
{
    lemma_laid_nonempty(a);
    lemma_laid_nonempty(b);
    let la = laid_rows(a);
    let lb = laid_rows(b);
    if b.len() == 0 {
        assert(a + b =~= a);
        assert(la.last() + lb[0] =~= la.last());
        assert(lines::attached(la, lb) =~= la);
    } else {
        let c = b.drop_last();
        let lc = laid_rows(c);
        lemma_laid_nonempty(c);
        lemma_laid_add(a, c);
        assert((a + b).drop_last() =~= a + c);
        assert((a + b).last() == b.last());
        let lac = lines::attached(la, lc);
        if b.last() == seq!['\n'] {
            assert(lines::attached(la, lb) =~= lac.push(Seq::<Seq<char>>::empty()));
        } else if c.len() == 0 || lc.len() == 1 {
            assert(lac =~= la.drop_last().push(la.last() + lc[0]));
            assert(la.last() + lc[0].push(b.last()) =~= (la.last() + lc[0]).push(b.last()));
            assert(lines::attached(la, lb) =~= lac.drop_last().push(lac.last().push(b.last())));
        } else {
            assert(lac.last() == lc.last());
            assert(lines::attached(la, lb) =~= lac.drop_last().push(lac.last().push(b.last())));
        }
    }
}

/// Where a run of graphemes ends when it is laid out from the start.
pub open spec fn laid_end(gs: Seq<Seq<char>>) -> Pos {
    lines::seam(laid_rows(gs))
}

/// The difference of two lines of a row.
pub open spec fn row_delta(row: int, a: Seq<Seq<char>>, b: Seq<Seq<char>>) -> Delta {
    let p = shared_from(a, b, 0);
    let s = tail_from(a, b, p, 0);
    Delta {
        at: Pos { row: row as usize, col: p as usize },
        removed: unicode::joined(middle(a, p, s)),
        inserted: unicode::joined(middle(b, p, s)),
    }
}

/// The difference of two texts as runs of graphemes.
pub open spec fn flat_delta(t: Text, u: Text) -> Delta {
    let a = unicode::clusters(lines::text_chars(t));
    let b = unicode::clusters(lines::text_chars(u));
    let p = shared_from(a, b, 0);
    let s = tail_from(a, b, p, 0);
    Delta {
        at: laid_end(a.take(p)),
        removed: unicode::joined(middle(a, p, s)),
        inserted: unicode::joined(middle(b, p, s)),
    }
}

/// The difference of two texts. Where a single line changed, it stays within
/// that line.
pub open spec fn delta_of(t: Text, u: Text) -> Delta {
    if t.len() == u.len() {
        let r = shared_from(t, u, 0);
        if r == t.len() {
            Delta {
                at: Pos { row: 0, col: 0 },
                removed: Seq::empty(),
                inserted: Seq::empty(),
            }
        } else if t.skip(r + 1) == u.skip(r + 1) {
            row_delta(r, t[r], u[r])
        } else {
            flat_delta(t, u)
        }
    } else {
        flat_delta(t, u)
    }
}

/// Where a text ends that is laid out from a place on.
pub open spec fn laid_out_end(at: Pos, s: Seq<char>) -> Pos {
    let rows = lines::rows_of(s);
    if rows.len() == 1 {
        Pos { row: at.row, col: line::capped(at.col as nat + unicode::clusters(s).len()) }
    } else if at.row + rows.len() - 1 > usize::MAX {
        Pos { row: usize::MAX, col: usize::MAX }
    } else {
        Pos {
            row: (at.row + rows.len() - 1) as usize,
            col: line::capped(unicode::clusters(rows.last()).len()),
        }
    }
}

/// A text with what one string takes up at a place replaced by another.
pub open spec fn spliced(t: Text, at: Pos, remove: Seq<char>, insert: Seq<char>) -> Text {
    let rest = lines::without(t, at, laid_out_end(at, remove));
    if insert.len() == 0 {
        rest
    } else {
        lines::inserted(rest, at, lines::lines_of(insert))
    }
}

/// A text after a step was taken back.
pub open spec fn undone(k: Kept, t: Text) -> Text {
    match k {
        Kept::Delta(d) => spliced(t, d.at, d.inserted, d.removed),
        Kept::Snapshot(old, new) => old,
    }
}

/// A text after a step was taken again.
pub open spec fn redone(k: Kept, t: Text) -> Text {
    match k {
        Kept::Delta(d) => spliced(t, d.at, d.removed, d.inserted),
        Kept::Snapshot(old, new) => new,
    }
}

proof fn lemma_one_row_is_whole(s: Seq<char>)
    requires
        lines::rows_of(s).len() == 1,
    ensures
        lines::rows_of(s)[0] == s,
{
    lines::rows_join_back(s);
}

/// A stretch that gives the same lines when its characters are read again.
pub open spec fn stable(s: Seq<char>, rows: Text) -> bool {
    lines::lines_of(s) == rows
}

proof fn lemma_splice_swaps(
    p: Text,
    i: Text,
    r: Text,
    s: Text,
    ins: Seq<char>,
    rem: Seq<char>,
)
    requires
        p.len() > 0,
        i.len() > 0,
        r.len() > 0,
        s.len() > 0,
        stable(ins, i),
        rem.len() == 0 ==> r == seq![Seq::<Seq<char>>::empty()],
        rem.len() > 0 ==> stable(rem, r),
        lines::fits(lines::attached(lines::attached(p, i), s)),
    ensures
        spliced(lines::attached(lines::attached(p, i), s), lines::seam(p), ins, rem)
            == lines::attached(lines::attached(p, r), s),
{
    let pi = lines::attached(p, i);
    let u = lines::attached(pi, s);
    let is = lines::attached(i, s);
    let at = lines::seam(p);
    assert(u.len() == pi.len() + s.len() - 1);
    assert(pi.len() == p.len() + i.len() - 1);
    lines::lemma_attach_assoc(p, i, s);
    assert(is.len() > 0);
    assert(u[p.len() - 1].len() <= usize::MAX);
    assert(u[pi.len() - 1].len() <= usize::MAX);
    assert(pi.last().len() <= u[pi.len() - 1].len());
    assert(p.last().len() <= pi[p.len() - 1].len());
    if p.len() < pi.len() {
        assert(u[p.len() - 1] == pi[p.len() - 1]);
    }
    lines::attach_then_split(pi, s);
    lines::attach_then_split(p, is);
    let rows = lines::rows_of(ins);
    assert(rows.len() == i.len());
    assert(laid_out_end(at, ins) == lines::seam(pi)) by {
        if i.len() == 1 {
            lemma_one_row_is_whole(ins);
            assert(i[0] == unicode::clusters(ins));
            assert(pi.last() == p.last() + i[0]);
        } else {
            assert(pi.last() == i.last());
            assert(i.last() == unicode::clusters(rows.last()));
        }
    }
    let rest = lines::attached(p, s);
    assert(lines::without(u, at, laid_out_end(at, ins)) == rest);
    if rem.len() == 0 {
        assert(p.last() + r[0] =~= p.last());
        assert(lines::attached(p, r) =~= p);
    } else {
        lines::attach_then_split(p, s);
    }
}

proof fn lemma_row_delta_swaps(t: Text, u: Text, r: int)
    requires
        0 <= r < t.len(),
        t.len() == u.len(),
        t.take(r) == u.take(r),
        t.skip(r + 1) == u.skip(r + 1),
        lines::fits(t),
        lines::fits(u),
        unicode::clusters(Seq::empty()).len() == 0,
        ({
            let p = shared_from(t[r], u[r], 0);
            let s = tail_from(t[r], u[r], p, 0);
            let a = middle(t[r], p, s);
            let b = middle(u[r], p, s);
            stable(unicode::joined(a), seq![a]) && stable(unicode::joined(b), seq![b])
        }),
    ensures
        ({
            let d = row_delta(r, t[r], u[r]);
            &&& spliced(u, d.at, d.inserted, d.removed) == t
            &&& spliced(t, d.at, d.removed, d.inserted) == u
        }),
{
    let a = t[r];
    let b = u[r];
    shared_parts_join(a, b);
    let p = shared_from(a, b, 0);
    let s = tail_from(a, b, p, 0);
    let am = middle(a, p, s);
    let bm = middle(b, p, s);
    let tail = a.skip(a.len() - s);
    let front = t.take(r).push(a.take(p));
    let back = seq![tail] + t.skip(r + 1);
    assert(front.drop_last() =~= t.take(r));
    assert(back.skip(1) =~= t.skip(r + 1));
    assert(seq![am].skip(1) =~= Seq::<Seq<Seq<char>>>::empty());
    assert(seq![bm].skip(1) =~= Seq::<Seq<Seq<char>>>::empty());
    let fa = lines::attached(front, seq![am]);
    let fb = lines::attached(front, seq![bm]);
    assert(fa =~= t.take(r).push(a.take(p) + am));
    assert(fb =~= t.take(r).push(a.take(p) + bm));
    assert(fa.drop_last() =~= t.take(r));
    assert(fb.drop_last() =~= t.take(r));
    assert(lines::attached(fa, back) =~= t.take(r).push(a) + t.skip(r + 1));
    assert(lines::attached(fb, back) =~= t.take(r).push(b) + t.skip(r + 1));
    assert(t =~= t.take(r).push(a) + t.skip(r + 1));
    assert(u =~= u.take(r).push(b) + u.skip(r + 1));
    let rs = unicode::joined(am);
    let is = unicode::joined(bm);
    lemma_blank_piece(rs, seq![am]);
    lemma_blank_piece(is, seq![bm]);
    lemma_splice_swaps(front, seq![bm], seq![am], back, is, rs);
    lemma_splice_swaps(front, seq![am], seq![bm], back, rs, is);
    assert(front.last().len() == p);
    assert(t[r].len() <= usize::MAX);
    assert(lines::seam(front) == row_delta(r, a, b).at);
}

proof fn lemma_flat_delta_swaps(t: Text, u: Text)
    requires
        lines::fits(t),
        lines::fits(u),
        unicode::clusters(Seq::empty()).len() == 0,
        t == laid_rows(unicode::clusters(lines::text_chars(t))),
        u == laid_rows(unicode::clusters(lines::text_chars(u))),
        ({
            let x = unicode::clusters(lines::text_chars(t));
            let y = unicode::clusters(lines::text_chars(u));
            let p = shared_from(x, y, 0);
            let s = tail_from(x, y, p, 0);
            let a = middle(x, p, s);
            let b = middle(y, p, s);
            stable(unicode::joined(a), laid_rows(a)) && stable(unicode::joined(b), laid_rows(b))
        }),
    ensures
        ({
            let d = flat_delta(t, u);
            &&& spliced(u, d.at, d.inserted, d.removed) == t
            &&& spliced(t, d.at, d.removed, d.inserted) == u
        }),
{
    let a = unicode::clusters(lines::text_chars(t));
    let b = unicode::clusters(lines::text_chars(u));
    shared_parts_join(a, b);
    let p = shared_from(a, b, 0);
    let s = tail_from(a, b, p, 0);
    let am = middle(a, p, s);
    let bm = middle(b, p, s);
    let head = a.take(p);
    let tail = a.skip(a.len() - s);
    lemma_laid_nonempty(head);
    lemma_laid_nonempty(am);
    lemma_laid_nonempty(bm);
    lemma_laid_nonempty(tail);
    lemma_laid_add(head, am);
    lemma_laid_add(head + am, tail);
    lemma_laid_add(head, bm);
    lemma_laid_add(head + bm, tail);
    let rs = unicode::joined(am);
    let is = unicode::joined(bm);
    lemma_blank_piece(rs, laid_rows(am));
    lemma_blank_piece(is, laid_rows(bm));
    lemma_splice_swaps(laid_rows(head), laid_rows(bm), laid_rows(am), laid_rows(tail), is, rs);
    lemma_splice_swaps(laid_rows(head), laid_rows(am), laid_rows(bm), laid_rows(tail), rs, is);
}

/// Taking back the difference of two texts gives the first, and taking it again
/// gives the second, where the graphemes of the changed stretches are those
/// that their characters make up when read again.
pub proof fn undo_gives_back(t: Text, u: Text)
    requires
        t.len() > 0,
        u.len() > 0,
        lines::fits(t),
        lines::fits(u),
        readable(t, u),
    ensures
        spliced(u, delta_of(t, u).at, delta_of(t, u).inserted, delta_of(t, u).removed) == t,
        spliced(t, delta_of(t, u).at, delta_of(t, u).removed, delta_of(t, u).inserted) == u,
{
    let r = shared_from(t, u, 0);
    assert(t.take(0) =~= u.take(0));
    lemma_shared(t, u, 0);
    if t.len() == u.len() && r == t.len() {
        assert(t =~= t.take(r));
        assert(u =~= u.take(r));
        lemma_empty_splice(t);
    } else if t.len() == u.len() && t.skip(r + 1) == u.skip(r + 1) {
        lemma_row_delta_swaps(t, u, r);
    } else {
        lemma_flat_delta_swaps(t, u);
    }
}

proof fn lemma_blank_piece(s: Seq<char>, rows: Text)
    requires
        stable(s, rows),
        s.len() == 0 ==> unicode::clusters(s).len() == 0,
    ensures
        s.len() == 0 ==> rows == seq![Seq::<Seq<char>>::empty()],
{
    if s.len() == 0 {
        assert(lines::rows_of(s).len() == 1);
        assert(lines::rows_of(s)[0] =~= s);
        assert(rows[0] == unicode::clusters(lines::rows_of(s)[0]));
        assert(rows[0] =~= Seq::<Seq<char>>::empty());
        assert(rows =~= seq![Seq::<Seq<char>>::empty()]);
    }
}

proof fn lemma_empty_splice(t: Text)
    requires
        t.len() > 0,
        lines::fits(t),
        unicode::clusters(Seq::empty()).len() == 0,
    ensures
        spliced(t, Pos { row: 0, col: 0 }, Seq::empty(), Seq::empty()) == t,
{
    let at = Pos { row: 0, col: 0 };
    let e = Seq::<char>::empty();
    assert(lines::rows_of(e).len() == 1);
    assert(laid_out_end(at, e) == at);
    lines::split_then_attach(t, at);
}

/// The characters of the two texts, and of the stretches in which they differ,
/// make up the graphemes that the texts hold.
pub open spec fn readable(t: Text, u: Text) -> bool {
    &&& unicode::clusters(Seq::empty()).len() == 0
    &&& if t.len() == u.len() && shared_from(t, u, 0) == t.len() {
        true
    } else if t.len() == u.len() && t.skip(shared_from(t, u, 0) + 1) == u.skip(
        shared_from(t, u, 0) + 1,
    ) {
        let a = t[shared_from(t, u, 0)];
        let b = u[shared_from(t, u, 0)];
        let p = shared_from(a, b, 0);
        let s = tail_from(a, b, p, 0);
        &&& stable(unicode::joined(middle(a, p, s)), seq![middle(a, p, s)])
        &&& stable(unicode::joined(middle(b, p, s)), seq![middle(b, p, s)])
    } else {
        let a = unicode::clusters(lines::text_chars(t));
        let b = unicode::clusters(lines::text_chars(u));
        let p = shared_from(a, b, 0);
        let s = tail_from(a, b, p, 0);
        &&& t == laid_rows(a)
        &&& u == laid_rows(b)
        &&& stable(unicode::joined(middle(a, p, s)), laid_rows(middle(a, p, s)))
        &&& stable(unicode::joined(middle(b, p, s)), laid_rows(middle(b, p, s)))
    }
}

fn shared_rows(a: &Vec<Line>, b: &Vec<Line>) -> (r: usize)
    ensures
        r == shared_from(lines::text(a@), lines::text(b@), 0),
        r <= a@.len(),
        r <= b@.len(),
{
    let mut i: usize = 0;
    let ghost t = lines::text(a@);
    let ghost u = lines::text(b@);
    while i < a.len() && i < b.len() && same_line(&a[i], &b[i])
        invariant
            i <= a@.len(),
            i <= b@.len(),
            t == lines::text(a@),
            u == lines::text(b@),
            shared_from(t, u, 0) == shared_from(t, u, i as int),
        decreases a@.len() - i,
    {
        assert(t[i as int] == a@[i as int]@);
        assert(u[i as int] == b@[i as int]@);
        i = i + 1;
    }
    proof {
        if i < a@.len() && i < b@.len() {
            assert(t[i as int] == a@[i as int]@);
            assert(u[i as int] == b@[i as int]@);
        }
    }
    i
}

fn shared_graphemes(a: &Line, b: &Line) -> (r: (usize, usize))
    ensures
        r.0 == shared_from(a@, b@, 0),
        r.1 == tail_from(a@, b@, r.0 as int, 0),
        r.0 + r.1 <= a@.len(),
        r.0 + r.1 <= b@.len(),
{
    let mut p: usize = 0;
    while p < a.len() && p < b.len() && same_grapheme(a.at(p), b.at(p))
        invariant
            p <= a@.len(),
            p <= b@.len(),
            shared_from(a@, b@, 0) == shared_from(a@, b@, p as int),
        decreases a@.len() - p,
    {
        p = p + 1;
    }
    let mut s: usize = 0;
    while s < a.len() - p && s < b.len() - p && same_grapheme(
        a.at(a.len() - 1 - s),
        b.at(b.len() - 1 - s),
    )
        invariant
            p <= a@.len(),
            p <= b@.len(),
            s <= a@.len() - p,
            s <= b@.len() - p,
            tail_from(a@, b@, p as int, 0) == tail_from(a@, b@, p as int, s as int),
        decreases a@.len() - p - s,
    {
        s = s + 1;
    }
    (p, s)
}

fn shared_clusters(a: &Vec<String>, b: &Vec<String>, Ghost(x): Ghost<Seq<Seq<char>>>, Ghost(y): Ghost<Seq<Seq<char>>>) -> (r: (usize, usize))
    requires
        a@.len() == x.len(),
        b@.len() == y.len(),
        forall|i: int| 0 <= i < x.len() ==> (#[trigger] a@[i])@ == x[i],
        forall|i: int| 0 <= i < y.len() ==> (#[trigger] b@[i])@ == y[i],
    ensures
        r.0 == shared_from(x, y, 0),
        r.1 == tail_from(x, y, r.0 as int, 0),
        r.0 + r.1 <= x.len(),
        r.0 + r.1 <= y.len(),
{
    let mut p: usize = 0;
    while p < a.len() && p < b.len() && same_str(a[p].as_str(), b[p].as_str())
        invariant
            p <= a@.len() == x.len(),
            p <= b@.len() == y.len(),
            forall|i: int| 0 <= i < x.len() ==> (#[trigger] a@[i])@ == x[i],
            forall|i: int| 0 <= i < y.len() ==> (#[trigger] b@[i])@ == y[i],
            shared_from(x, y, 0) == shared_from(x, y, p as int),
        decreases a@.len() - p,
    {
        p = p + 1;
    }
    let mut s: usize = 0;
    while s < a.len() - p && s < b.len() - p && same_str(
        a[a.len() - 1 - s].as_str(),
        b[b.len() - 1 - s].as_str(),
    )
        invariant
            p <= a@.len() == x.len(),
            p <= b@.len() == y.len(),
            forall|i: int| 0 <= i < x.len() ==> (#[trigger] a@[i])@ == x[i],
            forall|i: int| 0 <= i < y.len() ==> (#[trigger] b@[i])@ == y[i],
            s <= x.len() - p,
            s <= y.len() - p,
            tail_from(x, y, p as int, 0) == tail_from(x, y, p as int, s as int),
        decreases a@.len() - p - s,
    {
        s = s + 1;
    }
    (p, s)
}

fn concat(v: &Vec<String>, from: usize, to: usize, Ghost(x): Ghost<Seq<Seq<char>>>) -> (r: String)
    requires
        from <= to <= v@.len(),
        v@.len() == x.len(),
        forall|i: int| 0 <= i < x.len() ==> (#[trigger] v@[i])@ == x[i],
    ensures
        r@ == unicode::joined(x.subrange(from as int, to as int)),
{
    let mut out: String = String::new();
    let mut i: usize = from;
    assert(x.subrange(from as int, from as int) =~= Seq::<Seq<char>>::empty());
    while i < to
        invariant
            from <= i <= to <= v@.len(),
            v@.len() == x.len(),
            forall|i: int| 0 <= i < x.len() ==> (#[trigger] v@[i])@ == x[i],
            out@ == unicode::joined(x.subrange(from as int, i as int)),
        decreases to - i,
    {
        out.push_str(v[i].as_str());
        i = i + 1;
        assert(x.subrange(from as int, i as int).drop_last() =~= x.subrange(from as int, i - 1));
    }
    out
}

fn end_of_clusters(v: &Vec<String>, n: usize, Ghost(x): Ghost<Seq<Seq<char>>>) -> (r: Pos)
    requires
        n <= v@.len(),
        v@.len() == x.len(),
        forall|i: int| 0 <= i < x.len() ==> (#[trigger] v@[i])@ == x[i],
    ensures
        r == laid_end(x.take(n as int)),
{
    let mut row: usize = 0;
    let mut col: usize = 0;
    let mut i: usize = 0;
    assert(x.take(0) =~= Seq::<Seq<char>>::empty());
    while i < n
        invariant
            i <= n <= v@.len(),
            v@.len() == x.len(),
            forall|i: int| 0 <= i < x.len() ==> (#[trigger] v@[i])@ == x[i],
            laid_rows(x.take(i as int)).len() == row + 1,
            laid_rows(x.take(i as int)).last().len() == col,
            row <= i,
            col <= i,
        decreases n - i,
    {
        assert(x.take(i + 1).drop_last() =~= x.take(i as int));
        proof {
            reveal_strlit("\n");
            assert("\n"@ =~= seq!['\n']);
        }
        if same_str(v[i].as_str(), "\n") {
            row = row + 1;
            col = 0;
        } else {
            col = col + 1;
        }
        i = i + 1;
    }
    Pos { row, col }
}

/// The difference of two texts.
#[derive(Debug)]
pub struct Diff {
    pub start: Pos,
    pub removed: String,
    pub inserted: String,
}

impl View for Diff {
    type V = Delta;

    open spec fn view(&self) -> Delta {
        Delta { at: self.start, removed: self.removed@, inserted: self.inserted@ }
    }
}

impl Diff {
    /// The difference that leads from one text to another.
    pub fn new(before: &Vec<Line>, after: &Vec<Line>) -> (r: Diff)
        ensures
            r@ == delta_of(lines::text(before@), lines::text(after@)),
    {
        let ghost t = lines::text(before@);
        let ghost u = lines::text(after@);
        if before.len() == after.len() {
            let row = shared_rows(before, after);
            if row == before.len() {
                let r = Diff {
                    start: Pos { row: 0, col: 0 },
                    removed: String::new(),
                    inserted: String::new(),
                };
                assert(r.removed@ =~= Seq::empty());
                assert(r.inserted@ =~= Seq::empty());
                return r;
            }
            let mut multiple: bool = false;
            let mut k: usize = row + 1;
            while k < before.len()
                invariant
                    row < k <= before@.len() == after@.len(),
                    t == lines::text(before@),
                    u == lines::text(after@),
                    multiple == exists|j: int| row < j < k && #[trigger] t[j] != u[j],
                decreases before@.len() - k,
            {
                assert(t[k as int] == before@[k as int]@);
                assert(u[k as int] == after@[k as int]@);
                if !same_line(&before[k], &after[k]) {
                    multiple = true;
                }
                k = k + 1;
            }
            proof {
                if multiple {
                    let j = choose|j: int| row < j < k && #[trigger] t[j] != u[j];
                    assert(t.skip(row + 1)[j - row - 1] == t[j]);
                    assert(u.skip(row + 1)[j - row - 1] == u[j]);
                } else {
                    assert(t.skip(row + 1) =~= u.skip(row + 1)) by {
                        assert forall|i: int| 0 <= i < t.len() - row - 1 implies #[trigger] t.skip(
                            row + 1,
                        )[i] == u.skip(row + 1)[i] by {
                            assert(t[i + row + 1] == u[i + row + 1]);
                        }
                    }
                }
            }
            if !multiple {
                assert(t[row as int] == before@[row as int]@);
                assert(u[row as int] == after@[row as int]@);
                return Diff::diff_single_row(row, &before[row], &after[row]);
            }
        }
        Diff::diff_flat(before, after)
    }

    /// The difference over all graphemes, linefeeds among them.
    pub fn diff_flat(before: &Vec<Line>, after: &Vec<Line>) -> (r: Diff)
        ensures
            r@ == flat_delta(lines::text(before@), lines::text(after@)),
    {
        let a = join_lines(before.as_slice());
        let b = join_lines(after.as_slice());
        let ag = graphemes_of(a.as_str());
        let bg = graphemes_of(b.as_str());
        let ghost x = unicode::clusters(a@);
        let ghost y = unicode::clusters(b@);
        let (p, s) = shared_clusters(&ag, &bg, Ghost(x), Ghost(y));
        let removed = concat(&ag, p, ag.len() - s, Ghost(x));
        let inserted = concat(&bg, p, bg.len() - s, Ghost(y));
        let start = end_of_clusters(&ag, p, Ghost(x));
        Diff { start, removed, inserted }
    }

    /// The difference of two lines, which stays within the row.
    pub fn diff_single_row(row: usize, before: &Line, after: &Line) -> (r: Diff)
        ensures
            r@ == row_delta(row as int, before@, after@),
    {
        let (p, s) = shared_graphemes(before, after);
        let removed = stretch_string(before, p, before.len() - s);
        let inserted = stretch_string(after, p, after.len() - s);
        Diff { start: Pos { row, col: p }, removed, inserted }
    }
}

fn stretch_string(l: &Line, from: usize, to: usize) -> (r: String)
    requires
        from <= to <= l@.len(),
    ensures
        r@ == unicode::joined(l@.subrange(from as int, to as int)),
{
    let mut out: String = String::new();
    let mut i: usize = from;
    assert(l@.subrange(from as int, from as int) =~= Seq::<Seq<char>>::empty());
    while i < to
        invariant
            from <= i <= to <= l@.len(),
            out@ == unicode::joined(l@.subrange(from as int, i as int)),
        decreases to - i,
    {
        let g = l.at(i).to_string();
        out.push_str(g.as_str());
        i = i + 1;
        assert(l@.subrange(from as int, i as int).drop_last() =~= l@.subrange(
            from as int,
            i - 1,
        ));
    }
    out
}

/// Where a text ends that is laid out from a place on.
pub fn region_end(at: Pos, s: &str) -> (r: Pos)
    ensures
        r == laid_out_end(at, s@),
        !pos::pos_lt(r, at),
{
    let rows = to_lines(s);
    let ghost l = lines::lines_of(s@);
    assert(lines::text(rows@).len() == rows@.len());
    if rows.len() == 1 {
        proof {
            lemma_one_row_is_whole(s@);
            assert(l[0] == unicode::clusters(s@));
            assert(l[0] == rows@[0]@);
        }
        Pos { row: at.row, col: at.col.saturating_add(rows[0].len()) }
    } else {
        let k: usize = rows.len() - 1;
        assert(l[k as int] == rows@[k as int]@);
        if k > usize::MAX - at.row {
            Pos { row: usize::MAX, col: usize::MAX }
        } else {
            Pos { row: at.row + k, col: rows[k].len() }
        }
    }
}

/// Replaces what one string takes up at a place by another.
pub fn splice_lines(buf: &mut Vec<Line>, at: Pos, remove: &str, insert: &str)
    requires
        old(buf)@.len() > 0,
    ensures
        lines::text(final(buf)@) == spliced(lines::text(old(buf)@), at, remove@, insert@),
{
    let end = region_end(at, remove);
    extract_range_contiguous(buf, at, end);
    proof {
        reveal_strlit("");
        assert(insert@.len() == 0 ==> insert@ =~= ""@);
    }
    if !same_str(insert, "") {
        insert_lines(buf, at, to_lines(insert));
    }
}

impl Edit {
    fn delta(
        at: Pos,
        removed: String,
        inserted: String,
        old_cursor: Pos,
        new_cursor: Pos,
    ) -> (r: Edit)
        ensures
            r@ == Kept::Delta(Delta { at, removed: removed@, inserted: inserted@ }),
            r.old_cursor == old_cursor && r.new_cursor == new_cursor && !r.merging,
            r.tidy(),
    {
        Edit {
            old_cursor,
            new_cursor,
            merging: false,
            body: EditBody::Delta { at, removed, inserted },
        }
    }

    fn snapshot(old: Vec<Line>, new: Vec<Line>, old_cursor: Pos, new_cursor: Pos, merging: bool) -> (r:
        Edit)
        ensures
            r@ == Kept::Snapshot(lines::text(old@), lines::text(new@)),
            r.old_cursor == old_cursor && r.new_cursor == new_cursor && r.merging == merging,
    {
        Edit { old_cursor, new_cursor, merging, body: EditBody::Snapshot { old, new } }
    }

    /// A step is open to later edits just where it keeps whole texts.
    pub open spec fn tidy(self) -> bool {
        self.merging <==> self.body is Snapshot
    }

    /// An empty step, which ends a run of merged edits without a change.
    pub fn barrier(cursor: Pos) -> (r: Edit)
        ensures
            r@ == Kept::Delta(
                Delta { at: cursor, removed: Seq::empty(), inserted: Seq::empty() },
            ),
            r.old_cursor == cursor && r.new_cursor == cursor && !r.merging,
            r.tidy(),
    {
        let r = Edit::delta(cursor, String::new(), String::new(), cursor, cursor);
        r
    }

    /// Whether the step changes nothing.
    pub fn is_empty(&self) -> (r: bool)
        ensures
            r == (match self@ {
                Kept::Delta(d) => d.removed.len() == 0 && d.inserted.len() == 0,
                Kept::Snapshot(old, new) => old == new,
            }),
    {
        match &self.body {
            EditBody::Delta { at: _, removed, inserted } => {
                proof {
                    reveal_strlit("");
                    assert(removed@.len() == 0 ==> removed@ =~= ""@);
                    assert(inserted@.len() == 0 ==> inserted@ =~= ""@);
                }
                same_str(removed.as_str(), "") && same_str(inserted.as_str(), "")
            },
            EditBody::Snapshot { old, new } => same_lines(old, new),
        }
    }

    /// Makes the current text the text after an open step.
    pub fn set_new(&mut self, new_lines: Vec<Line>, cursor: Pos)
        ensures
            final(self)@ == (match old(self)@ {
                Kept::Snapshot(old, new) => Kept::Snapshot(old, lines::text(new_lines@)),
                Kept::Delta(d) => Kept::Delta(d),
            }),
            final(self).new_cursor == cursor,
            final(self).old_cursor == old(self).old_cursor,
            final(self).merging == old(self).merging,
            old(self).tidy() ==> final(self).tidy(),
    {
        if let EditBody::Snapshot { old, new: _ } = &self.body {
            self.body = EditBody::Snapshot { old: clone_lines(old), new: new_lines };
        }
        self.new_cursor = cursor;
    }

    /// Turns the whole texts of a step into their difference.
    pub fn finalize(&mut self)
        ensures
            final(self)@ == (match old(self)@ {
                Kept::Snapshot(old, new) => Kept::Delta(delta_of(old, new)),
                Kept::Delta(d) => Kept::Delta(d),
            }),
            *final(self) == (Edit { body: final(self).body, ..*old(self) }),
    {
        let data = match &self.body {
            EditBody::Snapshot { old, new } => Some(Diff::new(old, new)),
            EditBody::Delta { .. } => None,
        };
        if let Some(d) = data {
            self.body = EditBody::Delta {
                at: d.start,
                removed: d.removed,
                inserted: d.inserted,
            };
        }
    }

    /// Turns the difference of a step into whole texts, from the current text,
    /// which is the one after the step.
    pub fn make_snapshot(&mut self, current: &Vec<Line>)
        requires
            current@.len() > 0,
        ensures
            final(self)@ == (match old(self)@ {
                Kept::Snapshot(old, new) => Kept::Snapshot(old, new),
                Kept::Delta(d) => Kept::Snapshot(
                    undone(old(self)@, lines::text(current@)),
                    lines::text(current@),
                ),
            }),
            *final(self) == (Edit { body: final(self).body, ..*old(self) }),
    {
        let snap = match &self.body {
            EditBody::Delta { at, removed, inserted } => {
                let mut old = clone_lines(current);
                assert(lines::text(old@).len() == old@.len());
                assert(lines::text(current@).len() == current@.len());
                splice_lines(&mut old, *at, inserted.as_str(), removed.as_str());
                Some(old)
            },
            EditBody::Snapshot { .. } => None,
        };
        if let Some(old) = snap {
            self.body = EditBody::Snapshot { old, new: clone_lines(current) };
        }
    }

    /// Takes the step back.
    pub fn undo(&self, buf: &mut Vec<Line>)
        requires
            old(buf)@.len() > 0,
        ensures
            lines::text(final(buf)@) == undone(self@, lines::text(old(buf)@)),
    {
        self.apply(buf, true);
    }

    /// Takes the step again.
    pub fn redo(&self, buf: &mut Vec<Line>)
        requires
            old(buf)@.len() > 0,
        ensures
            lines::text(final(buf)@) == redone(self@, lines::text(old(buf)@)),
    {
        self.apply(buf, false);
    }

    fn apply(&self, buf: &mut Vec<Line>, is_undo: bool)
        requires
            old(buf)@.len() > 0,
        ensures
            lines::text(final(buf)@) == (if is_undo {
                undone(self@, lines::text(old(buf)@))
            } else {
                redone(self@, lines::text(old(buf)@))
            }),
    {
        match &self.body {
            EditBody::Snapshot { old, new } => {
                *buf = if is_undo {
                    clone_lines(old)
                } else {
                    clone_lines(new)
                };
            },
            EditBody::Delta { at, removed, inserted } => {
                if is_undo {
                    splice_lines(buf, *at, inserted.as_str(), removed.as_str());
                } else {
                    splice_lines(buf, *at, removed.as_str(), inserted.as_str());
                }
            },
        }
    }
}

/// Every step of the history is open just where it keeps whole texts.
pub open spec fn all_tidy(s: Seq<Edit>) -> bool {
    forall|i: int| 0 <= i < s.len() ==> (#[trigger] s[i]).tidy()
}

/// Records an edit from `before` to the current text. An open step takes it
/// in; otherwise a new step is added, with whole texts where it is to be open.
pub fn record_edit(
    stack: &mut Vec<Edit>,
    current: &Vec<Line>,
    before: Vec<Line>,
    old_cursor: Pos,
    new_cursor: Pos,
    want_merge: bool,
)
    requires
        all_tidy(old(stack)@),
    ensures
        all_tidy(final(stack)@),
        ({
            let s = old(stack)@;
            let e = final(stack)@.last();
            let t = lines::text(before@);
            let u = lines::text(current@);
            if s.len() > 0 && s.last().merging {
                &&& final(stack)@.len() == s.len()
                &&& final(stack)@.drop_last() == s.drop_last()
                &&& s.last()@ matches Kept::Snapshot(old, new) && e@ == Kept::Snapshot(old, u)
                &&& e.old_cursor == s.last().old_cursor && e.new_cursor == new_cursor && e.merging
            } else {
                &&& final(stack)@.len() == s.len() + 1
                &&& final(stack)@.drop_last() == s
                &&& e@ == (if want_merge {
                    Kept::Snapshot(t, u)
                } else {
                    Kept::Delta(delta_of(t, u))
                })
                &&& e.old_cursor == old_cursor && e.new_cursor == new_cursor && e.merging
                    == want_merge
            }
        }),
{
    let ghost s = stack@;
    if stack.len() > 0 && stack[stack.len() - 1].merging {
        let e = stack.pop();
        if let Some(mut e) = e {
            e.set_new(clone_lines(current), new_cursor);
            stack.push(e);
        }
        assert(stack@.drop_last() =~= s.drop_last());
    } else if want_merge {
        stack.push(Edit::snapshot(before, clone_lines(current), old_cursor, new_cursor, true));
        assert(stack@.drop_last() =~= s);
    } else {
        let d = Diff::new(&before, current);
        stack.push(Edit::delta(d.start, d.removed, d.inserted, old_cursor, new_cursor));
        assert(stack@.drop_last() =~= s);
    }
}

/// Opens or closes the last step for later edits.
pub fn set_top_merging(stack: &mut Vec<Edit>, current: &Vec<Line>, merging: bool)
    requires
        all_tidy(old(stack)@),
        current@.len() > 0,
    ensures
        all_tidy(final(stack)@),
        final(stack)@.len() == old(stack)@.len(),
        old(stack)@.len() > 0 ==> {
            let was = old(stack)@.last();
            let e = final(stack)@.last();
            &&& final(stack)@.drop_last() == old(stack)@.drop_last()
            &&& e.merging == merging
            &&& e.old_cursor == was.old_cursor && e.new_cursor == was.new_cursor
            &&& e@ == (match was@ {
                Kept::Delta(d) => if merging {
                    Kept::Snapshot(undone(was@, lines::text(current@)), lines::text(current@))
                } else {
                    Kept::Delta(d)
                },
                Kept::Snapshot(x, y) => if merging {
                    Kept::Snapshot(x, y)
                } else {
                    Kept::Delta(delta_of(x, y))
                },
            })
        },
{
    let ghost s = stack@;
    if let Some(mut e) = stack.pop() {
        if merging {
            if !e.merging {
                e.make_snapshot(current);
                e.merging = true;
            }
        } else {
            e.finalize();
            e.merging = false;
        }
        stack.push(e);
        assert(stack@.drop_last() =~= s.drop_last());
    }
}

} // verus!
