//! Style codes in a text, and that highlighting adds nothing else.

use crate::highlight;
use crate::highlight::HighlightTheme;
use crate::highlight::Hl;
use crate::highlight::Known;
use crate::highlight::Skim;
use crate::markers;
use crate::text;
use vstd::prelude::*;

verus! {

/// The escape character.
pub const ESC: char = '\x1b';

/// Whether a character can stand among the numbers of a style code.
pub open spec fn is_param(c: char) -> bool {
    ('0' <= c && c <= '9') || c == ';' || c == ':'
}

/// Where the numbers of a style code end.
pub open spec fn params_end(s: Seq<char>, i: int) -> int
    decreases s.len() - i,
{
    if 0 <= i < s.len() && is_param(s[i]) {
        params_end(s, i + 1)
    } else {
        i
    }
}

/// How many characters the style code takes that a text begins with: an escape,
/// a bracket, numbers and an `m`. Zero where it begins with none.
pub open spec fn code_len(s: Seq<char>) -> int {
    if s.len() >= 2 && s[0] == ESC && s[1] == '[' {
        let e = params_end(s, 2);
        if e < s.len() && s[e] == 'm' {
            e + 1
        } else {
            0
        }
    } else {
        0
    }
}

pub proof fn lemma_params(s: Seq<char>, i: int)
    requires
        0 <= i <= s.len(),
    ensures
        i <= params_end(s, i) <= s.len(),
    decreases s.len() - i,
{
    if i < s.len() && is_param(s[i]) {
        lemma_params(s, i + 1);
    }
}

proof fn lemma_params_add(a: Seq<char>, b: Seq<char>, i: int)
    requires
        0 <= i <= a.len(),
        params_end(a, i) < a.len(),
    ensures
        params_end(a + b, i) == params_end(a, i),
    decreases a.len() - i,
{
    if i < a.len() && is_param(a[i]) {
        lemma_params_add(a, b, i + 1);
    }
}

/// A text without its style codes.
pub open spec fn unstyled(s: Seq<char>) -> Seq<char>
    decreases s.len(),
{
    if s.len() == 0 {
        s
    } else if code_len(s) > 0 {
        proof {
            lemma_params(s, 2);
        }
        unstyled(s.skip(code_len(s)))
    } else {
        seq![s[0]] + unstyled(s.skip(1))
    }
}

/// Whether every escape of a text belongs to a style code.
pub open spec fn whole(s: Seq<char>) -> bool
    decreases s.len(),
{
    if s.len() == 0 {
        true
    } else if s[0] == ESC && code_len(s) == 0 {
        false
    } else if s[0] == ESC {
        proof {
            lemma_params(s, 2);
        }
        whole(s.skip(code_len(s)))
    } else {
        whole(s.skip(1))
    }
}

/// Whether a text is nothing but style codes.
pub open spec fn codes(s: Seq<char>) -> bool {
    whole(s) && unstyled(s).len() == 0
}

/// Whether a text holds no escape.
pub open spec fn clear(s: Seq<char>) -> bool {
    forall|i: int| 0 <= i < s.len() ==> #[trigger] s[i] != ESC
}

/// Whether every style of a theme is nothing but style codes.
pub open spec fn coded(t: HighlightTheme) -> bool {
    &&& codes(t.string@)
    &&& codes(t.keyword@)
    &&& codes(t.valid_command@)
    &&& codes(t.invalid_command@)
    &&& codes(t.control_flow@)
    &&& codes(t.argument@)
    &&& codes(t.argument_file@)
    &&& codes(t.variable@)
    &&& codes(t.operator@)
    &&& codes(t.comment@)
    &&& codes(t.glob@)
    &&& codes(t.selection@)
}

proof fn lemma_add(a: Seq<char>, b: Seq<char>)
    requires
        whole(a),
    ensures
        unstyled(a + b) == unstyled(a) + unstyled(b),
        whole(b) ==> whole(a + b),
    decreases a.len(),
{
    if a.len() == 0 {
        assert(a + b =~= b);
        assert(unstyled(a) + unstyled(b) =~= unstyled(b));
    } else if a[0] == ESC {
        let n = code_len(a);
        lemma_params(a, 2);
        lemma_params_add(a, b, 2);
        assert(code_len(a + b) == n);
        assert((a + b).skip(n) =~= a.skip(n) + b);
        lemma_add(a.skip(n), b);
    } else {
        assert(code_len(a) == 0);
        assert(code_len(a + b) == 0);
        assert((a + b).skip(1) =~= a.skip(1) + b);
        lemma_add(a.skip(1), b);
        assert(seq![a[0]] + (unstyled(a.skip(1)) + unstyled(b)) =~= (seq![a[0]] + unstyled(a.skip(1)))
            + unstyled(b));
    }
}

proof fn lemma_clear(s: Seq<char>)
    requires
        clear(s),
    ensures
        whole(s),
        unstyled(s) == s,
    decreases s.len(),
{
    if s.len() > 0 {
        assert(s[0] != ESC);
        assert forall|i: int| 0 <= i < s.skip(1).len() implies #[trigger] s.skip(1)[i] != ESC by {
            assert(s.skip(1)[i] == s[i + 1]);
        }
        lemma_clear(s.skip(1));
        assert(seq![s[0]] + s.skip(1) =~= s);
    }
}

proof fn lemma_clear_stripped(s: Seq<char>)
    ensures
        clear(s) <==> clear(markers::stripped(s)),
    decreases s.len(),
{
    if s.len() > 0 {
        let d = s.drop_last();
        lemma_clear_stripped(d);
        let r = markers::stripped(s);
        if clear(s) {
            assert forall|i: int| 0 <= i < d.len() implies #[trigger] d[i] != ESC by {
                assert(d[i] == s[i]);
            }
            assert(s[s.len() - 1] != ESC);
            assert forall|i: int| 0 <= i < r.len() implies #[trigger] r[i] != ESC by {
                if i < markers::stripped(d).len() {
                    assert(r[i] == markers::stripped(d)[i]);
                }
            }
        }
        if clear(r) {
            assert forall|i: int| 0 <= i < markers::stripped(d).len() implies #[trigger]
                markers::stripped(d)[i] != ESC by {
                assert(r[i] == markers::stripped(d)[i]);
            }
            assert(s.last() != ESC) by {
                if !markers::marker(s.last()) {
                    assert(r[r.len() - 1] == s.last());
                }
            }
            assert forall|i: int| 0 <= i < s.len() implies #[trigger] s[i] != ESC by {
                if i < d.len() {
                    assert(d[i] == s[i]);
                }
            }
        }
    }
}

proof fn lemma_reset()
    ensures
        codes("\x1b[0m"@),
{
    reveal_strlit("\x1b[0m");
    let s = "\x1b[0m"@;
    reveal_with_fuel(params_end, 3);
    assert(params_end(s, 2) == 3);
    assert(code_len(s) == 4);
    assert(s.skip(4) =~= Seq::<char>::empty());
    assert(whole(s.skip(4)));
    assert(unstyled(s.skip(4)) =~= Seq::<char>::empty());
}

/// Whether what was put out and the styles in force hold no broken code.
pub open spec fn sound(st: Hl) -> bool {
    &&& whole(st.out)
    &&& forall|i: int| 0 <= i < st.stack.len() ==> codes(#[trigger] st.stack[i])
}

/// Whether the second state shows some text more than the first.
pub open spec fn adds(a: Hl, b: Hl, t: Seq<char>) -> bool {
    &&& sound(b)
    &&& unstyled(b.out) == unstyled(a.out) + t
}

proof fn lemma_adds(a: Hl, b: Hl, c: Hl, t: Seq<char>, u: Seq<char>)
    requires
        adds(a, b, t),
        adds(b, c, u),
    ensures
        adds(a, c, t + u),
{
    assert(unstyled(a.out) + t + u =~= unstyled(a.out) + (t + u));
}

proof fn lemma_emit(st: Hl, style: Seq<char>)
    requires
        sound(st),
        codes(style),
    ensures
        adds(st, st.emit(style), Seq::empty()),
{
    lemma_add(st.out, style);
    assert(unstyled(style) =~= Seq::<char>::empty());
}

proof fn lemma_told(st: Hl, t: Seq<char>)
    requires
        sound(st),
        whole(t),
    ensures
        adds(st, st.told(t), unstyled(t)),
{
    lemma_add(st.out, t);
}

proof fn lemma_shown(st: Hl, c: char)
    requires
        sound(st),
        c != ESC,
    ensures
        adds(st, st.shown(c), seq![c]),
        adds(st, st.told(seq![c]), seq![c]),
{
    assert(clear(seq![c]));
    lemma_clear(seq![c]);
    lemma_add(st.out, seq![c]);
    assert(st.out.push(c) =~= st.out + seq![c]);
}

proof fn lemma_emit_reset(st: Hl)
    requires
        sound(st),
    ensures
        adds(st, st.emit_reset(), Seq::empty()),
{
    lemma_reset();
    lemma_emit(st, "\x1b[0m"@);
    assert(unstyled(st.out) + Seq::<char>::empty() =~= unstyled(st.out));
}

proof fn lemma_reapplied(st: Hl)
    requires
        sound(st),
    ensures
        adds(st, st.reapplied(), Seq::empty()),
{
    if st.stack.len() > 0 {
        assert(codes(st.stack[st.stack.len() - 1]));
        lemma_emit(st, st.stack.last());
    } else {
        lemma_emit_reset(st);
    }
}

proof fn lemma_pushed(st: Hl, style: Seq<char>)
    requires
        sound(st),
        codes(style),
    ensures
        adds(st, st.pushed(style), Seq::empty()),
{
    let a = Hl { stack: st.stack.push(style), ..st };
    assert(sound(a)) by {
        assert forall|i: int| 0 <= i < a.stack.len() implies codes(#[trigger] a.stack[i]) by {
            if i < st.stack.len() {
                assert(a.stack[i] == st.stack[i]);
            }
        }
    }
    lemma_emit(a, style);
    assert(unstyled(st.out) + Seq::<char>::empty() =~= unstyled(st.out));
}

proof fn lemma_popped(st: Hl)
    requires
        sound(st),
    ensures
        adds(st, st.popped(), Seq::empty()),
{
    let a = Hl {
        stack: if st.stack.len() > 0 {
            st.stack.drop_last()
        } else {
            st.stack
        },
        ..st
    };
    assert(sound(a)) by {
        assert forall|i: int| 0 <= i < a.stack.len() implies codes(#[trigger] a.stack[i]) by {
            assert(a.stack[i] == st.stack[i]);
        }
    }
    lemma_reapplied(a);
    assert(unstyled(st.out) + Seq::<char>::empty() =~= unstyled(st.out));
}

proof fn lemma_cleared(st: Hl)
    requires
        sound(st),
    ensures
        adds(st, st.cleared(), Seq::empty()),
{
    let a = Hl { stack: Seq::empty(), ..st };
    lemma_emit_reset(a);
    assert(unstyled(st.out) + Seq::<char>::empty() =~= unstyled(st.out));
}

proof fn lemma_selection(st: Hl, style: Seq<char>)
    requires
        sound(st),
        codes(style),
    ensures
        adds(st, st.selecting(style), Seq::empty()),
        adds(st, st.deselecting(), Seq::empty()),
{
    lemma_emit(st, style);
    lemma_reapplied(st);
}

/// A state that shows a text, put between a style and its end.
proof fn lemma_wrapped(st: Hl, style: Seq<char>, t: Seq<char>)
    requires
        sound(st),
        codes(style),
        clear(t),
    ensures
        adds(st, st.pushed(style).told(t).popped(), t),
{
    let e = Seq::<char>::empty();
    let a = st.pushed(style);
    let b = a.told(t);
    lemma_pushed(st, style);
    lemma_clear(t);
    lemma_told(a, t);
    lemma_popped(b);
    lemma_adds(st, a, b, e, t);
    lemma_adds(st, b, b.popped(), e + t, e);
    assert(e + t + e =~= t);
}

/// Where what is read behind a marker stops.
pub open spec fn skim_stop(mode: Skim, s: Seq<char>, i: int) -> int
    decreases s.len() - i,
{
    if i < 0 || i >= s.len() || mode.ends(s[i]) {
        i
    } else {
        skim_stop(mode, s, i + 1)
    }
}

/// Where the text goes on behind that.
pub open spec fn skim_next(mode: Skim, s: Seq<char>, i: int) -> int {
    let e = skim_stop(mode, s, i);
    if 0 <= e < s.len() && s[e] != markers::RESET {
        e + 1
    } else {
        e
    }
}

pub proof fn lemma_stop(mode: Skim, s: Seq<char>, i: int)
    requires
        0 <= i <= s.len(),
    ensures
        i <= skim_stop(mode, s, i) <= s.len(),
        skim_stop(mode, s, i) < s.len() ==> mode.ends(s[skim_stop(mode, s, i)]),
    decreases s.len() - i,
{
    if i < s.len() && !mode.ends(s[i]) {
        lemma_stop(mode, s, i + 1);
    }
}

/// Whether what stands inside a substitution begins with its opening, and ends
/// with its closing where it has one.
pub open spec fn enclosed(c: char, plain: Seq<char>, opening: Seq<char>, complete: bool) -> bool {
    let closed = plain.len() > opening.len() && plain.last() == ')';
    &&& text::has_prefix(plain, opening)
    &&& complete ==> closed == (c != markers::BACKTICK_SUB)
}

/// Whether the markers of a text stand as they should, from `i` on: a name that
/// is assigned to ends with the equals sign; a substitution begins with its
/// opening and ends with its closing; and what stands inside one is marked anew
/// by markers alone, which stand as they should.
pub open spec fn well_marked(known: Known, s: Seq<char>, i: int) -> bool
    decreases markers::stripped(s).len(), s.len() - i,
{
    if i < 0 || i >= s.len() {
        true
    } else if highlight::substitution(s[i]) {
        proof {
            highlight::lemma_place(s, highlight::end_of(s[i]), i + 1);
        }
        let sub = highlight::sub_at(s, s[i], i + 1);
        let noted = known.noted(sub.content);
        &&& enclosed(s[i], markers::stripped(sub.inner), sub.opening, sub.complete)
        &&& markers::stripped(noted) == markers::stripped(sub.content)
        &&& markers::stripped(noted).len() < markers::stripped(s).len() ==> well_marked(
            known,
            noted,
            0,
        )
        &&& well_marked(known, s, sub.next)
    } else if highlight::skim_of(s[i]) is Some {
        proof {
            lemma_stop(highlight::skim_of(s[i])->0, s, i + 1);
        }
        let mode = highlight::skim_of(s[i])->0;
        let e = skim_stop(mode, s, i + 1);
        &&& s[i] == markers::ASSIGNMENT ==> e < s.len() && s[e] == '='
        &&& well_marked(known, s, skim_next(mode, s, i + 1))
    } else {
        well_marked(known, s, i + 1)
    }
}

/// The one character from `i` on goes first.
proof fn lemma_stripped_step(s: Seq<char>, i: int)
    requires
        0 <= i < s.len(),
    ensures
        markers::stripped(s.skip(i)) == (if markers::marker(s[i]) {
            Seq::<char>::empty()
        } else {
            seq![s[i]]
        }) + markers::stripped(s.skip(i + 1)),
{
    let one = seq![s[i]];
    assert(s.skip(i) =~= one + s.skip(i + 1));
    markers::lemma_stripped_add(one, s.skip(i + 1));
    assert(one.drop_last() =~= Seq::<char>::empty());
    assert(markers::stripped(one.drop_last()) =~= Seq::<char>::empty());
    assert(one.last() == s[i]);
    if !markers::marker(s[i]) {
        assert(markers::stripped(one) =~= one);
    }
}

proof fn lemma_skim(selection: Seq<char>, mode: Skim, s: Seq<char>, i: int, st: Hl, acc: Seq<char>)
    requires
        0 <= i <= s.len(),
        sound(st),
        codes(selection),
        clear(s),
        clear(acc),
    ensures
        ({
            let (a, t, n) = highlight::skimmed(selection, mode, s, i, st, acc);
            let e = skim_stop(mode, s, i);
            let gone = if mode is Assign && e < s.len() && s[e] == '=' {
                seq!['=']
            } else {
                Seq::empty()
            };
            &&& adds(st, a, Seq::empty())
            &&& clear(t)
            &&& n == skim_next(mode, s, i)
            &&& acc + markers::stripped(s.skip(i)) == t + gone + markers::stripped(s.skip(n))
        }),
    decreases s.len() - i,
{
    let e = Seq::<char>::empty();
    let (a, t, n) = highlight::skimmed(selection, mode, s, i, st, acc);
    if i >= s.len() {
        assert(unstyled(st.out) + e =~= unstyled(st.out));
        assert(acc + markers::stripped(s.skip(i)) =~= acc + e + markers::stripped(s.skip(i)));
    } else {
        lemma_stripped_step(s, i);
        assert(s[i] != ESC);
        if mode.ends(s[i]) {
            assert(unstyled(st.out) + e =~= unstyled(st.out));
            if s[i] == '=' {
                assert(acc + (seq!['='] + markers::stripped(s.skip(i + 1))) =~= acc + seq!['=']
                    + markers::stripped(s.skip(i + 1)));
            } else {
                assert(acc + markers::stripped(s.skip(i)) =~= acc + e + markers::stripped(s.skip(n)));
            }
        } else if markers::visual(s[i]) {
            let next = if s[i] == markers::VISUAL_MODE_START {
                st.selecting(selection)
            } else {
                st.deselecting()
            };
            lemma_selection(st, selection);
            lemma_skim(selection, mode, s, i + 1, next, acc);
            lemma_adds(st, next, a, e, e);
            assert(e + e =~= e);
            assert(e + markers::stripped(s.skip(i + 1)) =~= markers::stripped(s.skip(i + 1)));
        } else if markers::marker(s[i]) {
            lemma_skim(selection, mode, s, i + 1, st, acc);
            assert(e + markers::stripped(s.skip(i + 1)) =~= markers::stripped(s.skip(i + 1)));
        } else {
            let more = acc.push(s[i]);
            assert forall|k: int| 0 <= k < more.len() implies #[trigger] more[k] != ESC by {
                if k < acc.len() {
                    assert(more[k] == acc[k]);
                }
            }
            lemma_skim(selection, mode, s, i + 1, st, more);
            assert(acc + (seq![s[i]] + markers::stripped(s.skip(i + 1))) =~= more + markers::stripped(
                s.skip(i + 1),
            ));
        }
    }
}

proof fn lemma_keep_visual(s: Seq<char>)
    ensures
        markers::stripped(markers::stripped_keep_visual(s)) == markers::stripped(s),
        forall|i: int|
            0 <= i < markers::stripped_keep_visual(s).len() ==> {
                let c = #[trigger] markers::stripped_keep_visual(s)[i];
                markers::marker(c) ==> markers::visual(c)
            },
    decreases s.len(),
{
    if s.len() > 0 {
        let d = s.drop_last();
        lemma_keep_visual(d);
        let r = markers::stripped_keep_visual(s);
        if !(markers::marker(s.last()) && !markers::visual(s.last())) {
            assert(r.drop_last() =~= markers::stripped_keep_visual(d));
            assert(r.last() == s.last());
            assert forall|i: int| 0 <= i < r.len() implies {
                let c = #[trigger] r[i];
                markers::marker(c) ==> markers::visual(c)
            } by {
                if i < r.len() - 1 {
                    assert(r[i] == markers::stripped_keep_visual(d)[i]);
                }
            }
        }
    }
}

proof fn lemma_behind(t: Seq<char>, ti: int, p: Seq<char>, pi: int)
    requires
        0 <= ti <= t.len(),
        0 <= pi <= p.len(),
        forall|i: int|
            0 <= i < t.len() ==> (markers::marker(#[trigger] t[i]) ==> markers::visual(t[i])),
        text::has_prefix(markers::stripped(t.skip(ti)), p.skip(pi)),
    ensures
        highlight::behind_prefix(t, ti, p, pi) matches Some(k) && {
            &&& ti <= k <= t.len()
            &&& markers::stripped(t.skip(ti)) == p.skip(pi) + markers::stripped(t.skip(k))
        },
    decreases t.len() - ti,
{
    let all = markers::stripped(t.skip(ti));
    if pi >= p.len() {
        assert(p.skip(pi) =~= Seq::<char>::empty());
        assert(p.skip(pi) + all =~= all);
    } else if ti >= t.len() {
        assert(t.skip(ti) =~= Seq::<char>::empty());
        assert(p.skip(pi).len() > 0);
    } else {
        lemma_stripped_step(t, ti);
        let rest = markers::stripped(t.skip(ti + 1));
        if markers::visual(t[ti]) {
            assert(all =~= rest);
            lemma_behind(t, ti + 1, p, pi);
        } else {
            assert(!markers::marker(t[ti]));
            assert(all == seq![t[ti]] + rest);
            assert(all[0] == t[ti]);
            assert(all.take(p.skip(pi).len() as int)[0] == p.skip(pi)[0]);
            assert(t[ti] == p[pi]);
            assert(p.skip(pi) =~= seq![p[pi]] + p.skip(pi + 1));
            assert(rest.take(p.skip(pi + 1).len() as int) =~= p.skip(pi + 1)) by {
                assert forall|k: int| 0 <= k < p.skip(pi + 1).len() implies rest[k] == #[trigger] p.skip(
                    pi + 1,
                )[k] by {
                    assert(all.take(p.skip(pi).len() as int)[k + 1] == p.skip(pi)[k + 1]);
                    assert(all[k + 1] == rest[k]);
                }
            }
            lemma_behind(t, ti + 1, p, pi + 1);
            let k = highlight::behind_prefix(t, ti, p, pi)->0;
            assert(seq![p[pi]] + (p.skip(pi + 1) + markers::stripped(t.skip(k))) =~= p.skip(pi)
                + markers::stripped(t.skip(k)));
        }
    }
}

/// What comes before a closing bracket, whatever ends of the selection stand
/// behind it.
proof fn lemma_before(t: Seq<char>, ti: int)
    requires
        0 <= ti <= t.len(),
        forall|i: int|
            0 <= i < t.len() ==> (markers::marker(#[trigger] t[i]) ==> markers::visual(t[i])),
    ensures
        ({
            let plain = markers::stripped(t.take(ti));
            match highlight::before_suffix(t, ti, ")"@, 1) {
                Some(k) => 0 <= k <= ti && plain == markers::stripped(t.take(k)).push(')'),
                None => plain.len() == 0 || plain.last() != ')',
            }
        }),
    decreases ti,
{
    reveal_strlit(")");
    reveal_with_fuel(highlight::before_suffix, 2);
    if ti > 0 {
        let a = t.take(ti);
        assert(a.drop_last() =~= t.take(ti - 1));
        assert(a.last() == t[ti - 1]);
        if markers::visual(t[ti - 1]) {
            lemma_before(t, ti - 1);
        }
    }
}

proof fn lemma_content(s: Seq<char>, c: char, i: int)
    requires
        0 <= i <= s.len(),
        ({
            let sub = highlight::sub_at(s, c, i);
            enclosed(c, markers::stripped(sub.inner), sub.opening, sub.complete)
        }),
    ensures
        ({
            let sub = highlight::sub_at(s, c, i);
            markers::stripped(sub.inner) == sub.opening + markers::stripped(sub.content) + (
            if sub.complete && c != markers::BACKTICK_SUB {
                seq![')']
            } else {
                Seq::empty()
            })
        }),
{
    let sub = highlight::sub_at(s, c, i);
    let inner = sub.inner;
    let open = sub.opening;
    let plain = markers::stripped(inner);
    let t = markers::stripped_keep_visual(inner);
    lemma_keep_visual(inner);
    assert(t.skip(0) =~= t);
    assert(open.skip(0) =~= open);
    lemma_behind(t, 0, open, 0);
    let k = highlight::behind_prefix(t, 0, open, 0)->0;
    let clean = t.skip(k);
    assert(plain == open + markers::stripped(clean));
    assert forall|j: int|
        0 <= j < clean.len() && markers::marker(#[trigger] clean[j]) implies markers::visual(
        clean[j],
    ) by {
        assert(clean[j] == t[k + j]);
    }
    let x = markers::stripped(clean);
    reveal_strlit(")");
    if sub.complete {
        lemma_before(clean, clean.len() as int);
        assert(clean.take(clean.len() as int) =~= clean);
        if x.len() > 0 {
            assert(plain.last() == x.last());
        }
        match highlight::before_suffix(clean, clean.len() as int, ")"@, 1) {
            Some(e) => {
                assert(x.len() > 0 && x.last() == ')');
                assert(sub.content == clean.take(e));
                assert(open + markers::stripped(clean.take(e)).push(')') =~= open
                    + markers::stripped(clean.take(e)) + seq![')']);
            },
            None => {
                assert(plain.len() > open.len() ==> x.len() > 0);
                assert(c == markers::BACKTICK_SUB);
                assert(open + x + Seq::<char>::empty() =~= open + x);
            },
        }
    } else {
        assert(open + x + Seq::<char>::empty() =~= open + x);
    }
}

proof fn lemma_plain_kept(selection: Seq<char>, s: Seq<char>, i: int, st: Hl)
    requires
        0 <= i <= s.len(),
        sound(st),
        codes(selection),
        clear(s),
    ensures
        adds(st, highlight::lit_plain(selection, s, i, st), markers::stripped(s.skip(i))),
    decreases s.len() - i,
{
    let e = Seq::<char>::empty();
    if i >= s.len() {
        assert(s.skip(i) =~= e);
        assert(unstyled(st.out) + e =~= unstyled(st.out));
    } else {
        lemma_stripped_step(s, i);
        assert(s[i] != ESC);
        lemma_selection(st, selection);
        lemma_shown(st, s[i]);
        assert(unstyled(st.out) + e =~= unstyled(st.out));
        let next = if s[i] == markers::VISUAL_MODE_START {
            st.selecting(selection)
        } else if s[i] == markers::VISUAL_MODE_END {
            st.deselecting()
        } else if markers::marker(s[i]) {
            st
        } else {
            st.shown(s[i])
        };
        lemma_plain_kept(selection, s, i + 1, next);
        lemma_adds(
            st,
            next,
            highlight::lit_plain(selection, s, i, st),
            if markers::marker(s[i]) {
                e
            } else {
                seq![s[i]]
            },
            markers::stripped(s.skip(i + 1)),
        );
    }
}

proof fn lemma_lit_one(theme: HighlightTheme, known: Known, s: Seq<char>, i: int, st: Hl, c: char)
    requires
        coded(theme),
        sound(st),
        c != ESC,
    ensures
        adds(
            st,
            highlight::lit_one(theme, known, s, i, st, c),
            if markers::marker(c) {
                Seq::empty()
            } else {
                seq![c]
            },
        ),
{
    lemma_popped(st);
    lemma_cleared(st);
    lemma_shown(st, c);
    lemma_pushed(st, theme.string@);
    lemma_pushed(st, theme.keyword@);
    lemma_pushed(st, theme.valid_command@);
    lemma_pushed(st, theme.invalid_command@);
    lemma_pushed(st, theme.control_flow@);
    lemma_pushed(st, theme.argument@);
    lemma_pushed(st, theme.argument_file@);
    lemma_pushed(st, theme.variable@);
    lemma_pushed(st, theme.operator@);
    lemma_pushed(st, theme.comment@);
    lemma_pushed(st, theme.glob@);
    lemma_pushed(st, theme.selection@);
    assert(unstyled(st.out) + Seq::<char>::empty() =~= unstyled(st.out));
}

proof fn lemma_opening(c: char, plain: Seq<char>)
    ensures
        clear(highlight::opening(c, plain)),
{
    reveal_strlit("`");
    reveal_strlit("$(");
    reveal_strlit("(");
    reveal_strlit("<(");
    reveal_strlit(">(");
}

proof fn lemma_after_sub(
    selection: Seq<char>,
    operator: Seq<char>,
    st: Hl,
    nested: Hl,
    sub: highlight::Sub,
    backtick: bool,
    inside: Seq<char>,
)
    requires
        sound(st),
        sound(nested),
        codes(selection),
        codes(operator),
        clear(sub.opening),
        unstyled(nested.out) == inside,
    ensures
        adds(
            st,
            highlight::after_sub(selection, operator, st, nested, sub, backtick),
            sub.opening + inside + (if sub.complete && !backtick {
                seq![')']
            } else {
                Seq::empty()
            }),
        ),
{
    let e = Seq::<char>::empty();
    let a = Hl { sel: nested.sel, stack: st.stack + nested.stack, ..st };
    assert(sound(a)) by {
        assert forall|i: int| 0 <= i < a.stack.len() implies codes(#[trigger] a.stack[i]) by {
            if i < st.stack.len() {
                assert(a.stack[i] == st.stack[i]);
            } else {
                assert(a.stack[i] == nested.stack[i - st.stack.len()]);
            }
        }
    }
    let b = if st.sel {
        a.emit(selection).told(sub.opening)
    } else {
        a.pushed(operator).told(sub.opening).popped()
    };
    assert(adds(a, b, sub.opening)) by {
        if st.sel {
            lemma_emit(a, selection);
            lemma_clear(sub.opening);
            lemma_told(a.emit(selection), sub.opening);
            lemma_adds(a, a.emit(selection), b, e, sub.opening);
            assert(e + sub.opening =~= sub.opening);
        } else {
            lemma_wrapped(a, operator, sub.opening);
        }
    }
    let n = Hl { stack: Seq::empty(), ..nested };
    lemma_cleared(n);
    let t = n.taken();
    assert(unstyled(t) =~= inside);
    let c = b.told(t);
    lemma_told(b, t);
    lemma_adds(a, b, c, sub.opening, inside);
    let x = sub.opening + inside;
    assert(clear(seq![')']));
    assert(clear(e));
    lemma_wrapped(c, operator, seq![')']);
    lemma_pushed(c, operator);
    lemma_popped(c.pushed(operator));
    if sub.complete {
        if backtick {
            let d = c.pushed(operator).popped();
            lemma_adds(c, c.pushed(operator), d, e, e);
            assert(e + e =~= e);
            lemma_adds(a, c, d, x, e);
        } else {
            lemma_adds(a, c, c.pushed(operator).told(seq![')']).popped(), x, seq![')']);
        }
    } else {
        assert(x + e =~= x);
    }
}

proof fn lemma_lit_keeps(
    theme: HighlightTheme,
    known: Known,
    only: bool,
    s: Seq<char>,
    i: int,
    st: Hl,
)
    requires
        0 <= i <= s.len(),
        coded(theme),
        sound(st),
        clear(s),
        only || well_marked(known, s, i),
    ensures
        adds(st, highlight::lit(theme, known, only, s, i, st), markers::stripped(s.skip(i))),
    decreases markers::stripped(s).len(), s.len() - i,
{
    let e = Seq::<char>::empty();
    let r = highlight::lit(theme, known, only, s, i, st);
    if i >= s.len() {
        assert(s.skip(i) =~= e);
        assert(unstyled(st.out) + e =~= unstyled(st.out));
    } else {
        lemma_stripped_step(s, i);
        let c = s[i];
        assert(c != ESC);
        let one = if markers::marker(c) {
            e
        } else {
            seq![c]
        };
        let rest = markers::stripped(s.skip(i + 1));
        if markers::visual(c) || only {
            lemma_selection(st, theme.selection@);
            lemma_shown(st, c);
            assert(unstyled(st.out) + e =~= unstyled(st.out));
            let next = if c == markers::VISUAL_MODE_START {
                st.selecting(theme.selection@)
            } else if c == markers::VISUAL_MODE_END {
                st.deselecting()
            } else if markers::marker(c) {
                st
            } else {
                st.told(seq![c])
            };
            lemma_lit_keeps(theme, known, only, s, i + 1, next);
            lemma_adds(st, next, r, one, rest);
        } else if highlight::substitution(c) {
            highlight::lemma_place(s, highlight::end_of(c), i + 1);
            let end = highlight::place(s, highlight::end_of(c), i + 1);
            let sub = highlight::sub_at(s, c, i + 1);
            let noted = known.noted(sub.content);
            let start = highlight::nest_start(st.sel, theme.selection@);
            let fresh = Hl { out: e, stack: Seq::empty(), was_reset: true, sel: st.sel };
            assert(sound(fresh));
            lemma_emit(fresh, theme.selection@);
            assert(unstyled(start.out) =~= e);
            lemma_content(s, c, i + 1);
            lemma_inner_clear(s, i + 1, end);
            lemma_opening(c, markers::stripped(sub.inner));
            let inside = markers::stripped(sub.content);
            assert(clear(inside)) by {
                let p = markers::stripped(sub.inner);
                lemma_clear_stripped(sub.inner);
                assert forall|k: int| 0 <= k < inside.len() implies #[trigger] inside[k] != ESC by {
                    assert(p[sub.opening.len() + k] == inside[k]);
                }
            }
            lemma_clear_stripped(noted);
            assert(noted.skip(0) =~= noted);
            let nested = if markers::stripped(noted).len() < markers::stripped(s).len() {
                highlight::lit(theme, known, false, noted, 0, start)
            } else {
                highlight::lit_plain(theme.selection@, noted, 0, start)
            };
            if markers::stripped(noted).len() < markers::stripped(s).len() {
                lemma_lit_keeps(theme, known, false, noted, 0, start);
            } else {
                lemma_plain_kept(theme.selection@, noted, 0, start);
            }
            assert(unstyled(nested.out) =~= inside);
            let backtick = c == markers::BACKTICK_SUB;
            let next = highlight::after_sub(
                theme.selection@,
                theme.operator@,
                st,
                nested,
                sub,
                backtick,
            );
            lemma_after_sub(
                theme.selection@,
                theme.operator@,
                st,
                nested,
                sub,
                backtick,
                inside,
            );
            let shown = markers::stripped(sub.inner);
            assert(adds(st, next, shown));
            lemma_lit_keeps(theme, known, only, s, sub.next, next);
            lemma_adds(st, next, r, shown, markers::stripped(s.skip(sub.next)));
            assert(s.skip(i + 1) =~= sub.inner + s.skip(end));
            markers::lemma_stripped_add(sub.inner, s.skip(end));
            if end < s.len() {
                lemma_end_found(s, highlight::end_of(c), i + 1);
                lemma_stripped_step(s, end);
                assert(e + markers::stripped(s.skip(end + 1)) =~= markers::stripped(s.skip(end + 1)));
            }
            assert(e + rest =~= rest);
        } else if highlight::skim_of(c) is Some {
            let mode = highlight::skim_of(c)->0;
            lemma_stop(mode, s, i + 1);
            highlight::lemma_skimmed(theme.selection@, mode, s, i + 1, st, Seq::empty());
            assert(clear(e));
            lemma_skim(theme.selection@, mode, s, i + 1, st, e);
            let (a, t, n) = highlight::skimmed(theme.selection@, mode, s, i + 1, st, Seq::empty());
            let next = if c == markers::ASSIGNMENT {
                highlight::after_assign(theme, a, t)
            } else {
                highlight::after_var(theme, a, t)
            };
            let gone = if c == markers::ASSIGNMENT {
                seq!['=']
            } else {
                e
            };
            assert(adds(a, next, t + gone)) by {
                if c == markers::ASSIGNMENT {
                    lemma_clear(t);
                    lemma_told(a, t);
                    assert(clear(seq!['=']));
                    lemma_wrapped(a.told(t), theme.variable@, seq!['=']);
                    lemma_adds(a, a.told(t), next, t, seq!['=']);
                } else {
                    lemma_wrapped(a, theme.variable@, t);
                    assert(t + e =~= t);
                }
            }
            lemma_adds(st, a, next, e, t + gone);
            assert(e + (t + gone) =~= t + gone);
            lemma_lit_keeps(theme, known, only, s, n, next);
            lemma_adds(st, next, r, t + gone, markers::stripped(s.skip(n)));
            assert(e + rest =~= rest);
        } else {
            let next = highlight::lit_one(theme, known, s, i + 1, st, c);
            lemma_lit_one(theme, known, s, i + 1, st, c);
            lemma_lit_keeps(theme, known, only, s, i + 1, next);
            lemma_adds(st, next, r, one, rest);
        }
    }
}

proof fn lemma_inner_clear(s: Seq<char>, i: int, j: int)
    requires
        0 <= i <= j <= s.len(),
        clear(s),
    ensures
        clear(s.subrange(i, j)),
{
    let t = s.subrange(i, j);
    assert forall|k: int| 0 <= k < t.len() implies #[trigger] t[k] != ESC by {
        assert(t[k] == s[i + k]);
    }
}

proof fn lemma_end_found(s: Seq<char>, c: char, i: int)
    requires
        0 <= i <= s.len(),
        highlight::place(s, c, i) < s.len(),
    ensures
        s[highlight::place(s, c, i)] == c,
    decreases s.len() - i,
{
    if i < s.len() && s[i] != c {
        lemma_end_found(s, c, i + 1);
    }
}

/// Lighting a text that holds no escape adds the text, without its markers, and
/// style codes.
pub proof fn lighting_adds_the_text(
    theme: HighlightTheme,
    known: Known,
    only: bool,
    s: Seq<char>,
    st: Hl,
)
    requires
        coded(theme),
        sound(st),
        clear(markers::stripped(s)),
        only || well_marked(known, s, 0),
    ensures
        adds(st, highlight::lit(theme, known, only, s, 0, st), markers::stripped(s)),
{
    lemma_clear_stripped(s);
    lemma_lit_keeps(theme, known, only, s, 0, st);
    assert(s.skip(0) =~= s);
}

/// Handing out adds nothing but style codes.
pub proof fn handing_out_adds_nothing(st: Hl)
    requires
        sound(st),
    ensures
        unstyled(st.taken()) == unstyled(st.out),
{
    lemma_cleared(st);
    assert(unstyled(st.out) + Seq::<char>::empty() =~= unstyled(st.out));
}

} // verus!
