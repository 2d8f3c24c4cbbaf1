//! The completer that puts candidates into the line in turn.

use crate::complete::candidate;
use crate::complete::candidate::Candidate;
use crate::complete::candidate::CompResponse;
use crate::complete::candidate::CompResult;
use crate::complete::escape;
use crate::complete::escape::ends_with_unescaped;
use crate::complete::escape::escape_str;
use crate::complete::strat;
use crate::complete::strat::break_strat;
use crate::complete::strat::CompStrat;
use crate::context::CtxTk;
use crate::context::CtxTkRule;
use crate::context::Span;
use crate::markers;
use crate::markers::is_marker;
use crate::text;
use crate::text::bytes_up_to;
use crate::text::chars_of;
use crate::text::owned;
use crate::text::skip_bytes;
use crate::text::slice_bytes;
use crate::text::string_of;
use crate::text::sub_chars;
use crate::text::take_bytes;
use crate::unicode;
use crate::unicode::width_of_str;
use vstd::prelude::*;

verus! {

/// A command line as a completion function sees it: its words, the one that
/// the cursor is on, the line and where the cursor is.
#[derive(Debug)]
pub struct CompContext {
    pub words: Vec<String>,
    pub cword: usize,
    pub line: String,
    pub cursor_pos: usize,
}

impl CompContext {
    /// The command of the line.
    pub fn cmd(&self) -> (r: Option<&str>)
        ensures
            match r {
                Some(s) => self.words@.len() > 0 && s@ == self.words@[0]@,
                None => self.words@.len() == 0,
            },
    {
        if self.words.len() > 0 {
            Some(self.words[0].as_str())
        } else {
            None
        }
    }
}

/// The texts of strings.
pub open spec fn texts(v: Seq<String>) -> Seq<Seq<char>> {
    Seq::new(v.len(), |i: int| v[i]@)
}

/// How a completion function wants its candidates treated.
#[derive(Debug, Clone, Copy, PartialEq, Eq, Structural)]
pub struct CompOptFlags {
    /// Put a space behind a candidate.
    pub space: bool,
    /// Fall back to directories.
    pub dirnames: bool,
    /// Fall back to files.
    pub default: bool,
}

impl CompOptFlags {
    pub fn empty() -> (r: Self)
        ensures
            r == (CompOptFlags { space: false, dirnames: false, default: false }),
    {
        CompOptFlags { space: false, dirnames: false, default: false }
    }
}

/// What a completion function gave.
#[derive(Debug)]
pub enum CompSpecResult {
    /// There is none for the command.
    NoSpec,
    /// It gave nothing.
    NoMatch { flags: CompOptFlags },
    /// It gave candidates.
    Match { result: CompResult, flags: CompOptFlags },
}

/// Sorts out what a completion function gave.
pub fn comp_spec_result(candidates: Vec<Candidate>, flags: CompOptFlags) -> (r: CompSpecResult)
    ensures
        match r {
            CompSpecResult::NoSpec => false,
            CompSpecResult::NoMatch { flags: f } => candidates@.len() == 0 && f == flags,
            CompSpecResult::Match { result, flags: f } => candidates@.len() > 0 && f == flags
                && result.candidates() == candidates@ && !(result is NoMatch) && (result is Single
                <==> candidates@.len() == 1),
        },
{
    if candidates.len() == 0 {
        CompSpecResult::NoMatch { flags }
    } else {
        CompSpecResult::Match { result: CompResult::from_candidates(candidates), flags }
    }
}

/// What a file or an argument is completed from when a completion function has
/// nothing.
#[derive(Debug, Clone, Copy, PartialEq, Eq, Structural)]
pub enum Fallback {
    Files,
    Dirs,
    Nothing,
}

/// What to do about an argument.
#[derive(Debug)]
pub enum ArgOutcome {
    Done(CompResult),
    Look(Fallback),
}

/// The completer that puts candidates into the line in turn.
#[derive(Debug)]
pub struct SimpleCompleter {
    pub candidates: Vec<Candidate>,
    pub selected_idx: usize,
    pub original_input: String,
    pub token_span: (usize, usize),
    pub cursor_pos: usize,
    pub active: bool,
    pub dirs_only: bool,
    pub add_space: bool,
    pub escape_candidates: bool,
    pub graft_pos: Option<usize>,
}

/// A text without the slashes at its end.
pub open spec fn without_slashes(s: Seq<char>) -> Seq<char>
    decreases s.len(),
{
    if s.len() > 0 && s.last() == '/' {
        without_slashes(s.drop_last())
    } else {
        s
    }
}

/// What follows the last slash among the first `n` characters.
pub open spec fn after_slash(s: Seq<char>, n: int) -> Seq<char>
    decreases n,
{
    if n <= 0 || n > s.len() {
        s
    } else if s[n - 1] == '/' {
        s.skip(n)
    } else {
        after_slash(s, n - 1)
    }
}

/// The last part of a path, with a slash behind it if the path has one.
pub open spec fn base_name(s: Seq<char>) -> Seq<char> {
    let t = without_slashes(s);
    let b = after_slash(t, t.len() as int);
    if s.len() > 0 && s.last() == '/' {
        b.push('/')
    } else {
        b
    }
}

/// The line before a candidate, and the part of the candidate that is put
/// there. Where case matters the typed start stays and only the rest is put in.
pub open spec fn put_parts(
    input: Seq<char>,
    span: (usize, usize),
    graft: Option<usize>,
    selected: Seq<char>,
    ignore_case: bool,
) -> (Seq<char>, Seq<char>) {
    if ignore_case {
        match graft {
            Some(g) => (text::up_to_byte(input, g as int), base_name(selected)),
            None => (text::up_to_byte(input, span.0 as int), selected),
        }
    } else {
        let slice = typed_slice(input, span);
        (
            text::up_to_byte(input, span.0 + unicode::str_columns(slice)),
            match candidate::rest_after(selected, slice, false) {
                Some(r) => r,
                None => selected,
            },
        )
    }
}

/// The typed text that a candidate replaces; nothing where the span is not one
/// of the line.
pub open spec fn typed_slice(input: Seq<char>, span: (usize, usize)) -> Seq<char> {
    if span.0 <= span.1 && text::on_boundary(input, span.0 as int) && text::on_boundary(
        input,
        span.1 as int,
    ) {
        text::byte_slice(input, span.0 as int, span.1 as int)
    } else {
        Seq::empty()
    }
}

/// The line with a candidate put in.
pub open spec fn completed(
    input: Seq<char>,
    span: (usize, usize),
    graft: Option<usize>,
    escape_it: bool,
    selected: Seq<char>,
    ignore_case: bool,
) -> Seq<char> {
    let (before, new) = put_parts(input, span, graft, selected, ignore_case);
    before + (if escape_it {
        escape::escaped(new)
    } else {
        new
    }) + text::from_byte(input, span.1 as int)
}

/// What stands behind the completed token stays as it is.
pub proof fn completing_keeps_the_rest(
    input: Seq<char>,
    span: (usize, usize),
    graft: Option<usize>,
    escape_it: bool,
    selected: Seq<char>,
    ignore_case: bool,
)
    ensures
        text::has_suffix(
            completed(input, span, graft, escape_it, selected, ignore_case),
            text::from_byte(input, span.1 as int),
        ),
        text::has_prefix(
            completed(input, span, graft, escape_it, selected, ignore_case),
            put_parts(input, span, graft, selected, ignore_case).0,
        ),
{
    let (before, new) = put_parts(input, span, graft, selected, ignore_case);
    let mid = if escape_it {
        escape::escaped(new)
    } else {
        new
    };
    let tail = text::from_byte(input, span.1 as int);
    let all = before + mid + tail;
    assert(all.skip(all.len() - tail.len()) =~= tail);
    assert(all.take(before.len() as int) =~= before);
}

/// Whether a candidate is left without a space behind it: a directory, an
/// option that takes a value, or one that has a space already.
pub open spec fn ends_open(s: Seq<char>) -> bool {
    escape::ends_plain(s, '/') || escape::ends_plain(s, '=') || escape::ends_plain(s, ' ')
}

/// Whether a candidate is given as it is, or with a space behind it where one is put
/// behind it.
pub open spec fn given(c: Candidate, d: Candidate, add_space: bool) -> bool {
    if add_space && !ends_open(c.content@) {
        &&& d.content@ == c.content@.push(' ')
        &&& d == (Candidate { content: d.content, desc: None, id: None, weight: 0 })
    } else {
        d == c
    }
}

/// The next selection, going round.
pub open spec fn cycled(selected: int, direction: int, len: int) -> int {
    (selected + direction) % len
}

/// Cycling forward and back again ends where it began.
pub proof fn cycling_back_returns(selected: int, direction: int, len: int)
    requires
        0 <= selected < len,
    ensures
        cycled(cycled(selected, direction, len), -direction, len) == selected,
        0 <= cycled(selected, direction, len) < len,
{
    let a = (selected + direction) % len;
    vstd::arithmetic::div_mod::lemma_fundamental_div_mod(selected + direction, len);
    let q = (selected + direction) / len;
    assert(a - direction == selected + len * (-q)) by (nonlinear_arith)
        requires
            selected + direction == len * q + a,
    ;
    vstd::arithmetic::div_mod::lemma_mod_multiples_vanish(-q, selected, len);
    vstd::arithmetic::div_mod::lemma_small_mod(selected as nat, len as nat);
    assert(0 <= a < len) by (nonlinear_arith)
        requires
            len > 0,
            a == (selected + direction) % len,
    ;
}

/// Whether a token ends a command.
pub open spec fn ends_command(c: CtxTkRule) -> bool {
    c == CtxTkRule::Operator || c == CtxTkRule::Separator
}

/// The commands among the first `n` tokens: where each begins and ends.
pub open spec fn segments(tks: Seq<CtxTk>, n: int) -> Seq<(int, int)>
    decreases n,
{
    if n <= 0 || n > tks.len() {
        Seq::empty()
    } else {
        let s = segments(tks, n - 1);
        if ends_command(tks[n - 1].class) {
            s
        } else if s.len() > 0 && s.last().1 == n - 1 {
            s.drop_last().push((s.last().0, n))
        } else {
            s.push((n - 1, n))
        }
    }
}

/// The command that the cursor belongs to: the one before the first that
/// begins behind the cursor, or the last.
pub open spec fn segment_at(segs: Seq<(int, int)>, tks: Seq<CtxTk>, at: usize, i: int) -> int
    decreases segs.len() - i,
{
    if i < 0 || i >= segs.len() {
        segs.len() - 1
    } else if tks[segs[i].0].span.start > at {
        if i > 0 {
            i - 1
        } else {
            0
        }
    } else {
        segment_at(segs, tks, at, i + 1)
    }
}

/// The first token from `i` up to `end` that the cursor is on.
pub open spec fn word_under(tks: Seq<CtxTk>, at: usize, i: int, end: int) -> Option<int>
    decreases end - i,
{
    if i < 0 || i >= end || i >= tks.len() {
        None
    } else if strat::reaches(tks[i], at) {
        Some(i)
    } else {
        word_under(tks, at, i + 1, end)
    }
}

/// The first token from `i` up to `end` that begins behind the cursor.
pub open spec fn word_behind(tks: Seq<CtxTk>, at: usize, i: int, end: int) -> int
    decreases end - i,
{
    if i < 0 || i >= end || i >= tks.len() || tks[i].span.start > at {
        i
    } else {
        word_behind(tks, at, i + 1, end)
    }
}

/// The texts of the tokens from one to another.
pub open spec fn token_texts(tks: Seq<CtxTk>, from: int, to: int) -> Seq<Seq<char>> {
    Seq::new((to - from) as nat, |i: int| tks[from + i].text@)
}

/// The words of the command that the cursor belongs to, and the one that the
/// cursor is on. Between words an empty one is put in.
pub open spec fn words_at(tks: Seq<CtxTk>, at: usize) -> (Seq<Seq<char>>, int) {
    let segs = segments(tks, tks.len() as int);
    if segs.len() == 0 {
        (Seq::empty(), 0)
    } else {
        let (a, b) = segs[segment_at(segs, tks, at, 0)];
        let words = token_texts(tks, a, b);
        match word_under(tks, at, a, b) {
            Some(i) => (words, i - a),
            None => {
                let i = word_behind(tks, at, a, b) - a;
                (words.insert(i, Seq::empty()), i)
            },
        }
    }
}

proof fn lemma_segments(tks: Seq<CtxTk>, n: int)
    requires
        0 <= n <= tks.len(),
    ensures
        forall|i: int|
            0 <= i < segments(tks, n).len() ==> 0 <= (#[trigger] segments(tks, n)[i]).0
                < segments(tks, n)[i].1 <= n,
        segments(tks, n).len() <= n,
    decreases n,
{
    if n > 0 {
        lemma_segments(tks, n - 1);
    }
}

/// The contexts at a place of an annotated line, where the last began, how
/// much the last marker mattered, and how many plain characters were passed.
pub struct Subtoken {
    pub ctx: Seq<char>,
    pub start: int,
    pub last: int,
    pub pos: int,
}

/// The contexts after a marker or a plain character.
pub open spec fn subtoken_step(st: Subtoken, c: char) -> Subtoken {
    if !markers::marker(c) {
        Subtoken { last: 0, pos: st.pos + 1, ..st }
    } else if c == markers::COMMAND || c == markers::BUILTIN {
        if st.last < 2 {
            Subtoken {
                ctx: (if st.last > 0 && st.ctx.len() > 0 {
                    st.ctx.drop_last()
                } else {
                    st.ctx
                }).push(markers::COMMAND),
                start: st.pos,
                last: 2,
                ..st
            }
        } else {
            st
        }
    } else if c == markers::VAR_SUB {
        if st.last < 3 {
            Subtoken {
                ctx: (if st.last > 0 && st.ctx.len() > 0 {
                    st.ctx.drop_last()
                } else {
                    st.ctx
                }).push(markers::VAR_SUB),
                start: st.pos,
                last: 3,
                ..st
            }
        } else {
            st
        }
    } else if c == markers::ARG || c == markers::ASSIGNMENT {
        if st.last < 1 {
            Subtoken { ctx: st.ctx.push(markers::ARG), start: st.pos, ..st }
        } else {
            st
        }
    } else if c == markers::RESET && st.ctx.len() > 1 {
        Subtoken { ctx: st.ctx.drop_last(), last: 0, ..st }
    } else {
        st
    }
}

/// The contexts after some characters, up to where the cursor is reached.
pub open spec fn subtoken_at(s: Seq<char>, i: int, cursor: int, st: Subtoken) -> Subtoken
    decreases s.len() - i,
{
    if i < 0 || i >= s.len() {
        st
    } else {
        let next = subtoken_step(st, s[i]);
        if !markers::marker(s[i]) && next.pos >= cursor {
            next
        } else {
            subtoken_at(s, i + 1, cursor, next)
        }
    }
}

impl SimpleCompleter {
    /// A completer at rest.
    pub open spec fn idle(self) -> bool {
        &&& self.candidates@.len() == 0
        &&& self.selected_idx == 0
        &&& self.original_input@.len() == 0
        &&& self.token_span == (0usize, 0usize)
        &&& self.cursor_pos == 0
        &&& !self.active && !self.dirs_only && !self.add_space && !self.escape_candidates
        &&& self.graft_pos is None
    }

    /// The selection is one of the candidates.
    pub open spec fn wf(self) -> bool {
        self.candidates@.len() > 0 ==> self.selected_idx < self.candidates@.len()
    }

    pub fn new() -> (r: Self)
        ensures
            r.idle(),
    {
        SimpleCompleter {
            candidates: Vec::new(),
            selected_idx: 0,
            original_input: String::new(),
            token_span: (0, 0),
            cursor_pos: 0,
            active: false,
            dirs_only: false,
            add_space: false,
            escape_candidates: false,
            graft_pos: None,
        }
    }

    pub fn reset(&mut self)
        ensures
            final(self).idle(),
    {
        *self = SimpleCompleter::new();
    }

    pub fn reset_stay_active(&mut self)
        ensures
            final(self).active == old(self).active,
            (SimpleCompleter { active: false, ..*final(self) }).idle(),
    {
        let active: bool = self.active;
        self.reset();
        self.active = active;
    }

    pub fn is_active(&self) -> (r: bool)
        ensures
            r == self.active,
    {
        self.active
    }

    pub fn selected_candidate(&self) -> (r: Option<Candidate>)
        ensures
            r == (if self.selected_idx < self.candidates@.len() {
                Some(self.candidates@[self.selected_idx as int])
            } else {
                None
            }),
    {
        if self.selected_idx < self.candidates.len() {
            Some(self.candidates[self.selected_idx].clone())
        } else {
            None
        }
    }

    pub fn token_span(&self) -> (r: (usize, usize))
        ensures
            r == self.token_span,
    {
        self.token_span
    }

    pub fn original_input(&self) -> (r: &str)
        ensures
            r@ == self.original_input@,
    {
        self.original_input.as_str()
    }

    /// No key is for this completer.
    pub fn handle_key(&self) -> (r: CompResponse)
        ensures
            r is Passthrough,
    {
        CompResponse::Passthrough
    }

    /// The parts of a line before and behind the cursor.
    pub fn slice_line(line: &str, cursor_pos: usize) -> (r: (String, String))
        ensures
            r.0@ == text::up_to_byte(line@, cursor_pos as int),
            r.1@ == text::from_byte(line@, cursor_pos as int),
    {
        let v = chars_of(line);
        let a = take_bytes(v.as_slice(), cursor_pos);
        let b = skip_bytes(v.as_slice(), cursor_pos);
        (string_of(a.as_slice()), string_of(b.as_slice()))
    }

    /// The contexts at the cursor of an annotated line, and where the last of
    /// them began.
    pub fn get_subtoken_completion(annotated: &str, cursor_pos: usize) -> (r: (Vec<char>, usize))
        ensures
            ({
                let st = subtoken_at(
                    annotated@,
                    0,
                    cursor_pos as int,
                    Subtoken { ctx: seq![markers::NULL], start: 0, last: 0, pos: 0 },
                );
                r.0@ == st.ctx && r.1 == st.start
            }),
    {
        let v = chars_of(annotated);
        let mut ctx: Vec<char> = Vec::new();
        ctx.push(markers::NULL);
        let mut last: u8 = 0;
        let mut start: usize = 0;
        let mut pos: usize = 0;
        let mut i: usize = 0;
        let ghost st0 = Subtoken { ctx: seq![markers::NULL], start: 0, last: 0, pos: 0 };
        assert(ctx@ =~= seq![markers::NULL]);
        while i < v.len()
            invariant
                i <= v@.len(),
                v@ == annotated@,
                pos <= i,
                start <= i,
                st0 == (Subtoken { ctx: seq![markers::NULL], start: 0, last: 0, pos: 0 }),
                subtoken_at(annotated@, 0, cursor_pos as int, st0) == subtoken_at(
                    annotated@,
                    i as int,
                    cursor_pos as int,
                    Subtoken {
                        ctx: ctx@,
                        start: start as int,
                        last: last as int,
                        pos: pos as int,
                    },
                ),
            decreases v@.len() - i,
        {
            let c = v[i];
            let ghost st = Subtoken {
                ctx: ctx@,
                start: start as int,
                last: last as int,
                pos: pos as int,
            };
            if is_marker(c) {
                if c == markers::COMMAND || c == markers::BUILTIN {
                    if last < 2 {
                        if last > 0 && ctx.len() > 0 {
                            ctx.pop();
                        }
                        start = pos;
                        last = 2;
                        ctx.push(markers::COMMAND);
                    }
                } else if c == markers::VAR_SUB {
                    if last < 3 {
                        if last > 0 && ctx.len() > 0 {
                            ctx.pop();
                        }
                        start = pos;
                        last = 3;
                        ctx.push(markers::VAR_SUB);
                    }
                } else if c == markers::ARG || c == markers::ASSIGNMENT {
                    if last < 1 {
                        start = pos;
                        ctx.push(markers::ARG);
                    }
                } else if c == markers::RESET {
                    if ctx.len() > 1 {
                        ctx.pop();
                        last = 0;
                    }
                }
            } else {
                last = 0;
                pos = pos + 1;
                if pos >= cursor_pos {
                    assert(subtoken_step(st, c) == (Subtoken {
                        ctx: ctx@,
                        start: start as int,
                        last: 0,
                        pos: pos as int,
                    }));
                    return (ctx, start);
                }
            }
            i = i + 1;
        }
        (ctx, start)
    }

    /// The completer after the next candidate in a direction was selected, and the
    /// line with that candidate.
    pub open spec fn went_on(
        a: SimpleCompleter,
        b: SimpleCompleter,
        direction: i32,
        ignore_case: bool,
        r: Seq<char>,
    ) -> bool {
        if a.candidates@.len() == 0 {
            b == a && r == a.original_input@
        } else {
            let i = cycled(a.selected_idx as int, direction as int, a.candidates@.len() as int);
            &&& b == (SimpleCompleter { selected_idx: i as usize, ..a })
            &&& b.selected_idx == i
            &&& r == completed(
                a.original_input@,
                a.token_span,
                a.graft_pos,
                a.escape_candidates,
                a.candidates@[i].content@,
                ignore_case,
            )
        }
    }

    /// The completer after it started with what was found, and the line with the
    /// first candidate. Several candidates make it active; where nothing was found,
    /// it only notes the cursor.
    pub open spec fn started(
        a: SimpleCompleter,
        b: SimpleCompleter,
        line: Seq<char>,
        cursor_pos: usize,
        result: CompResult,
        ignore_case: bool,
        r: Option<Seq<char>>,
    ) -> bool {
        if result is NoMatch {
            b == (SimpleCompleter { cursor_pos, ..a }) && r is None
        } else {
            let c = result.candidates();
            &&& b.candidates@.len() == c.len()
            &&& forall|i: int|
                0 <= i < c.len() ==> given(c[i], #[trigger] b.candidates@[i], a.add_space)
            &&& b.original_input@ == line
            &&& b == (SimpleCompleter {
                candidates: b.candidates,
                selected_idx: 0,
                original_input: b.original_input,
                cursor_pos,
                active: result is Many,
                ..a
            })
            &&& r == Some(
                if c.len() == 0 {
                    line
                } else {
                    completed(
                        line,
                        a.token_span,
                        a.graft_pos,
                        a.escape_candidates,
                        b.candidates@[0].content@,
                        ignore_case,
                    )
                },
            )
        }
    }

    /// The completer after a step: it goes on where it is active, and else it starts.
    pub open spec fn stepped(
        a: SimpleCompleter,
        b: SimpleCompleter,
        line: Seq<char>,
        cursor_pos: usize,
        direction: i32,
        result: CompResult,
        ignore_case: bool,
        r: Option<Seq<char>>,
    ) -> bool {
        if a.active {
            r is Some && SimpleCompleter::went_on(a, b, direction, ignore_case, r->0)
        } else {
            SimpleCompleter::started(a, b, line, cursor_pos, result, ignore_case, r)
        }
    }

    /// Selects the next candidate in a direction and puts it into the line.
    pub fn cycle_completion(&mut self, direction: i32, ignore_case: bool) -> (r: String)
        requires
            old(self).wf(),
            old(self).candidates@.len() <= i32::MAX,
        ensures
            SimpleCompleter::went_on(*old(self), *final(self), direction, ignore_case, r@),
            final(self).wf(),
    {
        if self.candidates.len() == 0 {
            return owned(self.original_input.as_str());
        }
        let len: i64 = self.candidates.len() as i64;
        let sum: i64 = self.selected_idx as i64 + direction as i64;
        let m: i64 = if sum >= 0 {
            sum % len
        } else {
            let k: i64 = (-sum) % len;
            if k == 0 {
                0
            } else {
                len - k
            }
        };
        proof {
            lemma_wrapped(sum as int, len as int);
        }
        self.selected_idx = m as usize;
        self.get_completed_line(ignore_case)
    }

    /// Puts a space behind the candidates that want one.
    pub fn add_spaces(&mut self)
        ensures
            final(self).candidates@.len() == old(self).candidates@.len(),
            forall|i: int|
                0 <= i < old(self).candidates@.len() ==> given(
                    old(self).candidates@[i],
                    #[trigger] final(self).candidates@[i],
                    old(self).add_space,
                ),
            *final(self) == (SimpleCompleter { candidates: final(self).candidates, ..*old(self) }),
    {
        if !self.add_space {
            return;
        }
        let n: usize = self.candidates.len();
        let ghost was = self.candidates@;
        let mut out: Vec<Candidate> = Vec::new();
        let mut i: usize = 0;
        while i < n
            invariant
                i <= n == was.len(),
                self.candidates@ == was,
                out@.len() == i,
                forall|k: int| 0 <= k < i ==> given(was[k], #[trigger] out@[k], true),
            decreases n - i,
        {
            let s = self.candidates[i].content.as_str();
            if !ends_with_unescaped(s, '/') && !ends_with_unescaped(s, '=')
                && !ends_with_unescaped(s, ' ') {
                let mut t = owned(s);
                t.push(' ');
                out.push(Candidate::from_string(t));
            } else {
                out.push(self.candidates[i].clone());
            }
            i = i + 1;
        }
        self.candidates = out;
    }

    /// Starts with the candidates that were found. Several make the completer
    /// active; one is put into the line and that is all.
    pub fn start_completion(
        &mut self,
        line: String,
        cursor_pos: usize,
        result: CompResult,
        ignore_case: bool,
    ) -> (r: Option<String>)
        ensures
            SimpleCompleter::started(
                *old(self),
                *final(self),
                line@,
                cursor_pos,
                result,
                ignore_case,
                candidate::opt_chars(r),
            ),
    {
        self.cursor_pos = cursor_pos;
        let many: bool = match &result {
            CompResult::Many { .. } => true,
            _ => false,
        };
        let found: Vec<Candidate> = match result {
            CompResult::NoMatch => return None,
            CompResult::Single { result } => {
                let mut v: Vec<Candidate> = Vec::new();
                v.push(result);
                v
            },
            CompResult::Many { candidates } => candidates,
        };
        self.candidates = found;
        self.add_spaces();
        self.selected_idx = 0;
        self.original_input = line;
        self.active = many;
        Some(self.get_completed_line(ignore_case))
    }

    /// Goes on with the next candidate in a direction where the completer is active, and
    /// else starts with the candidates that were found.
    pub fn complete(
        &mut self,
        line: String,
        cursor_pos: usize,
        direction: i32,
        result: CompResult,
        ignore_case: bool,
    ) -> (r: Option<String>)
        requires
            old(self).active ==> old(self).wf() && old(self).candidates@.len() <= i32::MAX,
        ensures
            SimpleCompleter::stepped(
                *old(self),
                *final(self),
                line@,
                cursor_pos,
                direction,
                result,
                ignore_case,
                candidate::opt_chars(r),
            ),
    {
        if self.active {
            Some(self.cycle_completion(direction, ignore_case))
        } else {
            self.start_completion(line, cursor_pos, result, ignore_case)
        }
    }

    /// The line with the selected candidate put in.
    pub fn get_completed_line(&self, ignore_case: bool) -> (r: String)
        requires
            self.wf(),
        ensures
            r@ == (if self.candidates@.len() == 0 {
                self.original_input@
            } else {
                completed(
                    self.original_input@,
                    self.token_span,
                    self.graft_pos,
                    self.escape_candidates,
                    self.candidates@[self.selected_idx as int].content@,
                    ignore_case,
                )
            }),
    {
        if self.candidates.len() == 0 {
            return owned(self.original_input.as_str());
        }
        complete_line(
            self.original_input.as_str(),
            self.token_span,
            self.graft_pos,
            self.escape_candidates,
            &self.candidates[self.selected_idx],
            ignore_case,
        )
    }

    /// The words of the command at the cursor, for a completion function.
    pub fn build_comp_ctx(tks: &[CtxTk], line: &str, cursor_pos: usize) -> (r: CompContext)
        ensures
            (texts(r.words@), r.cword as int) == words_at(tks@, cursor_pos),
            r.line@ == line@,
            r.cursor_pos == cursor_pos,
    {
        let segs = find_segments(tks);
        let ghost sg = segments(tks@, tks@.len() as int);
        if segs.len() == 0 {
            let words: Vec<String> = Vec::new();
            assert(texts(words@) =~= Seq::empty());
            return CompContext { words, cword: 0, line: owned(line), cursor_pos };
        }
        proof {
            lemma_segments(tks@, tks@.len() as int);
        }
        let mut k: usize = segs.len() - 1;
        let mut i: usize = 0;
        while i < segs.len()
            invariant_except_break
                k == segs@.len() - 1,
                segment_at(sg, tks@, cursor_pos, 0) == segment_at(
                    sg,
                    tks@,
                    cursor_pos,
                    i as int,
                ),
            invariant
                i <= segs@.len(),
                segs@.len() == sg.len() > 0,
                forall|j: int|
                    0 <= j < segs@.len() ==> (#[trigger] segs@[j]).0 == sg[j].0 && segs@[j].1
                        == sg[j].1,
                forall|j: int| 0 <= j < sg.len() ==> 0 <= (#[trigger] sg[j]).0 < sg[j].1 <= tks@.len(),
            ensures
                segs@.len() == sg.len() > 0,
                k < segs@.len(),
                k == segment_at(sg, tks@, cursor_pos, 0),
            decreases segs@.len() - i,
        {
            assert(segs@[i as int].0 == sg[i as int].0);
            if tks[segs[i].0].span.start > cursor_pos {
                k = i.saturating_sub(1);
                break;
            }
            i = i + 1;
        }
        let a: usize = segs[k].0;
        let b: usize = segs[k].1;
        assert(sg[k as int].0 == a && sg[k as int].1 == b);
        let mut words: Vec<String> = Vec::new();
        let mut w: usize = a;
        assert(texts(words@) =~= token_texts(tks@, a as int, a as int));
        while w < b
            invariant
                a <= w <= b <= tks@.len(),
                texts(words@) == token_texts(tks@, a as int, w as int),
            decreases b - w,
        {
            let ghost was = texts(words@);
            words.push(owned(tks[w].text.as_str()));
            w = w + 1;
            assert(texts(words@) =~= was.push(tks@[w - 1].text@));
            assert(texts(words@) =~= token_texts(tks@, a as int, w as int));
        }
        let cword: usize = match find_word_under(tks, cursor_pos, a, b) {
            Some(i) => i - a,
            None => {
                let i: usize = find_word_behind(tks, cursor_pos, a, b) - a;
                let ghost was = texts(words@);
                words.insert(i, String::new());
                assert(texts(words@) =~= was.insert(i as int, Seq::empty()));
                i
            },
        };
        CompContext { words, cword, line: owned(line), cursor_pos }
    }

    /// The completer after it has noted where candidates go.
    pub open spec fn aimed(self, s: strat::Strat, span: Span) -> SimpleCompleter {
        SimpleCompleter {
            token_span: (span.start, span.end),
            escape_candidates: s is Files || s is Dirs || s is Argument,
            graft_pos: match s {
                strat::Strat::Files(p, Some(parent)) => Some(
                    capped_sum(span.start, text::byte_len(parent)),
                ),
                _ => None,
            },
            ..self
        }
    }

    fn aim(&mut self, s: &CompStrat, span: Span)
        ensures
            *final(self) == old(self).aimed(s@, span),
    {
        self.token_span = (span.start, span.end);
        self.escape_candidates = s.escapes_candidates();
        self.graft_pos = match s {
            CompStrat::Files { prefix: _, parent: Some(p) } => {
                let v = chars_of(p.as_str());
                assert(v@.take(v@.len() as int) =~= v@);
                Some(span.start.saturating_add(bytes_up_to(v.as_slice(), v.len())))
            },
            _ => None,
        };
    }

    /// Finds what to complete, and notes where candidates go.
    pub fn plan(&mut self, tks: &[CtxTk], cursor_pos: usize) -> (r: CompStrat)
        ensures
            ({
                let (s, span) = strat::resolved(tks@, cursor_pos);
                r@ == s && *final(self) == old(self).aimed(s, span)
            }),
    {
        let (s, span) = CompStrat::resolve(tks, cursor_pos);
        self.aim(&s, span);
        s
    }

    /// Finds what to complete where words are broken, and notes where candidates go:
    /// right behind the last break of a path. Words break at a `=`, or at the
    /// characters of `wordbreaks`.
    pub fn plan_broken(
        &mut self,
        tks: &[CtxTk],
        cursor_pos: usize,
        wordbreaks: Option<&str>,
    ) -> (r: CompStrat)
        ensures
            ({
                let (s, span) = strat::resolved(tks@, cursor_pos);
                let (t, part) = strat::broken(s, span, breaks_of(wordbreaks));
                r@ == t && *final(self) == old(self).aimed(t, part)
            }),
    {
        let breaks = match wordbreaks {
            Some(b) => chars_of(b),
            None => vec!['='],
        };
        assert(breaks@ =~= breaks_of(wordbreaks));
        let (s, span) = CompStrat::resolve(tks, cursor_pos);
        let (s, span) = break_strat(s, span, breaks.as_slice());
        self.aim(&s, span);
        s
    }

    /// What to do about an argument, after the completion function of the
    /// command was asked.
    pub fn argument_outcome(&mut self, result: CompSpecResult) -> (r: ArgOutcome)
        ensures
            *final(self) == (SimpleCompleter {
                add_space: match result {
                    CompSpecResult::Match { result: _, flags } => old(self).add_space || flags.space,
                    CompSpecResult::NoMatch { flags } => old(self).add_space || flags.space,
                    CompSpecResult::NoSpec => old(self).add_space,
                },
                ..*old(self)
            }),
            r == (match result {
                CompSpecResult::Match { result, flags } => ArgOutcome::Done(result),
                CompSpecResult::NoSpec => ArgOutcome::Look(Fallback::Files),
                CompSpecResult::NoMatch { flags } => ArgOutcome::Look(
                    if flags.dirnames {
                        Fallback::Dirs
                    } else if flags.default {
                        Fallback::Files
                    } else {
                        Fallback::Nothing
                    },
                ),
            }),
    {
        match result {
            CompSpecResult::Match { result, flags } => {
                if flags.space {
                    self.add_space = true;
                }
                ArgOutcome::Done(result)
            },
            CompSpecResult::NoSpec => ArgOutcome::Look(Fallback::Files),
            CompSpecResult::NoMatch { flags } => {
                if flags.space {
                    self.add_space = true;
                }
                if flags.dirnames {
                    ArgOutcome::Look(Fallback::Dirs)
                } else if flags.default {
                    ArgOutcome::Look(Fallback::Files)
                } else {
                    ArgOutcome::Look(Fallback::Nothing)
                }
            },
        }
    }
}

/// A sum as far as a `usize` goes.
/// The characters that break words.
pub open spec fn breaks_of(wordbreaks: Option<&str>) -> Seq<char> {
    match wordbreaks {
        Some(b) => b@,
        None => seq!['='],
    }
}

pub open spec fn capped_sum(a: usize, n: nat) -> usize {
    if a + n <= usize::MAX {
        (a + n) as usize
    } else {
        usize::MAX
    }
}

proof fn lemma_wrapped(sum: int, len: int)
    requires
        len > 0,
    ensures
        sum >= 0 ==> 0 <= sum % len < len,
        sum < 0 && (-sum) % len == 0 ==> sum % len == 0,
        sum < 0 && (-sum) % len != 0 ==> sum % len == len - (-sum) % len,
        0 <= sum % len < len,
{
    assert(0 <= sum % len < len) by (nonlinear_arith)
        requires
            len > 0,
    ;
    if sum < 0 {
        let k = (-sum) % len;
        let q = (-sum) / len;
        vstd::arithmetic::div_mod::lemma_fundamental_div_mod(-sum, len);
        assert(0 <= k < len) by (nonlinear_arith)
            requires
                len > 0,
                k == (-sum) % len,
        ;
        if k == 0 {
            assert(sum == len * (-q) + 0) by (nonlinear_arith)
                requires
                    -sum == len * q + k,
                    k == 0,
            ;
            vstd::arithmetic::div_mod::lemma_mod_multiples_vanish(-q, 0, len);
            vstd::arithmetic::div_mod::lemma_small_mod(0, len as nat);
        } else {
            assert(sum == len * (-q - 1) + (len - k)) by (nonlinear_arith)
                requires
                    -sum == len * q + k,
            ;
            vstd::arithmetic::div_mod::lemma_mod_multiples_vanish(-q - 1, len - k, len);
            vstd::arithmetic::div_mod::lemma_small_mod((len - k) as nat, len as nat);
        }
    }
}

fn find_segments(tks: &[CtxTk]) -> (r: Vec<(usize, usize)>)
    ensures
        r@.len() == segments(tks@, tks@.len() as int).len(),
        forall|j: int|
            0 <= j < r@.len() ==> (#[trigger] r@[j]).0 == segments(tks@, tks@.len() as int)[j].0
                && r@[j].1 == segments(tks@, tks@.len() as int)[j].1,
{
    let mut out: Vec<(usize, usize)> = Vec::new();
    let mut n: usize = 0;
    while n < tks.len()
        invariant
            n <= tks@.len(),
            out@.len() == segments(tks@, n as int).len(),
            forall|j: int|
                0 <= j < out@.len() ==> (#[trigger] out@[j]).0 == segments(tks@, n as int)[j].0
                    && out@[j].1 == segments(tks@, n as int)[j].1,
        decreases tks@.len() - n,
    {
        let ends: bool = tks[n].class == CtxTkRule::Operator || tks[n].class
            == CtxTkRule::Separator;
        if !ends {
            if out.len() > 0 && out[out.len() - 1].1 == n {
                let k: usize = out.len() - 1;
                let from: usize = out[k].0;
                out.pop();
                out.push((from, n + 1));
            } else {
                out.push((n, n + 1));
            }
        }
        n = n + 1;
    }
    out
}

fn find_word_under(tks: &[CtxTk], at: usize, a: usize, b: usize) -> (r: Option<usize>)
    requires
        a <= b <= tks@.len(),
    ensures
        match r {
            Some(i) => word_under(tks@, at, a as int, b as int) == Some(i as int) && a <= i < b,
            None => word_under(tks@, at, a as int, b as int) is None,
        },
{
    let mut i: usize = a;
    while i < b
        invariant
            a <= i <= b <= tks@.len(),
            word_under(tks@, at, a as int, b as int) == word_under(tks@, at, i as int, b as int),
        decreases b - i,
    {
        if tks[i].span.start <= at && at <= tks[i].span.end {
            return Some(i);
        }
        i = i + 1;
    }
    None
}

fn find_word_behind(tks: &[CtxTk], at: usize, a: usize, b: usize) -> (r: usize)
    requires
        a <= b <= tks@.len(),
    ensures
        r == word_behind(tks@, at, a as int, b as int),
        a <= r <= b,
{
    let mut i: usize = a;
    while i < b
        invariant
            a <= i <= b <= tks@.len(),
            word_behind(tks@, at, a as int, b as int) == word_behind(tks@, at, i as int, b as int),
        decreases b - i,
    {
        if tks[i].span.start > at {
            return i;
        }
        i = i + 1;
    }
    i
}

fn base_of(v: &[char]) -> (r: Vec<char>)
    ensures
        r@ == base_name(v@),
{
    let mut n: usize = v.len();
    assert(v@.take(n as int) =~= v@);
    while n > 0 && v[n - 1] == '/'
        invariant
            n <= v@.len(),
            without_slashes(v@) == without_slashes(v@.take(n as int)),
        decreases n,
    {
        assert(v@.take(n as int).drop_last() =~= v@.take(n - 1));
        n = n - 1;
    }
    let ghost t = v@.take(n as int);
    assert(without_slashes(v@) == t);
    let mut k: usize = n;
    while k > 0 && v[k - 1] != '/'
        invariant
            k <= n <= v@.len(),
            t == v@.take(n as int),
            after_slash(t, n as int) == after_slash(t, k as int),
        decreases k,
    {
        k = k - 1;
    }
    let mut out = sub_chars(v, k, n);
    assert(out@ =~= t.skip(k as int));
    assert(k == 0 ==> t.skip(0) =~= t);
    assert(out@ == after_slash(t, n as int));
    if v.len() > 0 && v[v.len() - 1] == '/' {
        out.push('/');
    }
    out
}

fn is_boundary(v: &[char], b: usize) -> (r: bool)
    ensures
        r == text::on_boundary(v@, b as int),
{
    let k = text::chars_fitting(v, b);
    let mut i: usize = 0;
    let mut at: u128 = 0;
    while i < k
        invariant
            i <= k <= v@.len(),
            at == text::byte_len(v@.take(i as int)),
            at <= 4 * i,
        decreases k - i,
    {
        at = at + text::bytes_of_char(v[i]) as u128;
        i = i + 1;
        assert(v@.take(i as int).drop_last() =~= v@.take(i - 1));
    }
    at == b as u128
}

/// Puts a candidate into a line.
pub fn complete_line(
    input: &str,
    span: (usize, usize),
    graft: Option<usize>,
    escape_it: bool,
    selected: &Candidate,
    ignore_case: bool,
) -> (r: String)
    ensures
        r@ == completed(input@, span, graft, escape_it, selected.content@, ignore_case),
{
    let v = chars_of(input);
    let (before, new): (Vec<char>, String) = if ignore_case {
        match graft {
            Some(g) => {
                let s = chars_of(selected.content.as_str());
                let b = base_of(s.as_slice());
                (take_bytes(v.as_slice(), g), string_of(b.as_slice()))
            },
            None => (take_bytes(v.as_slice(), span.0), owned(selected.content.as_str())),
        }
    } else {
        let slice = if span.0 <= span.1 && is_boundary(v.as_slice(), span.0) && is_boundary(
            v.as_slice(),
            span.1,
        ) {
            slice_bytes(v.as_slice(), span.0, span.1)
        } else {
            let e: Vec<char> = Vec::new();
            assert(e@ =~= Seq::empty());
            e
        };
        let slice = string_of(slice.as_slice());
        let w = width_of_str(slice.as_str());
        let new = match selected.strip_prefix(slice.as_str(), false) {
            Some(s) => s,
            None => owned(selected.content.as_str()),
        };
        (take_up_to(v.as_slice(), span.0, w), new)
    };
    let mut out = string_of(before.as_slice());
    if escape_it {
        let e = escape_str(new.as_str());
        out.push_str(e.as_str());
    } else {
        out.push_str(new.as_str());
    }
    let tail = skip_bytes(v.as_slice(), span.1);
    text::push_chars(&mut out, tail.as_slice());
    out
}

fn take_up_to(v: &[char], a: usize, w: usize) -> (r: Vec<char>)
    ensures
        r@ == text::up_to_byte(v@, a + w),
{
    if w <= usize::MAX - a {
        return take_bytes(v, a + w);
    }
    let b: u128 = a as u128 + w as u128;
    let mut k: usize = 0;
    let mut at: u128 = 0;
    while k < v.len()
        invariant
            k <= v@.len(),
            b == a + w,
            at == text::byte_len(v@.take(k as int)),
            at <= b,
            text::fitting_from(v@, b as int, 0) == text::fitting_from(v@, b as int, k as int),
        ensures
            k <= v@.len(),
            text::fitting_from(v@, b as int, 0) == k,
        decreases v@.len() - k,
    {
        assert(v@.take(k + 1).drop_last() =~= v@.take(k as int));
        let n: u128 = text::bytes_of_char(v[k]) as u128;
        if n > b - at {
            break;
        }
        at = at + n;
        k = k + 1;
    }
    let r = sub_chars(v, 0, k);
    assert(r@ =~= v@.take(k as int));
    r
}

} // verus!
