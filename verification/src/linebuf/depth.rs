//! How deep the blocks of a command line are nested, row by row.

use crate::context::CtxTk;
use crate::context::CtxTkRule;
use crate::text;
use crate::text::bytes_up_to;
use crate::text::chars_of;
use crate::text::find_chars;
use crate::text::same_str;
use vstd::prelude::*;

verus! {

/// A block whose body is indented one level until a matching closer.
#[derive(Clone, Copy, PartialEq, Eq, Debug, Structural)]
pub enum Opener {
    If,
    Case,
    For,
    /// `while` or `until`.
    Loop,
    Select,
    /// A command group.
    Brace,
    /// A subshell.
    Paren,
    /// One arm of a `case`.
    CaseArm,
}

/// The block that a keyword opens.
pub open spec fn opens(kw: Seq<char>) -> Option<Opener> {
    if kw == "if"@ {
        Some(Opener::If)
    } else if kw == "case"@ {
        Some(Opener::Case)
    } else if kw == "for"@ {
        Some(Opener::For)
    } else if kw == "while"@ || kw == "until"@ {
        Some(Opener::Loop)
    } else if kw == "select"@ {
        Some(Opener::Select)
    } else {
        None
    }
}

/// Whether a keyword closes a block. `esac` does so in its own way.
pub open spec fn closes(kw: Seq<char>, o: Opener) -> bool {
    ||| kw == "fi"@ && o == Opener::If
    ||| kw == "done"@ && (o == Opener::For || o == Opener::Loop || o == Opener::Select)
}

/// The block that a keyword opens.
pub fn keyword_opener(kw: &str) -> (r: Option<Opener>)
    ensures
        r == opens(kw@),
{
    if same_str(kw, "if") {
        Some(Opener::If)
    } else if same_str(kw, "case") {
        Some(Opener::Case)
    } else if same_str(kw, "for") {
        Some(Opener::For)
    } else if same_str(kw, "while") || same_str(kw, "until") {
        Some(Opener::Loop)
    } else if same_str(kw, "select") {
        Some(Opener::Select)
    } else {
        None
    }
}

/// Whether a keyword closes a block.
pub fn keyword_closes(kw: &str, o: Opener) -> (r: bool)
    ensures
        r == closes(kw@, o),
{
    proof {
        reveal_strlit("fi");
        reveal_strlit("done");
        assert("fi"@.len() != "done"@.len());
    }
    if same_str(kw, "fi") {
        o == Opener::If
    } else if same_str(kw, "done") {
        o == Opener::For || o == Opener::Loop || o == Opener::Select
    } else {
        false
    }
}

/// A change of depth: where it takes place and whether it goes deeper.
#[derive(Clone, Copy, PartialEq, Eq, Debug, Structural)]
pub struct DepthEvent {
    pub at: usize,
    pub deeper: bool,
}

/// The blocks that are open, innermost last, and the changes of depth so far.
pub type Nest = (Seq<Opener>, Seq<DepthEvent>);

/// A block opened.
pub open spec fn opened(n: Nest, o: Opener, at: usize) -> Nest {
    (n.0.push(o), n.1.push(DepthEvent { at, deeper: true }))
}

/// The innermost block closed.
pub open spec fn closed(n: Nest, at: usize) -> Nest {
    (n.0.drop_last(), n.1.push(DepthEvent { at, deeper: false }))
}

/// Whether the innermost open block is of a kind.
pub open spec fn on_top(n: Nest, o: Opener) -> bool {
    n.0.len() > 0 && n.0.last() == o
}

/// The innermost block closed where it is of a kind.
pub open spec fn closed_if(n: Nest, o: Opener, at: usize) -> Nest {
    if on_top(n, o) {
        closed(n, at)
    } else {
        n
    }
}

/// The place `n` bytes further on, as far as a `usize` goes.
pub open spec fn further(at: usize, n: nat) -> usize {
    if at + n <= usize::MAX {
        (at + n) as usize
    } else {
        usize::MAX
    }
}

/// A token that is a scope of its own. What it leaves open ends with it.
pub open spec fn own_scope(c: CtxTkRule) -> bool {
    ||| c == CtxTkRule::Subshell || c == CtxTkRule::CmdSub || c == CtxTkRule::BacktickSub
    ||| c == CtxTkRule::ProcSubIn || c == CtxTkRule::ProcSubOut || c == CtxTkRule::Arithmetic
}

/// The changes of depth that end `n` blocks at a place.
pub open spec fn ended(ev: Seq<DepthEvent>, n: nat, at: usize) -> Seq<DepthEvent> {
    ev + Seq::new(n, |i: int| DepthEvent { at, deeper: false })
}

/// What a keyword does to the open blocks.
pub open spec fn keyword_step(n: Nest, kw: Seq<char>, at: usize) -> Nest {
    if opens(kw) is Some {
        opened(n, opens(kw)->0, at)
    } else if kw == "esac"@ {
        closed_if(closed_if(n, Opener::CaseArm, at), Opener::Case, at)
    } else if n.0.len() > 0 && closes(kw, n.0.last()) {
        closed(n, at)
    } else {
        n
    }
}

/// What an operator does to the open blocks. A parenthesis right inside a
/// `case` belongs to a pattern: the closing one opens the arm.
pub open spec fn operator_step(n: Nest, op: Seq<char>, at: usize) -> Nest {
    if op == "{"@ {
        opened(n, Opener::Brace, at)
    } else if op == "("@ {
        if on_top(n, Opener::Case) {
            n
        } else {
            opened(n, Opener::Paren, at)
        }
    } else if op == "}"@ {
        closed_if(n, Opener::Brace, at)
    } else if op == ")"@ {
        if on_top(n, Opener::Paren) {
            closed(n, at)
        } else if on_top(n, Opener::Case) {
            opened(n, Opener::CaseArm, at)
        } else {
            n
        }
    } else {
        n
    }
}

/// What a separator does to the open blocks: `;;` ends an arm.
pub open spec fn separator_step(n: Nest, s: Seq<char>, at: usize) -> Nest {
    match text::found_from(s, ";;"@, 0) {
        Some(i) => if on_top(n, Opener::CaseArm) {
            closed(n, further(at, text::byte_len(s.take(i))))
        } else {
            n
        },
        None => n,
    }
}

/// The open blocks and the changes of depth after a token.
pub open spec fn token_step(tk: CtxTk, n: Nest) -> Nest
    decreases tk, 0nat,
{
    let at = tk.span.start;
    let subs = tk.sub_tokens@;
    if tk.class == CtxTkRule::Keyword {
        keyword_step(n, tk.text@, at)
    } else if tk.class == CtxTkRule::Operator {
        operator_step(n, tk.text@, at)
    } else if tk.class == CtxTkRule::Separator && on_top(n, Opener::CaseArm) && text::found_from(
        tk.text@,
        ";;"@,
        0,
    ) is Some {
        separator_step(n, tk.text@, at)
    } else if own_scope(tk.class) {
        let inner = tokens_walked(subs, subs.len(), (Seq::empty(), n.1));
        (n.0, ended(inner.1, inner.0.len(), tk.span.end))
    } else if tk.class == CtxTkRule::ArrayLiteral {
        let inner = tokens_walked(
            subs,
            subs.len(),
            (Seq::empty(), n.1.push(DepthEvent { at, deeper: true })),
        );
        let ev = ended(inner.1, inner.0.len(), tk.span.end);
        (
            n.0,
            if tk.text@.len() > 0 && tk.text@.last() == ')' {
                ev.push(
                    DepthEvent {
                        at: if tk.span.end > 0 {
                            (tk.span.end - 1) as usize
                        } else {
                            0
                        },
                        deeper: false,
                    },
                )
            } else {
                ev
            },
        )
    } else {
        tokens_walked(subs, subs.len(), n)
    }
}

/// The open blocks and the changes of depth after the first `k` tokens.
pub open spec fn tokens_walked(tks: Seq<CtxTk>, k: nat, n: Nest) -> Nest
    decreases tks, k,
{
    if k == 0 || k > tks.len() {
        n
    } else {
        token_step(tks[k - 1], tokens_walked(tks, (k - 1) as nat, n))
    }
}

fn push_event(events: &mut Vec<DepthEvent>, at: usize, deeper: bool)
    ensures
        final(events)@ == old(events)@.push(DepthEvent { at, deeper }),
{
    events.push(DepthEvent { at, deeper });
}

fn top_is(stack: &Vec<Opener>, o: Opener) -> (r: bool)
    ensures
        r == (stack@.len() > 0 && stack@.last() == o),
{
    stack.len() > 0 && stack[stack.len() - 1] == o
}

fn push_ends(events: &mut Vec<DepthEvent>, n: usize, at: usize)
    ensures
        final(events)@ == ended(old(events)@, n as nat, at),
{
    let ghost was = events@;
    let mut i: usize = 0;
    assert(ended(was, 0, at) =~= was);
    while i < n
        invariant
            i <= n,
            events@ == ended(was, i as nat, at),
        decreases n - i,
    {
        push_event(events, at, false);
        i = i + 1;
        assert(events@ =~= ended(was, i as nat, at));
    }
}

fn close_top(stack: &mut Vec<Opener>, events: &mut Vec<DepthEvent>, at: usize)
    requires
        old(stack)@.len() > 0,
    ensures
        (final(stack)@, final(events)@) == closed((old(stack)@, old(events)@), at),
{
    stack.pop();
    push_event(events, at, false);
}

fn open_block(stack: &mut Vec<Opener>, events: &mut Vec<DepthEvent>, o: Opener, at: usize)
    ensures
        (final(stack)@, final(events)@) == opened((old(stack)@, old(events)@), o, at),
{
    stack.push(o);
    push_event(events, at, true);
}

fn apply_keyword(stack: &mut Vec<Opener>, events: &mut Vec<DepthEvent>, kw: &str, at: usize)
    ensures
        (final(stack)@, final(events)@) == keyword_step((old(stack)@, old(events)@), kw@, at),
{
    if let Some(o) = keyword_opener(kw) {
        open_block(stack, events, o, at);
    } else if same_str(kw, "esac") {
        if top_is(stack, Opener::CaseArm) {
            close_top(stack, events, at);
        }
        if top_is(stack, Opener::Case) {
            close_top(stack, events, at);
        }
    } else if stack.len() > 0 && keyword_closes(kw, stack[stack.len() - 1]) {
        close_top(stack, events, at);
    }
}

fn apply_operator(stack: &mut Vec<Opener>, events: &mut Vec<DepthEvent>, op: &str, at: usize)
    ensures
        (final(stack)@, final(events)@) == operator_step((old(stack)@, old(events)@), op@, at),
{
    if same_str(op, "{") {
        open_block(stack, events, Opener::Brace, at);
    } else if same_str(op, "(") {
        if !top_is(stack, Opener::Case) {
            open_block(stack, events, Opener::Paren, at);
        }
    } else if same_str(op, "}") {
        if top_is(stack, Opener::Brace) {
            close_top(stack, events, at);
        }
    } else if same_str(op, ")") {
        if top_is(stack, Opener::Paren) {
            close_top(stack, events, at);
        } else if top_is(stack, Opener::Case) {
            open_block(stack, events, Opener::CaseArm, at);
        }
    }
}

/// Goes through tokens and collects the changes of depth.
pub fn collect_depth_events(
    tokens: &[CtxTk],
    stack: &mut Vec<Opener>,
    events: &mut Vec<DepthEvent>,
)
    ensures
        (final(stack)@, final(events)@) == tokens_walked(
            tokens@,
            tokens@.len(),
            (old(stack)@, old(events)@),
        ),
    decreases tokens@, tokens@.len() + 1,
{
    let ghost n0 = (stack@, events@);
    let mut i: usize = 0;
    while i < tokens.len()
        invariant
            i <= tokens@.len(),
            (stack@, events@) == tokens_walked(tokens@, i as nat, n0),
        decreases tokens@.len() - i,
    {
        assert(decreases_to!(tokens@ => tokens@[i as int]));
        collect_token(&tokens[i], stack, events);
        i = i + 1;
    }
}

fn collect_token(tk: &CtxTk, stack: &mut Vec<Opener>, events: &mut Vec<DepthEvent>)
    ensures
        (final(stack)@, final(events)@) == token_step(*tk, (old(stack)@, old(events)@)),
    decreases *tk, 0nat,
{
    let at: usize = tk.span.start;
    let end: usize = tk.span.end;
    assert(decreases_to!(*tk => tk.sub_tokens@));
    match tk.class {
        CtxTkRule::Keyword => apply_keyword(stack, events, tk.text.as_str(), at),
        CtxTkRule::Operator => apply_operator(stack, events, tk.text.as_str(), at),
        CtxTkRule::Subshell
        | CtxTkRule::CmdSub
        | CtxTkRule::BacktickSub
        | CtxTkRule::ProcSubIn
        | CtxTkRule::ProcSubOut
        | CtxTkRule::Arithmetic => {
            let mut inner: Vec<Opener> = Vec::new();
            collect_depth_events(tk.sub_tokens.as_slice(), &mut inner, events);
            push_ends(events, inner.len(), end);
        },
        CtxTkRule::ArrayLiteral => {
            push_event(events, at, true);
            let mut inner: Vec<Opener> = Vec::new();
            collect_depth_events(tk.sub_tokens.as_slice(), &mut inner, events);
            push_ends(events, inner.len(), end);
            let v = chars_of(tk.text.as_str());
            if v.len() > 0 && v[v.len() - 1] == ')' {
                push_event(events, end.saturating_sub(1), false);
            }
        },
        _ => {
            if tk.class == CtxTkRule::Separator && top_is(stack, Opener::CaseArm) {
                let v = chars_of(tk.text.as_str());
                let p = chars_of(";;");
                if let Some(off) = find_chars(v.as_slice(), p.as_slice()) {
                    let b = bytes_up_to(v.as_slice(), off);
                    close_top(stack, events, at.saturating_add(b));
                    return;
                }
            }
            collect_depth_events(tk.sub_tokens.as_slice(), stack, events);
        },
    }
}

/// What the changes of depth before a place add up to.
pub open spec fn depth_sum(ev: Seq<DepthEvent>, at: int) -> int
    decreases ev.len(),
{
    if ev.len() == 0 {
        0
    } else {
        depth_sum(ev.drop_last(), at) + (if ev.last().at < at {
            if ev.last().deeper {
                1int
            } else {
                -1
            }
        } else {
            0
        })
    }
}

/// The depth at a place, never below zero.
pub open spec fn depth_at(ev: Seq<DepthEvent>, at: int) -> int {
    if depth_sum(ev, at) < 0 {
        0
    } else {
        depth_sum(ev, at)
    }
}

/// Where the rows of an input begin, in bytes.
pub open spec fn row_starts(s: Seq<char>) -> Seq<int>
    decreases s.len(),
{
    if s.len() == 0 {
        seq![0]
    } else if s.last() == '\n' {
        row_starts(s.drop_last()).push(text::byte_len(s) as int)
    } else {
        row_starts(s.drop_last())
    }
}

/// The depths at the start and at the end of each row.
pub open spec fn depth_levels(ev: Seq<DepthEvent>, s: Seq<char>) -> Seq<(int, int)> {
    let b = row_starts(s).push(text::byte_len(s) as int);
    Seq::new(row_starts(s).len(), |i: int| (depth_at(ev, b[i]), depth_at(ev, b[i + 1])))
}

proof fn lemma_nothing_before_the_start(ev: Seq<DepthEvent>)
    ensures
        depth_sum(ev, 0) == 0,
    decreases ev.len(),
{
    if ev.len() > 0 {
        lemma_nothing_before_the_start(ev.drop_last());
    }
}

/// The first row starts outside every block, and each row after it starts at
/// the depth at which the row above it ended.
pub proof fn rows_follow_each_other(ev: Seq<DepthEvent>, s: Seq<char>)
    ensures
        depth_levels(ev, s).len() > 0,
        depth_levels(ev, s)[0].0 == 0,
        forall|i: int|
            0 < i < depth_levels(ev, s).len() ==> (#[trigger] depth_levels(ev, s)[i]).0
                == depth_levels(ev, s)[i - 1].1,
{
    lemma_first_row_start(s);
    lemma_nothing_before_the_start(ev);
}

proof fn lemma_first_row_start(s: Seq<char>)
    ensures
        row_starts(s).len() > 0,
        row_starts(s)[0] == 0,
    decreases s.len(),
{
    if s.len() > 0 {
        lemma_first_row_start(s.drop_last());
    }
}

proof fn lemma_depth_sum_bound(ev: Seq<DepthEvent>, at: int)
    ensures
        -(ev.len() as int) <= depth_sum(ev, at) <= ev.len(),
    decreases ev.len(),
{
    if ev.len() > 0 {
        lemma_depth_sum_bound(ev.drop_last(), at);
    }
}

fn depth_before(events: &Vec<DepthEvent>, at: usize) -> (r: usize)
    ensures
        r == depth_at(events@, at as int),
{
    let mut d: i128 = 0;
    let mut i: usize = 0;
    while i < events.len()
        invariant
            i <= events@.len(),
            d == depth_sum(events@.take(i as int), at as int),
            -(i as int) <= d <= i,
        decreases events@.len() - i,
    {
        if events[i].at < at {
            if events[i].deeper {
                d = d + 1;
            } else {
                d = d - 1;
            }
        }
        i = i + 1;
        assert(events@.take(i as int).drop_last() =~= events@.take(i - 1));
    }
    assert(events@.take(i as int) =~= events@);
    if d < 0 {
        0
    } else {
        d as usize
    }
}

/// The depths at the start and at the end of each row of an input, from its
/// tokens.
pub fn depth_levels_from_tokens(tokens: &[CtxTk], input: &str) -> (r: Vec<(usize, usize)>)
    requires
        text::byte_len(input@) <= usize::MAX,
    ensures
        ({
            let ev = tokens_walked(tokens@, tokens@.len(), (Seq::empty(), Seq::empty())).1;
            let l = depth_levels(ev, input@);
            &&& r@.len() == l.len()
            &&& forall|i: int|
                0 <= i < l.len() ==> (#[trigger] r@[i]).0 == l[i].0 && r@[i].1 == l[i].1
        }),
{
    let mut stack: Vec<Opener> = Vec::new();
    let mut events: Vec<DepthEvent> = Vec::new();
    collect_depth_events(tokens, &mut stack, &mut events);
    let v = chars_of(input);
    let mut starts: Vec<usize> = Vec::new();
    starts.push(0);
    let mut at: usize = 0;
    let mut i: usize = 0;
    assert(v@.take(0) =~= Seq::<char>::empty());
    while i < v.len()
        invariant
            i <= v@.len(),
            v@ == input@,
            text::byte_len(input@) <= usize::MAX,
            at == text::byte_len(v@.take(i as int)),
            starts@.len() == row_starts(v@.take(i as int)).len(),
            starts@.len() > 0,
            forall|j: int|
                0 <= j < starts@.len() ==> #[trigger] starts@[j] == row_starts(
                    v@.take(i as int),
                )[j],
        decreases v@.len() - i,
    {
        proof {
            assert(v@.take(i + 1).drop_last() =~= v@.take(i as int));
            assert(v@.take(i + 1) + v@.skip(i + 1) =~= v@);
            text::lemma_byte_len_add(v@.take(i + 1), v@.skip(i + 1));
        }
        at = at + text::bytes_of_char(v[i]);
        if v[i] == '\n' {
            starts.push(at);
        }
        i = i + 1;
    }
    assert(v@.take(i as int) =~= v@);
    let mut out: Vec<(usize, usize)> = Vec::new();
    let mut k: usize = 0;
    let ghost ev = events@;
    let ghost l = depth_levels(ev, input@);
    while k < starts.len()
        invariant
            k <= starts@.len(),
            ev == events@,
            l == depth_levels(ev, input@),
            l.len() == starts@.len(),
            at == text::byte_len(input@),
            forall|j: int|
                0 <= j < starts@.len() ==> #[trigger] starts@[j] == row_starts(input@)[j],
            row_starts(input@).len() == starts@.len(),
            out@.len() == k,
            forall|j: int|
                0 <= j < k ==> (#[trigger] out@[j]).0 == l[j].0 && out@[j].1 == l[j].1,
        decreases starts@.len() - k,
    {
        let next: usize = if k + 1 < starts.len() {
            starts[k + 1]
        } else {
            at
        };
        let ghost b = row_starts(input@).push(text::byte_len(input@) as int);
        assert(b[k as int] == starts@[k as int]);
        assert(b[k + 1] == next);
        assert(l[k as int] == (depth_at(ev, b[k as int]), depth_at(ev, b[k + 1])));
        out.push((depth_before(&events, starts[k]), depth_before(&events, next)));
        k = k + 1;
    }
    out
}

/// A word of the shell's language, and whether it opens a block.
#[derive(Debug)]
pub struct BlockTk {
    pub text: String,
    pub opens: bool,
}

/// The blocks that are open, and how deep they are.
#[derive(Debug)]
pub struct IndentCtx {
    pub depth: usize,
    pub ctx: Vec<BlockTk>,
}

impl IndentCtx {
    pub fn new() -> (r: Self)
        ensures
            r.depth == 0,
            r.ctx@.len() == 0,
    {
        IndentCtx { depth: 0, ctx: Vec::new() }
    }

    pub fn depth(&self) -> (r: usize)
        ensures
            r == self.depth,
    {
        self.depth
    }

    pub fn ctx(&self) -> (r: &[BlockTk])
        ensures
            r@ == self.ctx@,
    {
        self.ctx.as_slice()
    }

    /// A block opens.
    pub fn descend(&mut self, tk: BlockTk)
        requires
            old(self).depth < usize::MAX,
        ensures
            final(self).ctx@ == old(self).ctx@.push(tk),
            final(self).depth == old(self).depth + 1,
    {
        self.ctx.push(tk);
        self.depth = self.depth + 1;
    }

    /// Puts a word in the place of the one that opened the innermost block.
    pub fn swap_top(&mut self, tk: BlockTk)
        ensures
            final(self).depth == old(self).depth,
            final(self).ctx@ == (if old(self).ctx@.len() > 0 {
                old(self).ctx@.drop_last().push(tk)
            } else {
                old(self).ctx@
            }),
    {
        if self.ctx.len() > 0 {
            let _ = self.ctx.pop();
            self.ctx.push(tk);
        }
    }

    /// The innermost block closes.
    pub fn ascend(&mut self)
        ensures
            final(self).depth == (if old(self).depth > 0 {
                old(self).depth - 1
            } else {
                0
            }),
            final(self).ctx@ == (if old(self).ctx@.len() > 0 {
                old(self).ctx@.drop_last()
            } else {
                old(self).ctx@
            }),
    {
        self.depth = self.depth.saturating_sub(1);
        let _ = self.ctx.pop();
    }

    pub fn reset(&mut self)
        ensures
            final(self).depth == 0,
            final(self).ctx@.len() == 0,
    {
        self.depth = 0;
        self.ctx = Vec::new();
    }

    /// Takes a word: one that opens a block, or one that closes the innermost.
    pub fn check_tk(&mut self, tk: BlockTk, closes_top: bool)
        requires
            old(self).depth < usize::MAX,
        ensures
            tk.opens ==> final(self).ctx@ == old(self).ctx@.push(tk) && final(self).depth
                == old(self).depth + 1,
            !tk.opens && closes_top && old(self).ctx@.len() > 0 ==> final(self).ctx@
                == old(self).ctx@.drop_last() && final(self).depth == (if old(self).depth > 0 {
                old(self).depth - 1
            } else {
                0
            }),
            !tk.opens && !(closes_top && old(self).ctx@.len() > 0) ==> *final(self) == *old(self),
    {
        if tk.opens {
            self.descend(tk);
        } else if self.ctx.len() > 0 && closes_top {
            self.ascend();
        }
    }

    /// Whether a word goes on with the innermost block.
    pub fn is_sibling(&self, other: &str) -> (r: bool)
        ensures
            r == (self.ctx@.len() > 0 && (self.ctx@.last().text@ == "if"@ || self.ctx@.last().text@
                == "elif"@) && (other@ == "elif"@ || other@ == "else"@)),
    {
        let n: usize = self.ctx.len();
        if n == 0 {
            return false;
        }
        let last = self.ctx[n - 1].text.as_str();
        (same_str(last, "if") || same_str(last, "elif")) && (same_str(other, "elif") || same_str(
            other,
            "else",
        ))
    }

    /// Takes the depth at which reading the text stopped, and whether it failed.
    pub fn checked_calculate(&mut self, stopped_at: usize, failed: bool) -> (r: (usize, bool))
        ensures
            r == (stopped_at, failed),
            final(self).depth == stopped_at,
            final(self).ctx@.len() == 0,
    {
        self.depth = stopped_at;
        self.ctx = Vec::new();
        (self.depth, failed)
    }

    pub fn calculate(&mut self, stopped_at: usize) -> (r: usize)
        ensures
            r == stopped_at,
            final(self).depth == stopped_at,
            final(self).ctx@.len() == 0,
    {
        self.checked_calculate(stopped_at, false).0
    }
}

} // verus!
