//! What to complete, from the tokens around the cursor.

use crate::complete::candidate;
use crate::complete::simple;
use crate::context;
use crate::context::find_break;
use crate::context::CtxTk;
use crate::context::CtxTkRule;
use crate::context::Span;
use crate::text;
use crate::text::bytes_up_to;
use crate::text::chars_of;
use crate::text::string_of;
use crate::text::sub_chars;
use crate::text::take_bytes;
use vstd::prelude::*;

verus! {

/// What to look for, and the start that was typed.
#[derive(Debug)]
pub enum CompStrat {
    Var { prefix: String },
    Tilde { prefix: String },
    Command { prefix: String },
    Argument { prefix: String },
    Dirs { prefix: String },
    Files { prefix: String, parent: Option<String> },
    /// Nothing can go here but a `;`.
    Separator,
    /// No completion at all.
    Null,
}

/// What to look for.
pub enum Strat {
    Var(Seq<char>),
    Tilde(Seq<char>),
    Command(Seq<char>),
    Argument(Seq<char>),
    Dirs(Seq<char>),
    Files(Seq<char>, Option<Seq<char>>),
    Separator,
    Null,
}

impl View for CompStrat {
    type V = Strat;

    open spec fn view(&self) -> Strat {
        match self {
            CompStrat::Var { prefix } => Strat::Var(prefix@),
            CompStrat::Tilde { prefix } => Strat::Tilde(prefix@),
            CompStrat::Command { prefix } => Strat::Command(prefix@),
            CompStrat::Argument { prefix } => Strat::Argument(prefix@),
            CompStrat::Dirs { prefix } => Strat::Dirs(prefix@),
            CompStrat::Files { prefix, parent } => Strat::Files(
                prefix@,
                match parent {
                    Some(p) => Some(p@),
                    None => None,
                },
            ),
            CompStrat::Separator => Strat::Separator,
            CompStrat::Null => Strat::Null,
        }
    }
}

/// Whether a token reaches to a place, its end included.
pub open spec fn reaches(tk: CtxTk, at: usize) -> bool {
    tk.span.start <= at <= tk.span.end
}

/// The first token that reaches to a place, from the `i`-th on.
pub open spec fn first_reaching(tks: Seq<CtxTk>, at: usize, i: int) -> Option<int>
    decreases tks.len() - i,
{
    if i < 0 || i >= tks.len() {
        None
    } else if reaches(tks[i], at) {
        Some(i)
    } else {
        first_reaching(tks, at, i + 1)
    }
}

/// The last of the first `n` tokens that ends before a place.
pub open spec fn last_before(tks: Seq<CtxTk>, at: usize, n: int) -> Option<int>
    decreases n,
{
    if n <= 0 || n > tks.len() {
        None
    } else if tks[n - 1].span.end <= at {
        Some(n - 1)
    } else {
        last_before(tks, at, n - 1)
    }
}

/// The first name of a parameter, from the `i`-th token on.
pub open spec fn first_name(tks: Seq<CtxTk>, i: int) -> Option<int>
    decreases tks.len() - i,
{
    if i < 0 || i >= tks.len() {
        None
    } else if tks[i].class == CtxTkRule::ParamName {
        Some(i)
    } else {
        first_name(tks, i + 1)
    }
}

/// The part of a substitution that a candidate replaces: up to the end of the
/// name, so that what follows it stays.
pub open spec fn name_span(tk: CtxTk) -> Span {
    match first_name(tk.sub_tokens@, 0) {
        Some(i) => Span { start: tk.span.start, end: tk.sub_tokens@[i].span.end },
        None => tk.span,
    }
}

/// The text of a token before a place.
pub open spec fn typed_part(tk: CtxTk, at: usize) -> Seq<char> {
    text::up_to_byte(tk.text@, at - tk.span.start)
}

/// Whether a token is an argument.
pub open spec fn is_argument(c: CtxTkRule) -> bool {
    c == CtxTkRule::Argument || c == CtxTkRule::ArgumentFile
}

/// Whether no token inside covers a place.
pub open spec fn can_split(tk: CtxTk, at: int) -> bool {
    forall|i: int|
        0 <= i < tk.sub_tokens@.len() ==> !((#[trigger] tk.sub_tokens@[i]).span.start <= at
            < tk.sub_tokens@[i].span.end)
}

/// How many characters of a typed path belong to the directory: up to and with
/// the last slash among the first `n` at which the token can be split.
pub open spec fn parent_len(tk: CtxTk, s: Seq<char>, n: int) -> int
    decreases n,
{
    if n <= 0 || n > s.len() {
        0
    } else if s[n - 1] == '/' && can_split(tk, tk.span.start + text::byte_len(s.take(n - 1))) {
        n
    } else {
        parent_len(tk, s, n - 1)
    }
}

/// A typed path, split after the last slash.
pub open spec fn path_strat(tk: CtxTk, at: usize) -> Strat {
    let s = typed_part(tk, at);
    let n = parent_len(tk, s, s.len() as int);
    Strat::Files(
        s.skip(n),
        if n > 0 {
            Some(s.take(n))
        } else {
            None
        },
    )
}

/// What to complete in a token that is no argument.
pub open spec fn plain_strat(c: CtxTkRule, prefix: Seq<char>) -> Strat {
    match c {
        CtxTkRule::ValidCommand | CtxTkRule::InvalidCommand | CtxTkRule::Keyword => Strat::Command(
            prefix,
        ),
        CtxTkRule::AssignmentRight
        | CtxTkRule::CmdSub
        | CtxTkRule::BacktickSub
        | CtxTkRule::ProcSubIn
        | CtxTkRule::ProcSubOut
        | CtxTkRule::DoubleString
        | CtxTkRule::SingleString
        | CtxTkRule::DollarString => Strat::Argument(prefix),
        CtxTkRule::Glob
        | CtxTkRule::Redirect
        | CtxTkRule::Argument
        | CtxTkRule::ArgumentFile => Strat::Files(prefix, None),
        CtxTkRule::Tilde => Strat::Tilde(prefix),
        CtxTkRule::VarSub | CtxTkRule::ParamName | CtxTkRule::ArithVar => Strat::Var(prefix),
        CtxTkRule::Subshell | CtxTkRule::BraceGroup | CtxTkRule::Arithmetic => Strat::Separator,
        _ => Strat::Null,
    }
}

/// What to complete behind a token.
pub open spec fn next_strat(c: CtxTkRule) -> Strat {
    match c {
        CtxTkRule::ValidCommand
        | CtxTkRule::InvalidCommand
        | CtxTkRule::Argument
        | CtxTkRule::ArgumentFile
        | CtxTkRule::CmdSub
        | CtxTkRule::BacktickSub
        | CtxTkRule::ProcSubIn
        | CtxTkRule::ProcSubOut
        | CtxTkRule::VarSub
        | CtxTkRule::Tilde
        | CtxTkRule::Glob
        | CtxTkRule::DoubleString
        | CtxTkRule::SingleString
        | CtxTkRule::DollarString
        | CtxTkRule::AssignmentRight => Strat::Argument(Seq::empty()),
        CtxTkRule::Separator | CtxTkRule::Operator | CtxTkRule::Keyword => Strat::Command(
            Seq::empty(),
        ),
        CtxTkRule::Redirect => Strat::Files(Seq::empty(), None),
        CtxTkRule::Subshell | CtxTkRule::BraceGroup | CtxTkRule::Arithmetic => Strat::Separator,
        _ => Strat::Null,
    }
}

/// Whether a token has an inside that is completed on its own.
pub open spec fn has_inside(c: CtxTkRule) -> bool {
    ||| c == CtxTkRule::CmdSub || c == CtxTkRule::BacktickSub || c == CtxTkRule::ProcSubIn
    ||| c == CtxTkRule::ProcSubOut || c == CtxTkRule::DoubleString
    ||| c == CtxTkRule::SingleString || c == CtxTkRule::DollarString
}

/// Whether a token is completed as a whole.
pub open spec fn is_whole(c: CtxTkRule) -> bool {
    is_argument(c) || c == CtxTkRule::VarSub
}

/// What to complete in a token, and what a candidate replaces. In an argument
/// the part that the cursor is on comes first; otherwise it is a path.
pub open spec fn leaf_strat(tk: CtxTk, at: usize) -> (Strat, Span)
    decreases tk, 0nat,
{
    if is_argument(tk.class) {
        let subs = tk.sub_tokens@;
        match first_reaching(subs, at, 0) {
            Some(i) => if 0 <= i < subs.len() {
                let sub = subs[i];
                if sub.class == CtxTkRule::VarSub || sub.class == CtxTkRule::ParamName {
                    (Strat::Var(typed_part(sub, at)), name_span(sub))
                } else if sub.class == CtxTkRule::Tilde {
                    (Strat::Tilde(typed_part(sub, at)), sub.span)
                } else if has_inside(sub.class) {
                    inside_strat(sub, at)
                } else {
                    (path_strat(tk, at), tk.span)
                }
            } else {
                (path_strat(tk, at), tk.span)
            },
            None => (path_strat(tk, at), tk.span),
        }
    } else {
        (
            plain_strat(tk.class, typed_part(tk, at)),
            if tk.class == CtxTkRule::VarSub || tk.class == CtxTkRule::ParamName {
                name_span(tk)
            } else {
                tk.span
            },
        )
    }
}

/// What to complete in the innermost token at a place.
pub open spec fn inside_strat(tk: CtxTk, at: usize) -> (Strat, Span)
    decreases tk, 1nat,
{
    let subs = tk.sub_tokens@;
    if is_whole(tk.class) {
        leaf_strat(tk, at)
    } else {
        match first_reaching(subs, at, 0) {
            Some(i) => if 0 <= i < subs.len() {
                inside_strat(subs[i], at)
            } else {
                leaf_strat(tk, at)
            },
            None => leaf_strat(tk, at),
        }
    }
}

/// What to complete at a place of a command line, and what a candidate
/// replaces. Between tokens it is what may follow the last one, and nothing is
/// replaced.
pub open spec fn resolved(tks: Seq<CtxTk>, at: usize) -> (Strat, Span) {
    let here = Span { start: at, end: at };
    match first_reaching(tks, at, 0) {
        Some(i) => inside_strat(tks[i], at),
        None => match last_before(tks, at, tks.len() as int) {
            Some(i) => (next_strat(tks[i].class), here),
            None => (Strat::Command(Seq::empty()), here),
        },
    }
}

fn find_reaching(tks: &[CtxTk], at: usize) -> (r: Option<usize>)
    ensures
        match r {
            Some(i) => first_reaching(tks@, at, 0) == Some(i as int) && i < tks@.len() && reaches(
                tks@[i as int],
                at,
            ),
            None => first_reaching(tks@, at, 0) is None,
        },
{
    let mut i: usize = 0;
    while i < tks.len()
        invariant
            i <= tks@.len(),
            first_reaching(tks@, at, 0) == first_reaching(tks@, at, i as int),
        decreases tks@.len() - i,
    {
        if tks[i].span.start <= at && at <= tks[i].span.end {
            return Some(i);
        }
        i = i + 1;
    }
    None
}

fn find_before(tks: &[CtxTk], at: usize) -> (r: Option<usize>)
    ensures
        match r {
            Some(i) => last_before(tks@, at, tks@.len() as int) == Some(i as int) && i < tks@.len(),
            None => last_before(tks@, at, tks@.len() as int) is None,
        },
{
    let mut n: usize = tks.len();
    while n > 0
        invariant
            n <= tks@.len(),
            last_before(tks@, at, tks@.len() as int) == last_before(tks@, at, n as int),
        decreases n,
    {
        if tks[n - 1].span.end <= at {
            return Some(n - 1);
        }
        n = n - 1;
    }
    None
}

fn narrow_var_span(tk: &CtxTk) -> (r: Span)
    ensures
        r == name_span(*tk),
{
    let mut i: usize = 0;
    while i < tk.sub_tokens.len()
        invariant
            i <= tk.sub_tokens@.len(),
            first_name(tk.sub_tokens@, 0) == first_name(tk.sub_tokens@, i as int),
        decreases tk.sub_tokens@.len() - i,
    {
        if tk.sub_tokens[i].class == CtxTkRule::ParamName {
            return Span { start: tk.span.start, end: tk.sub_tokens[i].span.end };
        }
        i = i + 1;
    }
    tk.span
}

fn prefix_from(tk: &CtxTk, at: usize) -> (r: String)
    requires
        reaches(*tk, at),
    ensures
        r@ == typed_part(*tk, at),
{
    let v = chars_of(tk.text.as_str());
    let p = take_bytes(v.as_slice(), at - tk.span.start);
    string_of(p.as_slice())
}

fn can_split_at(tk: &CtxTk, at: usize) -> (r: bool)
    ensures
        r == can_split(*tk, at as int),
{
    let mut i: usize = 0;
    while i < tk.sub_tokens.len()
        invariant
            i <= tk.sub_tokens@.len(),
            forall|j: int|
                0 <= j < i ==> !((#[trigger] tk.sub_tokens@[j]).span.start <= at
                    < tk.sub_tokens@[j].span.end),
        decreases tk.sub_tokens@.len() - i,
    {
        if tk.sub_tokens[i].span.start <= at && at < tk.sub_tokens[i].span.end {
            assert(tk.sub_tokens@[i as int].span.start <= at < tk.sub_tokens@[i as int].span.end);
            return false;
        }
        i = i + 1;
    }
    true
}

fn path_strategy(tk: &CtxTk, at: usize) -> (r: CompStrat)
    requires
        reaches(*tk, at),
    ensures
        r@ == path_strat(*tk, at),
{
    let s = prefix_from(tk, at);
    let v = chars_of(s.as_str());
    let mut n: usize = v.len();
    proof {
        lemma_typed_fits(*tk, at);
    }
    while n > 0
        invariant
            n <= v@.len(),
            v@ == typed_part(*tk, at),
            reaches(*tk, at),
            text::byte_len(v@) <= at - tk.span.start,
            parent_len(*tk, v@, v@.len() as int) == parent_len(*tk, v@, n as int),
        ensures
            n <= v@.len(),
            parent_len(*tk, v@, v@.len() as int) == n,
        decreases n,
    {
        if v[n - 1] == '/' {
            proof {
                assert(v@ =~= v@.take(n - 1) + v@.skip(n - 1));
                text::lemma_byte_len_add(v@.take(n - 1), v@.skip(n - 1));
            }
            let b: usize = bytes_up_to(v.as_slice(), n - 1);
            if can_split_at(tk, tk.span.start + b) {
                break;
            }
        }
        n = n - 1;
    }
    let rest = sub_chars(v.as_slice(), n, v.len());
    assert(rest@ =~= v@.skip(n as int));
    let prefix = string_of(rest.as_slice());
    if n > 0 {
        let head = sub_chars(v.as_slice(), 0, n);
        assert(head@ =~= v@.take(n as int));
        CompStrat::Files { prefix, parent: Some(string_of(head.as_slice())) }
    } else {
        CompStrat::Files { prefix, parent: None }
    }
}

proof fn lemma_typed_fits(tk: CtxTk, at: usize)
    requires
        reaches(tk, at),
    ensures
        text::byte_len(typed_part(tk, at)) <= at - tk.span.start,
{
    lemma_fitting_bytes(tk.text@, at - tk.span.start, 0);
}

proof fn lemma_fitting_bytes(s: Seq<char>, b: int, k: int)
    requires
        0 <= k <= s.len(),
        text::byte_len(s.take(k)) <= b,
    ensures
        text::byte_len(s.take(text::fitting_from(s, b, k))) <= b,
    decreases s.len() - k,
{
    if k < s.len() && text::byte_len(s.take(k + 1)) <= b {
        lemma_fitting_bytes(s, b, k + 1);
    }
}

fn plain_strategy(c: CtxTkRule, prefix: String) -> (r: CompStrat)
    ensures
        r@ == plain_strat(c, prefix@),
{
    match c {
        CtxTkRule::ValidCommand
        | CtxTkRule::InvalidCommand
        | CtxTkRule::Keyword => CompStrat::Command { prefix },
        CtxTkRule::AssignmentRight
        | CtxTkRule::CmdSub
        | CtxTkRule::BacktickSub
        | CtxTkRule::ProcSubIn
        | CtxTkRule::ProcSubOut
        | CtxTkRule::DoubleString
        | CtxTkRule::SingleString
        | CtxTkRule::DollarString => CompStrat::Argument { prefix },
        CtxTkRule::Glob
        | CtxTkRule::Redirect
        | CtxTkRule::Argument
        | CtxTkRule::ArgumentFile => CompStrat::Files { prefix, parent: None },
        CtxTkRule::Tilde => CompStrat::Tilde { prefix },
        CtxTkRule::VarSub | CtxTkRule::ParamName | CtxTkRule::ArithVar => CompStrat::Var { prefix },
        CtxTkRule::Subshell | CtxTkRule::BraceGroup | CtxTkRule::Arithmetic => CompStrat::Separator,
        _ => CompStrat::Null,
    }
}

impl CompStrat {
    /// Whether candidates are escaped when they are put in.
    pub fn escapes_candidates(&self) -> (r: bool)
        ensures
            r == (self@ is Files || self@ is Dirs || self@ is Argument),
    {
        match self {
            CompStrat::Files { .. } | CompStrat::Dirs { .. } | CompStrat::Argument { .. } => true,
            _ => false,
        }
    }

    /// What to complete at a place, and what a candidate replaces.
    pub fn resolve(tks: &[CtxTk], cursor_pos: usize) -> (r: (Self, Span))
        ensures
            (r.0@, r.1) == resolved(tks@, cursor_pos),
    {
        if let Some(i) = find_reaching(tks, cursor_pos) {
            return CompStrat::from_inside(&tks[i], cursor_pos);
        }
        let here = Span { start: cursor_pos, end: cursor_pos };
        match find_before(tks, cursor_pos) {
            Some(i) => (CompStrat::from_predecessor(&tks[i]), here),
            None => {
                let prefix: String = String::new();
                assert(prefix@ =~= Seq::empty());
                (CompStrat::Command { prefix }, here)
            },
        }
    }

    fn from_inside(tk: &CtxTk, cursor_pos: usize) -> (r: (Self, Span))
        requires
            reaches(*tk, cursor_pos),
        ensures
            (r.0@, r.1) == inside_strat(*tk, cursor_pos),
        decreases *tk, 1nat,
    {
        match tk.class {
            CtxTkRule::Argument | CtxTkRule::ArgumentFile | CtxTkRule::VarSub => {},
            _ => {
                if let Some(i) = find_reaching(tk.sub_tokens.as_slice(), cursor_pos) {
                    assert(decreases_to!(*tk => tk.sub_tokens@[i as int]));
                    return CompStrat::from_inside(&tk.sub_tokens[i], cursor_pos);
                }
            },
        }
        CompStrat::from_leaf(tk, cursor_pos)
    }

    /// What to complete in a token that the cursor is in.
    pub fn from_leaf(leaf: &CtxTk, cursor_pos: usize) -> (r: (Self, Span))
        requires
            reaches(*leaf, cursor_pos),
        ensures
            (r.0@, r.1) == leaf_strat(*leaf, cursor_pos),
        decreases *leaf, 0nat,
    {
        let argument: bool = match leaf.class {
            CtxTkRule::Argument | CtxTkRule::ArgumentFile => true,
            _ => false,
        };
        if argument {
            if let Some(i) = find_reaching(leaf.sub_tokens.as_slice(), cursor_pos) {
                let sub = &leaf.sub_tokens[i];
                assert(decreases_to!(*leaf => leaf.sub_tokens@[i as int]));
                match sub.class {
                    CtxTkRule::VarSub | CtxTkRule::ParamName => {
                        let prefix = prefix_from(sub, cursor_pos);
                        return (CompStrat::Var { prefix }, narrow_var_span(sub));
                    },
                    CtxTkRule::Tilde => {
                        let prefix = prefix_from(sub, cursor_pos);
                        return (CompStrat::Tilde { prefix }, sub.span);
                    },
                    CtxTkRule::CmdSub
                    | CtxTkRule::BacktickSub
                    | CtxTkRule::ProcSubIn
                    | CtxTkRule::ProcSubOut
                    | CtxTkRule::DoubleString
                    | CtxTkRule::SingleString
                    | CtxTkRule::DollarString => {
                        return CompStrat::from_inside(sub, cursor_pos);
                    },
                    _ => {},
                }
            }
            return (path_strategy(leaf, cursor_pos), leaf.span);
        }
        let prefix = prefix_from(leaf, cursor_pos);
        let span = match leaf.class {
            CtxTkRule::VarSub | CtxTkRule::ParamName => narrow_var_span(leaf),
            _ => leaf.span,
        };
        (plain_strategy(leaf.class, prefix), span)
    }

    /// What to complete behind a token.
    pub fn from_predecessor(prev: &CtxTk) -> (r: Self)
        ensures
            r@ == next_strat(prev.class),
    {
        let prefix: String = String::new();
        assert(prefix@ =~= Seq::empty());
        match prev.class {
            CtxTkRule::ValidCommand
            | CtxTkRule::InvalidCommand
            | CtxTkRule::Argument
            | CtxTkRule::ArgumentFile
            | CtxTkRule::CmdSub
            | CtxTkRule::BacktickSub
            | CtxTkRule::ProcSubIn
            | CtxTkRule::ProcSubOut
            | CtxTkRule::VarSub
            | CtxTkRule::Tilde
            | CtxTkRule::Glob
            | CtxTkRule::DoubleString
            | CtxTkRule::SingleString
            | CtxTkRule::DollarString
            | CtxTkRule::AssignmentRight => CompStrat::Argument { prefix },
            CtxTkRule::Separator | CtxTkRule::Operator | CtxTkRule::Keyword => CompStrat::Command {
                prefix,
            },
            CtxTkRule::Redirect => CompStrat::Files { prefix, parent: None },
            CtxTkRule::Subshell
            | CtxTkRule::BraceGroup
            | CtxTkRule::Arithmetic => CompStrat::Separator,
            _ => CompStrat::Null,
        }
    }
}

/// What was typed of a path, its directory with it.
pub open spec fn typed_path(prefix: Seq<char>, parent: Option<Seq<char>>) -> Seq<char> {
    match parent {
        Some(d) => d + prefix,
        None => prefix,
    }
}

/// What to complete once words are broken: of a path only what is behind the last
/// break, and only that is replaced.
pub open spec fn broken(s: Strat, span: Span, breaks: Seq<char>) -> (Strat, Span) {
    match s {
        Strat::Files(prefix, parent) => {
            let t = typed_path(prefix, parent);
            let k = context::up_to_break(t, breaks, t.len() as int);
            let n = t.len() - prefix.len();
            (
                Strat::Files(
                    t.skip(
                        if k < n {
                            n
                        } else {
                            k
                        },
                    ),
                    if k < n {
                        Some(t.subrange(k, n))
                    } else {
                        None
                    },
                ),
                Span {
                    start: simple::capped_sum(span.start, text::byte_len(t.take(k))),
                    end: span.end,
                },
            )
        },
        _ => (s, span),
    }
}

/// Without a break nothing changes, and with one what is completed is what was typed
/// behind the last.
pub proof fn breaks_cut_off_the_start(
    prefix: Seq<char>,
    parent: Option<Seq<char>>,
    span: Span,
    breaks: Seq<char>,
)
    requires
        parent is Some ==> parent->0.len() > 0,
    ensures
        ({
            let t = typed_path(prefix, parent);
            let k = context::up_to_break(t, breaks, t.len() as int);
            let (s, r) = broken(Strat::Files(prefix, parent), span, breaks);
            &&& s matches Strat::Files(p, d) && typed_path(p, d) == t.skip(k)
            &&& k == 0 ==> s == Strat::Files(prefix, parent) && r == span
        }),
{
    let t = typed_path(prefix, parent);
    let k = context::up_to_break(t, breaks, t.len() as int);
    context::the_last_break_counts(t, breaks, t.len() as int);
    let n = t.len() - prefix.len();
    if k < n {
        assert(t.subrange(k, n) + t.skip(n) =~= t.skip(k));
        assert(t.skip(n) =~= prefix);
        assert(k == 0 ==> t.subrange(k, n) =~= parent->0);
    } else {
        assert(k == 0 ==> t.skip(k) =~= prefix);
    }
    assert(t.take(0) =~= Seq::empty());
}

/// Breaks what is to be completed.
pub fn break_strat(s: CompStrat, span: Span, breaks: &[char]) -> (r: (CompStrat, Span))
    ensures
        (r.0@, r.1) == broken(s@, span, breaks@),
{
    match s {
        CompStrat::Files { prefix, parent } => {
            let ghost d = candidate::opt_chars(parent);
            let n: usize;
            let v = match parent {
                Some(p) => {
                    let mut all = p;
                    n = chars_of(all.as_str()).len();
                    all.push_str(prefix.as_str());
                    chars_of(all.as_str())
                },
                None => {
                    n = 0;
                    chars_of(prefix.as_str())
                },
            };
            assert(v@ == typed_path(prefix@, d));
            let k = find_break(v.as_slice(), breaks);
            let from: usize = if k < n {
                n
            } else {
                k
            };
            let rest = sub_chars(v.as_slice(), from, v.len());
            assert(rest@ =~= v@.skip(from as int));
            let dir = if k < n {
                let head = sub_chars(v.as_slice(), k, n);
                Some(string_of(head.as_slice()))
            } else {
                None
            };
            let b: usize = bytes_up_to(v.as_slice(), k);
            (
                CompStrat::Files { prefix: string_of(rest.as_slice()), parent: dir },
                Span { start: span.start.saturating_add(b), end: span.end },
            )
        },
        _ => (s, span),
    }
}

/// Between tokens nothing is replaced.
pub proof fn gaps_replace_nothing(tks: Seq<CtxTk>, at: usize)
    requires
        first_reaching(tks, at, 0) is None,
    ensures
        resolved(tks, at).1 == (Span { start: at, end: at }),
{
}

/// The typed path is its directory and what follows, nothing lost.
pub proof fn path_parts_join(tk: CtxTk, at: usize)
    ensures
        match path_strat(tk, at) {
            Strat::Files(p, Some(d)) => d + p == typed_part(tk, at),
            Strat::Files(p, None) => p == typed_part(tk, at),
            _ => false,
        },
{
    let s = typed_part(tk, at);
    lemma_parent_len(tk, s, s.len() as int);
    let n = parent_len(tk, s, s.len() as int);
    assert(s.take(n) + s.skip(n) =~= s);
    assert(n == 0 ==> s.skip(n) =~= s);
}

proof fn lemma_parent_len(tk: CtxTk, s: Seq<char>, n: int)
    requires
        0 <= n <= s.len(),
    ensures
        0 <= parent_len(tk, s, n) <= n,
    decreases n,
{
    if n > 0 {
        lemma_parent_len(tk, s, n - 1);
    }
}

} // verus!
