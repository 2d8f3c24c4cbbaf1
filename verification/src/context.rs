//! The tokens of a command line in the context they stand in.

use vstd::prelude::*;

verus! {

/// What a token is.
#[derive(Debug, Clone, Copy, PartialEq, Eq, Structural)]
pub enum CtxTkRule {
    Null,
    ValidCommand,
    InvalidCommand,
    Argument,
    ArgumentFile,
    Keyword,
    Operator,
    Separator,
    Redirect,
    Comment,
    AssignmentLeft,
    AssignmentOp,
    AssignmentRight,
    ArrayLiteral,
    CasePattern,
    Subshell,
    BraceGroup,
    CmdSub,
    BacktickSub,
    ProcSubIn,
    ProcSubOut,
    Arithmetic,
    ArithOp,
    ArithNumber,
    ArithVar,
    VarSub,
    ParamPrefix,
    ParamName,
    ParamIndex,
    ParamOp,
    ParamArg,
    SingleString,
    DoubleString,
    DollarString,
    Escape,
    Glob,
    Tilde,
    HistExp,
    HereDoc,
    HereDocStart,
    HereDocBody,
    HereDocEnd,
}

/// A stretch of the input, in bytes: its start and its end, the end outside.
#[derive(Debug, Clone, Copy, PartialEq, Eq, Structural)]
pub struct Span {
    pub start: usize,
    pub end: usize,
}

/// A token: where it stands, its text, what it is, and the tokens in it.
#[derive(Debug)]
pub struct CtxTk {
    pub span: Span,
    pub text: String,
    pub class: CtxTkRule,
    pub sub_tokens: Vec<CtxTk>,
}

impl CtxTk {
    pub fn new(span: Span, text: String, class: CtxTkRule, sub_tokens: Vec<CtxTk>) -> (r: CtxTk)
        ensures
            r == (CtxTk { span, text, class, sub_tokens }),
    {
        CtxTk { span, text, class, sub_tokens }
    }
}

/// How many of the first `n` characters go up to the last one that breaks a word.
pub open spec fn up_to_break(s: Seq<char>, breaks: Seq<char>, n: int) -> int
    decreases n,
{
    if n <= 0 || breaks.contains(s[n - 1]) {
        n
    } else {
        up_to_break(s, breaks, n - 1)
    }
}

/// What is taken off ends with a break, and none is left in the rest; nothing is
/// taken off where there is none.
pub proof fn the_last_break_counts(s: Seq<char>, breaks: Seq<char>, n: int)
    requires
        0 <= n <= s.len(),
    ensures
        ({
            let k = up_to_break(s, breaks, n);
            &&& 0 <= k <= n
            &&& k > 0 ==> breaks.contains(s[k - 1])
            &&& forall|i: int| k <= i < n ==> !breaks.contains(#[trigger] s[i])
        }),
    decreases n,
{
    if n > 0 && !breaks.contains(s[n - 1]) {
        the_last_break_counts(s, breaks, n - 1);
    }
}

fn is_break(breaks: &[char], c: char) -> (r: bool)
    ensures
        r == breaks@.contains(c),
{
    let mut i: usize = 0;
    while i < breaks.len()
        invariant
            i <= breaks@.len(),
            forall|k: int| 0 <= k < i ==> breaks@[k] != c,
        decreases breaks@.len() - i,
    {
        if breaks[i] == c {
            assert(breaks@[i as int] == c);
            return true;
        }
        i = i + 1;
    }
    false
}

/// Counts the characters up to the last one that breaks a word.
pub fn find_break(v: &[char], breaks: &[char]) -> (r: usize)
    ensures
        r == up_to_break(v@, breaks@, v@.len() as int),
        r <= v@.len(),
{
    let mut k: usize = v.len();
    while k > 0 && !is_break(breaks, v[k - 1])
        invariant
            k <= v@.len(),
            up_to_break(v@, breaks@, v@.len() as int) == up_to_break(v@, breaks@, k as int),
        decreases k,
    {
        k = k - 1;
    }
    k
}

} // verus!
