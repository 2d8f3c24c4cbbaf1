//! Escaping for the shell.

use crate::text::chars_of;
use vstd::prelude::*;

verus! {

/// Whether a character means something to the shell.
pub open spec fn special(c: char) -> bool {
    ||| c == '\'' || c == '"' || c == '\\' || c == '|' || c == '&' || c == ';' || c == '('
    ||| c == ')' || c == '<' || c == '>' || c == '$' || c == '*' || c == '!' || c == '`'
    ||| c == '{' || c == '?' || c == '[' || c == '#' || c == ' ' || c == '\t' || c == '\n'
}

fn is_special(c: char) -> (r: bool)
    ensures
        r == special(c),
{
    match c {
        '\'' | '"' | '\\' | '|' | '&' | ';' | '(' | ')' | '<' | '>' | '$' | '*' | '!' | '`' | '{' | '?' | '[' | '#' | ' ' | '\t' | '\n' => true,
        _ => false,
    }
}

/// A text with a backslash before each character that means something to the
/// shell.
pub open spec fn escaped(s: Seq<char>) -> Seq<char>
    decreases s.len(),
{
    if s.len() == 0 {
        s
    } else if special(s.last()) {
        escaped(s.drop_last()).push('\\').push(s.last())
    } else {
        escaped(s.drop_last()).push(s.last())
    }
}

/// A text without the backslashes that escape.
pub open spec fn unescaped(s: Seq<char>) -> Seq<char>
    decreases s.len(),
{
    if s.len() == 0 {
        s
    } else if s[0] == '\\' && s.len() > 1 {
        seq![s[1]] + unescaped(s.skip(2))
    } else {
        seq![s[0]] + unescaped(s.skip(1))
    }
}

proof fn lemma_unescaped_add(a: Seq<char>, b: Seq<char>)
    ensures
        unescaped(escaped(a) + b) == a + unescaped(b),
    decreases a.len(),
{
    if a.len() == 0 {
        assert(escaped(a) + b =~= b);
        assert(a + unescaped(b) =~= unescaped(b));
    } else {
        let c = a.last();
        let tail = if special(c) {
            seq!['\\', c]
        } else {
            seq![c]
        };
        assert(escaped(a) + b =~= escaped(a.drop_last()) + (tail + b));
        lemma_unescaped_add(a.drop_last(), tail + b);
        assert(unescaped(tail + b) =~= seq![c] + unescaped(b)) by {
            let x = tail + b;
            if special(c) {
                assert(x[0] == '\\' && x[1] == c);
                assert(x.skip(2) =~= b);
            } else {
                assert(x[0] == c);
                assert(x.skip(1) =~= b);
            }
        }
        assert(a =~= a.drop_last().push(c));
        assert(a.drop_last() + (seq![c] + unescaped(b)) =~= a + unescaped(b));
    }
}

/// Taking the backslashes out of an escaped text gives the text back.
pub proof fn escaping_keeps_the_text(s: Seq<char>)
    ensures
        unescaped(escaped(s)) == s,
{
    lemma_unescaped_add(s, Seq::empty());
    assert(escaped(s) + Seq::<char>::empty() =~= escaped(s));
    assert(s + unescaped(Seq::<char>::empty()) =~= s);
}

/// Puts a backslash before each character that means something to the shell.
pub fn escape_str(s: &str) -> (r: String)
    ensures
        r@ == escaped(s@),
{
    let v = chars_of(s);
    let mut out: String = String::new();
    let mut i: usize = 0;
    while i < v.len()
        invariant
            i <= v@.len(),
            out@ == escaped(v@.take(i as int)),
        decreases v@.len() - i,
    {
        if is_special(v[i]) {
            out.push('\\');
        }
        out.push(v[i]);
        i = i + 1;
        assert(v@.take(i as int).drop_last() =~= v@.take(i - 1));
    }
    assert(v@.take(i as int) =~= v@);
    out
}

/// How many backslashes end the first `n` characters.
pub open spec fn backslashes(s: Seq<char>, n: int) -> int
    decreases n,
{
    if n <= 0 || n > s.len() || s[n - 1] != '\\' {
        0
    } else {
        1 + backslashes(s, n - 1)
    }
}

/// Whether a text ends with a character that no backslash escapes.
pub open spec fn ends_plain(s: Seq<char>, c: char) -> bool {
    s.len() > 0 && s.last() == c && backslashes(s, s.len() - 1) % 2 == 0
}

/// Whether a text ends with a character that no backslash escapes.
pub fn ends_with_unescaped(s: &str, c: char) -> (r: bool)
    ensures
        r == ends_plain(s@, c),
{
    let v = chars_of(s);
    if v.len() == 0 || v[v.len() - 1] != c {
        return false;
    }
    let mut n: usize = v.len() - 1;
    let mut even: bool = true;
    while n > 0 && v[n - 1] == '\\'
        invariant
            n < v@.len(),
            (backslashes(v@, v@.len() - 1) % 2 == 0) == (if even {
                backslashes(v@, n as int) % 2 == 0
            } else {
                backslashes(v@, n as int) % 2 == 1
            }),
        decreases n,
    {
        n = n - 1;
        even = !even;
    }
    even
}

} // verus!
