//! Invisible characters that mark the parts of a command line.

use crate::text::chars_of;
use vstd::prelude::*;

verus! {

pub const COMMAND: char = '\u{fdd0}';

pub const BUILTIN: char = '\u{fdd1}';

pub const ARG: char = '\u{fdd2}';

pub const KEYWORD: char = '\u{fdd3}';

pub const OPERATOR: char = '\u{fdd4}';

pub const REDIRECT: char = '\u{fdd5}';

pub const COMMENT: char = '\u{fdd6}';

pub const ASSIGNMENT: char = '\u{fdd7}';

pub const CMD_SEP: char = '\u{fdd8}';

pub const CASE_PAT: char = '\u{fdd9}';

pub const SUBSH: char = '\u{fdda}';

pub const SUBSH_END: char = '\u{fddb}';

pub const CMD_SUB: char = '\u{fddc}';

pub const CMD_SUB_END: char = '\u{fddd}';

pub const PROC_SUB: char = '\u{fdde}';

pub const PROC_SUB_END: char = '\u{fddf}';

pub const BACKTICK_SUB: char = '\u{fde0}';

pub const BACKTICK_SUB_END: char = '\u{fde1}';

pub const STRING_DQ: char = '\u{fde2}';

pub const STRING_DQ_END: char = '\u{fde3}';

pub const STRING_SQ: char = '\u{fde4}';

pub const STRING_SQ_END: char = '\u{fde5}';

pub const VAR_SUB: char = '\u{fde6}';

pub const VAR_SUB_END: char = '\u{fde7}';

pub const HIST_EXP: char = '\u{fde8}';

pub const HIST_EXP_END: char = '\u{fde9}';

pub const GLOB: char = '\u{fdea}';

pub const RESET: char = '\u{fdeb}';

pub const VISUAL_MODE_START: char = '\u{fdec}';

pub const VISUAL_MODE_END: char = '\u{fded}';

pub const NULL: char = '\u{fdef}';

/// Whether a character is a marker.
pub open spec fn marker(c: char) -> bool {
    '\u{fdd0}' <= c && c <= '\u{fdef}'
}

/// Whether a character marks an end of the selection.
pub open spec fn visual(c: char) -> bool {
    c == VISUAL_MODE_START || c == VISUAL_MODE_END
}

/// Whether a character is a marker.
pub fn is_marker(c: char) -> (r: bool)
    ensures
        r == marker(c),
{
    '\u{fdd0}' <= c && c <= '\u{fdef}'
}

/// Whether a character marks an end of the selection.
pub fn is_visual(c: char) -> (r: bool)
    ensures
        r == visual(c),
{
    c == VISUAL_MODE_START || c == VISUAL_MODE_END
}

/// The characters that are no markers.
pub open spec fn stripped(s: Seq<char>) -> Seq<char>
    decreases s.len(),
{
    if s.len() == 0 {
        s
    } else if marker(s.last()) {
        stripped(s.drop_last())
    } else {
        stripped(s.drop_last()).push(s.last())
    }
}

/// The characters that are no markers, or mark an end of the selection.
pub open spec fn stripped_keep_visual(s: Seq<char>) -> Seq<char>
    decreases s.len(),
{
    if s.len() == 0 {
        s
    } else if marker(s.last()) && !visual(s.last()) {
        stripped_keep_visual(s.drop_last())
    } else {
        stripped_keep_visual(s.drop_last()).push(s.last())
    }
}

/// Leaves out the markers.
pub fn strip_chars(v: &[char]) -> (r: Vec<char>)
    ensures
        r@ == stripped(v@),
{
    let mut out: Vec<char> = Vec::new();
    let mut i: usize = 0;
    while i < v.len()
        invariant
            i <= v@.len(),
            out@ == stripped(v@.take(i as int)),
        decreases v@.len() - i,
    {
        if !is_marker(v[i]) {
            out.push(v[i]);
        }
        i = i + 1;
        assert(v@.take(i as int).drop_last() =~= v@.take(i - 1));
    }
    assert(v@.take(i as int) =~= v@);
    out
}

/// Leaves out the markers but those of the selection.
pub fn strip_chars_keep_visual(v: &[char]) -> (r: Vec<char>)
    ensures
        r@ == stripped_keep_visual(v@),
{
    let mut out: Vec<char> = Vec::new();
    let mut i: usize = 0;
    while i < v.len()
        invariant
            i <= v@.len(),
            out@ == stripped_keep_visual(v@.take(i as int)),
        decreases v@.len() - i,
    {
        if !is_marker(v[i]) || is_visual(v[i]) {
            out.push(v[i]);
        }
        i = i + 1;
        assert(v@.take(i as int).drop_last() =~= v@.take(i - 1));
    }
    assert(v@.take(i as int) =~= v@);
    out
}

/// Leaves the markers out of a string.
pub fn strip_markers(s: &str) -> (r: String)
    ensures
        r@ == stripped(s@),
{
    let v = chars_of(s);
    let out = strip_chars(v.as_slice());
    crate::text::string_of(out.as_slice())
}

/// What is left has no markers, so that stripping again changes nothing.
pub proof fn stripping_is_final(s: Seq<char>)
    ensures
        forall|i: int| 0 <= i < stripped(s).len() ==> !marker(#[trigger] stripped(s)[i]),
        stripped(stripped(s)) == stripped(s),
    decreases s.len(),
{
    if s.len() > 0 {
        stripping_is_final(s.drop_last());
        let r = stripped(s);
        if !marker(s.last()) {
            assert(r.drop_last() =~= stripped(s.drop_last()));
        }
    }
}

/// Stripping goes through a text piece by piece.
pub proof fn lemma_stripped_add(a: Seq<char>, b: Seq<char>)
    ensures
        stripped(a + b) == stripped(a) + stripped(b),
    decreases b.len(),
{
    if b.len() == 0 {
        assert(a + b =~= a);
        assert(stripped(a) + stripped(b) =~= stripped(a));
    } else {
        lemma_stripped_add(a, b.drop_last());
        assert((a + b).drop_last() =~= a + b.drop_last());
        assert((a + b).last() == b.last());
        assert(stripped(a + b) =~= stripped(a) + stripped(b));
    }
}

} // verus!
