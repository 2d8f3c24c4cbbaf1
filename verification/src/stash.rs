//! Commands that are put aside.

use crate::text;
use crate::text::chars_of;
use crate::text::decimal_string;
use crate::text::owned;
use crate::text::parse_usize;
use crate::text::string_of;
use crate::text::trim;
use vstd::prelude::*;

verus! {

/// A command that was put aside, by name or on the stack, with its cursor.
#[derive(Debug)]
pub struct StashedCmd {
    pub name: Option<String>,
    pub buffer: String,
    pub cursor_pos: String,
}

/// A text with each line break followed by a tab.
pub open spec fn tabbed(s: Seq<char>) -> Seq<char>
    decreases s.len(),
{
    if s.len() == 0 {
        s
    } else if s.last() == '\n' {
        tabbed(s.drop_last()) + seq!['\n', '\t']
    } else {
        tabbed(s.drop_last()).push(s.last())
    }
}

fn add_tabs(s: &str) -> (r: String)
    ensures
        r@ == tabbed(s@),
{
    let v = chars_of(s);
    let mut out: String = String::new();
    let mut i: usize = 0;
    assert(v@.take(0) =~= Seq::<char>::empty());
    assert(out@ =~= Seq::empty());
    while i < v.len()
        invariant
            i <= v@.len(),
            out@ == tabbed(v@.take(i as int)),
        decreases v@.len() - i,
    {
        let ghost was = out@;
        assert(v@.take(i + 1).drop_last() =~= v@.take(i as int));
        out.push(v[i]);
        if v[i] == '\n' {
            out.push('\t');
            assert(out@ =~= was + seq!['\n', '\t']);
        }
        i = i + 1;
    }
    assert(v@.take(i as int) =~= v@);
    out
}

/// The first `n` commands of the stack, numbered.
pub open spec fn stack_rows(s: Seq<String>, n: int) -> Seq<char>
    decreases n,
{
    if n <= 0 {
        Seq::empty()
    } else {
        let init = stack_rows(s, n - 1);
        (if n > 1 {
            init.push('\n')
        } else {
            init
        }) + "["@ + text::decimal((n - 1) as nat) + "]\t"@ + tabbed(s[n - 1]@)
    }
}

/// The first `n` named commands.
pub open spec fn named_rows(s: Seq<(String, String)>, n: int) -> Seq<char>
    decreases n,
{
    if n <= 0 {
        Seq::empty()
    } else {
        let init = named_rows(s, n - 1);
        (if n > 1 {
            init.push('\n')
        } else {
            init
        }) + s[n - 1].0@ + "\t"@ + tabbed(s[n - 1].1@)
    }
}

/// The list of what was put aside: the stack, the named commands, or both. To
/// ask for only the one and only the other is to ask for both.
pub open spec fn listing(
    stack: Seq<String>,
    named: Seq<(String, String)>,
    named_only: bool,
    stack_only: bool,
) -> Seq<char> {
    let both = named_only == stack_only;
    let a = if stack.len() > 0 && (both || stack_only) {
        (if both {
            "Stack:\n"@
        } else {
            "\n"@
        }) + stack_rows(stack, stack.len() as int)
    } else {
        Seq::empty()
    };
    if named.len() > 0 && (both || named_only) {
        (if a.len() > 0 {
            a + "\n\n"@
        } else {
            a
        }) + (if both {
            "Named:\n"@
        } else {
            "\n"@
        }) + named_rows(named, named.len() as int)
    } else {
        a
    }
}

fn stack_text(s: &[String]) -> (r: String)
    ensures
        r@ == stack_rows(s@, s@.len() as int),
{
    let mut out: String = String::new();
    let mut i: usize = 0;
    assert(out@ =~= Seq::empty());
    while i < s.len()
        invariant
            i <= s@.len(),
            out@ == stack_rows(s@, i as int),
        decreases s@.len() - i,
    {
        if i > 0 {
            out.push('\n');
        }
        out.push_str("[");
        let d = decimal_string(i);
        out.push_str(d.as_str());
        out.push_str("]\t");
        let t = add_tabs(s[i].as_str());
        out.push_str(t.as_str());
        i = i + 1;
    }
    out
}

fn named_text(s: &[(String, String)]) -> (r: String)
    ensures
        r@ == named_rows(s@, s@.len() as int),
{
    let mut out: String = String::new();
    let mut i: usize = 0;
    assert(out@ =~= Seq::empty());
    while i < s.len()
        invariant
            i <= s@.len(),
            out@ == named_rows(s@, i as int),
        decreases s@.len() - i,
    {
        if i > 0 {
            out.push('\n');
        }
        out.push_str(s[i].0.as_str());
        out.push_str("\t");
        let t = add_tabs(s[i].1.as_str());
        out.push_str(t.as_str());
        i = i + 1;
    }
    out
}

/// Lists what was put aside.
pub fn list(
    stack: &[String],
    named: &[(String, String)],
    named_only: bool,
    stack_only: bool,
) -> (r: String)
    ensures
        r@ == listing(stack@, named@, named_only, stack_only),
{
    let both: bool = named_only == stack_only;
    let mut out: String = String::new();
    assert(out@ =~= Seq::empty());
    if stack.len() > 0 && (both || stack_only) {
        let rows = stack_text(stack);
        out = if both {
            owned("Stack:\n")
        } else {
            owned("\n")
        };
        out.push_str(rows.as_str());
    }
    if named.len() > 0 && (both || named_only) {
        let v = chars_of(out.as_str());
        if v.len() > 0 {
            out.push_str("\n\n");
        }
        if both {
            out.push_str("Named:\n");
        } else {
            out.push_str("\n");
        }
        let rows = named_text(named);
        out.push_str(rows.as_str());
    }
    out
}

/// What names a command that was put aside.
#[derive(Debug)]
pub enum StashRef {
    /// Its place on the stack, the oldest first.
    Index(usize),
    Name(String),
}

/// Reads what names a command: a number is a place on the stack.
pub fn stash_ref(ident: &str) -> (r: StashRef)
    ensures
        match text::parsed_usize(ident@) {
            Some(n) => r == StashRef::Index(n),
            None => r is Name && r->Name_0@ == ident@,
        },
{
    match parse_usize(ident) {
        Some(n) => StashRef::Index(n),
        None => StashRef::Name(owned(ident)),
    }
}

/// Reads what names a command to look at; space around a name does not count.
pub fn stash_lookup(ident: &str) -> (r: StashRef)
    ensures
        match text::parsed_usize(ident@) {
            Some(n) => r == StashRef::Index(n),
            None => r is Name && r->Name_0@ == text::trimmed(ident@),
        },
{
    match parse_usize(ident) {
        Some(n) => StashRef::Index(n),
        None => {
            let v = chars_of(ident);
            let t = trim(v.as_slice());
            StashRef::Name(string_of(t.as_slice()))
        },
    }
}

/// Whether a name may be given: none that is a number.
pub open spec fn may_name(name: Option<Seq<char>>) -> bool {
    name is Some ==> text::parsed_usize(name->0) is None
}

/// Whether a command may be put aside, and what is told where it may not.
pub fn check_stashed(cmd: &StashedCmd) -> (r: Result<(), String>)
    ensures
        ({
            let ok = may_name(
                match cmd.name {
                    Some(n) => Some(n@),
                    None => None,
                },
            );
            match r {
                Ok(_) => ok,
                Err(e) => !ok && e@ == "stash name cannot be a number"@,
            }
        }),
{
    if let Some(n) = &cmd.name {
        if parse_usize(n.as_str()).is_some() {
            return Err(owned("stash name cannot be a number"));
        }
    }
    Ok(())
}

/// The command to put aside, with its cursor, and what is told where it may not
/// have its name.
pub fn stash_entry(name: Option<&str>, buffer: &str, cursor: (usize, usize)) -> (r: Result<
    StashedCmd,
    String,
>)
    ensures
        ({
            let ok = may_name(
                match name {
                    Some(n) => Some(n@),
                    None => None,
                },
            );
            match r {
                Ok(c) => {
                    &&& ok
                    &&& c.name is Some <==> name is Some
                    &&& name is Some ==> c.name->0@ == name->0@
                    &&& c.buffer@ == buffer@
                    &&& c.cursor_pos@ == text::decimal(cursor.0 as nat) + ":"@ + text::decimal(
                        cursor.1 as nat,
                    )
                },
                Err(e) => !ok && e@ == "stashed command name cannot be a number"@,
            }
        }),
{
    if let Some(n) = name {
        if parse_usize(n).is_some() {
            return Err(owned("stashed command name cannot be a number"));
        }
    }
    let mut pos = decimal_string(cursor.0);
    pos.push_str(":");
    let col = decimal_string(cursor.1);
    pos.push_str(col.as_str());
    Ok(
        StashedCmd {
            name: match name {
                Some(n) => Some(owned(n)),
                None => None,
            },
            buffer: owned(buffer),
            cursor_pos: pos,
        },
    )
}

} // verus!
