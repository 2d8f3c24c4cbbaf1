//! What is typed on the command line, and what it comes to.

use crate::editcmd::EditCmd;
use crate::editcmd::Motion;
use crate::editcmd::MotionCmd;
use crate::editcmd::SubFlags;
use crate::editcmd::Verb;
use crate::editcmd::VerbCmd;
use crate::editmode::cmdline::ExOut;
use crate::editmode::cmdline::ViEx;
use crate::editmode::cmdline;
use crate::editmode::ex;
use crate::editmode::ex::AddrModel;
use crate::editmode::ex::CmdModel;
use crate::editmode::ex::Expansion;
use crate::editmode::ex::MotionModel;
use crate::editmode::ex::Out;
use crate::editmode::ex::SpanModel;
use crate::editmode::ex::VerbModel;
use crate::keys::KeyCode;
use crate::keys::KeyEvent;
use crate::keys::ModKeys;
use crate::linebuf::buffer::LineBuf;
use crate::linebuf::buffer::Viewport;
use crate::linebuf::lines;
use crate::text;
use crate::unicode;
use crate::vimode::ex as viex;
use vstd::prelude::*;

verus! {

/// Whether a text neither begins nor ends with whitespace.
pub open spec fn tight(s: Seq<char>) -> bool {
    s.len() > 0 && !unicode::whitespace(s[0]) && !unicode::whitespace(s.last())
}

/// Whether a text is a name of a command, or the start of one that says which.
pub open spec fn shortens(n: Seq<char>, word: Seq<char>) -> bool {
    0 < n.len() <= word.len() && n == word.take(n.len() as int)
}

proof fn lemma_tight(s: Seq<char>)
    requires
        tight(s),
    ensures
        text::trimmed(s) == s,
        text::trimmed_left(s) == s,
{
}

proof fn lemma_digit_run(d: Seq<char>, rest: Seq<char>, i: int)
    requires
        text::all_digits(d),
        rest.len() > 0 ==> !unicode::ascii_digit(rest[0]),
        0 <= i <= d.len(),
    ensures
        ex::digit_run(d + rest, i) == d.len(),
    decreases d.len() - i,
{
    let s = d + rest;
    if i < d.len() {
        assert(s[i] == d[i]);
        lemma_digit_run(d, rest, i + 1);
    } else if rest.len() > 0 {
        assert(s[i] == rest[0]);
    }
}

/// A number names the line with that number, a dot the line of the cursor, a dollar sign
/// the last line; a sign and a number count from the cursor on, or back.
pub proof fn lines_have_addresses(n: nat, rest: Seq<char>)
    requires
        n <= isize::MAX,
        rest.len() > 0 ==> !unicode::ascii_digit(rest[0]),
    ensures
        ex::one_addr(text::decimal(n) + rest) == (
            Out::Found(AddrModel::Number(n as usize)),
            rest,
        ),
        ex::one_addr(seq!['+'] + text::decimal(n) + rest) == (
            Out::Found(AddrModel::Offset(n as isize)),
            rest,
        ),
        ex::one_addr(seq!['-'] + text::decimal(n) + rest) == (
            Out::Found(AddrModel::Offset((-n) as isize)),
            rest,
        ),
        ex::one_addr(seq!['.'] + rest) == (Out::Found(AddrModel::Current), rest),
        ex::one_addr(seq!['$'] + rest) == (Out::Found(AddrModel::Last), rest),
{
    let d = text::decimal(n);
    text::decimal_reads_back(n);
    let s = d + rest;
    let t = s.skip(1);
    let d1 = d.skip(1);
    assert(s[0] == d[0]);
    assert(unicode::ascii_digit(d[0]));
    assert forall|i: int| 0 <= i < d1.len() implies unicode::ascii_digit(#[trigger] d1[i]) by {
        assert(d1[i] == d[i + 1]);
    }
    assert(t =~= d1 + rest);
    lemma_digit_run(d1, rest, 0);
    assert(t.take(d1.len() as int) =~= d1);
    assert(t.skip(d1.len() as int) =~= rest);
    assert(seq![s[0]] + d1 =~= d);
    assert(text::parsed_usize(d) == Some(n as usize));
    lemma_digit_run(d, rest, 0);
    assert(s.take(d.len() as int) =~= d);
    assert(s.skip(d.len() as int) =~= rest);
    assert((seq!['+'] + d + rest).skip(1) =~= s);
    assert((seq!['-'] + d + rest).skip(1) =~= s);
    assert((seq!['+'] + d + rest)[0] == '+');
    assert((seq!['-'] + d + rest)[0] == '-');
    assert((seq!['.'] + rest).skip(1) =~= rest);
    assert((seq!['$'] + rest).skip(1) =~= rest);
}

/// Two numbers with a comma name the lines from the first to the second, one number its
/// line, and a percent sign all the lines.
pub proof fn spans_have_addresses(n: nat, m: nat, rest: Seq<char>)
    requires
        n <= isize::MAX,
        m <= isize::MAX,
        rest.len() > 0 ==> !unicode::ascii_digit(rest[0]) && rest[0] != ',',
    ensures
        ex::address(text::decimal(n) + seq![','] + text::decimal(m) + rest) == (
            Out::Found(
                SpanModel::LineRange(
                    AddrModel::Number(n as usize),
                    AddrModel::Number(m as usize),
                ),
            ),
            rest,
        ),
        ex::address(text::decimal(n) + rest) == (
            Out::Found(SpanModel::Line(AddrModel::Number(n as usize))),
            rest,
        ),
        ex::address(seq!['%'] + rest) == (
            Out::Found(SpanModel::LineRange(AddrModel::Number(1), AddrModel::Last)),
            rest,
        ),
{
    let a = text::decimal(n);
    let b = text::decimal(m);
    text::decimal_reads_back(n);
    text::decimal_reads_back(m);
    let tail = seq![','] + b + rest;
    let s = a + seq![','] + b + rest;
    assert(s =~= a + tail);
    lines_have_addresses(n, tail);
    lines_have_addresses(m, rest);
    lines_have_addresses(n, rest);
    assert(tail.skip(1) =~= b + rest);
    assert(unicode::ascii_digit(a[0]));
    assert(s[0] == a[0]);
    assert((a + rest)[0] == a[0]);
    assert((seq!['%'] + rest).skip(1) =~= rest);
}

/// Whether a text can stand between the delimiters of a pattern as it is.
pub open spec fn undelimited(p: Seq<char>, d: char) -> bool {
    forall|i: int| 0 <= i < p.len() ==> #[trigger] p[i] != d && p[i] != '\\'
}

/// Whether a character can delimit patterns.
pub open spec fn delimits(d: char) -> bool {
    d != '\\' && !unicode::alphanumeric(d) && !unicode::whitespace(d)
}

/// An escaped delimiter belongs to the pattern, without its backslash.
pub proof fn delimiters_can_be_escaped(p: Seq<char>, q: Seq<char>, d: char, rest: Seq<char>)
    requires
        delimits(d),
        undelimited(p, d),
        undelimited(q, d),
    ensures
        ex::pattern_of(p + seq!['\\', d] + q + seq![d] + rest, d) == Some(
            (p + seq![d] + q, rest),
        ),
    decreases p.len(),
{
    let s = p + seq!['\\', d] + q + seq![d] + rest;
    if p.len() == 0 {
        ex::plain_patterns_are_read(q, d, rest);
        assert(s.skip(2) =~= q.push(d) + rest);
        assert(s[0] == '\\' && s[1] == d);
        assert(p + seq![d] + q =~= seq![d] + q);
    } else {
        let r = p.skip(1);
        assert(p[0] != d && p[0] != '\\');
        assert forall|i: int| 0 <= i < r.len() implies #[trigger] r[i] != d && r[i] != '\\' by {
            assert(r[i] == p[i + 1]);
        }
        delimiters_can_be_escaped(r, q, d, rest);
        assert(s.skip(1) =~= r + seq!['\\', d] + q + seq![d] + rest);
        assert(s[0] == p[0]);
        assert(seq![p[0]] + (r + seq![d] + q) =~= p + seq![d] + q);
    }
}

/// A pattern that does not end is none.
pub proof fn patterns_have_an_end(p: Seq<char>, d: char)
    requires
        delimits(d),
        undelimited(p, d),
    ensures
        ex::pattern_of(p, d) is None,
    decreases p.len(),
{
    if p.len() > 0 {
        let r = p.skip(1);
        assert(p[0] != d && p[0] != '\\');
        assert forall|i: int| 0 <= i < r.len() implies #[trigger] r[i] != d && r[i] != '\\' by {
            assert(r[i] == p[i + 1]);
        }
        patterns_have_an_end(r, d);
    }
}

/// The flags of a substitution are set by their letters, whatever their order; another
/// letter is no flag.
pub proof fn flags_are_set_by_letters(s: Seq<char>)
    ensures
        match ex::sub_flags(s) {
            Some(f) => {
                &&& f.global == s.contains('g')
                &&& f.ignore_case == s.contains('i')
                &&& f.no_ignore_case == s.contains('I')
                &&& f.show_count == s.contains('n')
                &&& f == (SubFlags {
                    global: f.global,
                    ignore_case: f.ignore_case,
                    no_ignore_case: f.no_ignore_case,
                    show_count: f.show_count,
                    ..SubFlags::none()
                })
                &&& forall|i: int|
                    0 <= i < s.len() ==> s[i] == 'g' || s[i] == 'i' || s[i] == 'I' || s[i] == 'n'
            },
            None => exists|i: int|
                0 <= i < s.len() && (#[trigger] s[i]) != 'g' && s[i] != 'i' && s[i] != 'I' && s[i]
                    != 'n',
        },
    decreases s.len(),
{
    if s.len() > 0 {
        let d = s.drop_last();
        flags_are_set_by_letters(d);
        let l = s.last();
        assert(s[s.len() - 1] == l);
        assert forall|c: char| s.contains(c) <==> d.contains(c) || c == l by {
            if d.contains(c) {
                let i = choose|i: int| 0 <= i < d.len() && d[i] == c;
                assert(s[i] == c);
            }
            if s.contains(c) && c != l {
                let i = choose|i: int| 0 <= i < s.len() && s[i] == c;
                assert(d[i] == c);
            }
        }
        if ex::sub_flags(d) is None {
            let i = choose|i: int|
                0 <= i < d.len() && (#[trigger] d[i]) != 'g' && d[i] != 'i' && d[i] != 'I' && d[i]
                    != 'n';
            assert(s[i] == d[i]);
        } else {
            assert forall|i: int| 0 <= i < d.len() implies s[i] == 'g' || s[i] == 'i' || s[i]
                == 'I' || s[i] == 'n' by {
                assert(s[i] == d[i]);
            }
        }
    }
}

/// A substitution puts the second text in the place of the first, with the flags behind
/// it.
pub proof fn substitutions_are_read(d: char, p: Seq<char>, r: Seq<char>, flags: Seq<char>)
    requires
        delimits(d),
        undelimited(p, d),
        undelimited(r, d),
    ensures
        ({
            let s = seq![d] + p + seq![d] + r + seq![d] + flags;
            match ex::sub_flags(flags) {
                Some(f) => ex::substitute_cmd(s) == Out::Found(VerbModel::Substitute(p, r, f)),
                None => ex::substitute_cmd(s) is Bad,
            }
        }),
        ex::substitute_cmd(seq![d] + p) is Message,
        ex::substitute_cmd(seq![d] + p + seq![d] + r) is Message,
        ex::substitute_cmd(Seq::empty()) == Out::Found(VerbModel::RepeatSubstitute),
{
    let s = seq![d] + p + seq![d] + r + seq![d] + flags;
    let tail = r.push(d) + flags;
    assert(s[0] == d);
    assert(s.skip(1) =~= p.push(d) + tail);
    ex::plain_patterns_are_read(p, d, tail);
    ex::plain_patterns_are_read(r, d, flags);
    let u = seq![d] + p;
    assert(u.skip(1) =~= p);
    patterns_have_an_end(p, d);
    let v = seq![d] + p + seq![d] + r;
    assert(v[0] == d);
    assert(v.skip(1) =~= p.push(d) + r);
    ex::plain_patterns_are_read(p, d, r);
    patterns_have_an_end(r, d);
}

proof fn lemma_words()
    ensures
        "help"@ == seq!['h', 'e', 'l', 'p'],
        "normal"@ == seq!['n', 'o', 'r', 'm', 'a', 'l'],
        "normal!"@ == seq!['n', 'o', 'r', 'm', 'a', 'l', '!'],
        "delete"@ == seq!['d', 'e', 'l', 'e', 't', 'e'],
        "yank"@ == seq!['y', 'a', 'n', 'k'],
        "put"@ == seq!['p', 'u', 't'],
        "quit"@ == seq!['q', 'u', 'i', 't'],
        "read"@ == seq!['r', 'e', 'a', 'd'],
        "write"@ == seq!['w', 'r', 'i', 't', 'e'],
        "edit"@ == seq!['e', 'd', 'i', 't'],
        "substitute"@ == seq!['s', 'u', 'b', 's', 't', 'i', 't', 'u', 't', 'e'],
        "global"@ == seq!['g', 'l', 'o', 'b', 'a', 'l'],
        "!"@ == seq!['!'],
{
    reveal_strlit("help");
    reveal_strlit("normal");
    reveal_strlit("normal!");
    reveal_strlit("delete");
    reveal_strlit("yank");
    reveal_strlit("put");
    reveal_strlit("quit");
    reveal_strlit("read");
    reveal_strlit("write");
    reveal_strlit("edit");
    reveal_strlit("substitute");
    reveal_strlit("global");
    reveal_strlit("!");
    assert("help"@ =~= seq!['h', 'e', 'l', 'p']);
    assert("normal"@ =~= seq!['n', 'o', 'r', 'm', 'a', 'l']);
    assert("normal!"@ =~= seq!['n', 'o', 'r', 'm', 'a', 'l', '!']);
    assert("delete"@ =~= seq!['d', 'e', 'l', 'e', 't', 'e']);
    assert("yank"@ =~= seq!['y', 'a', 'n', 'k']);
    assert("put"@ =~= seq!['p', 'u', 't']);
    assert("quit"@ =~= seq!['q', 'u', 'i', 't']);
    assert("read"@ =~= seq!['r', 'e', 'a', 'd']);
    assert("write"@ =~= seq!['w', 'r', 'i', 't', 'e']);
    assert("edit"@ =~= seq!['e', 'd', 'i', 't']);
    assert("substitute"@ =~= seq!['s', 'u', 'b', 's', 't', 'i', 't', 'u', 't', 'e']);
    assert("global"@ =~= seq!['g', 'l', 'o', 'b', 'a', 'l']);
    assert("!"@ =~= seq!['!']);
}

/// Whether a text is one word of a command's name.
pub open spec fn is_word(n: Seq<char>) -> bool {
    n.len() > 0 && forall|i: int| 0 <= i < n.len() ==> unicode::ascii_lower(#[trigger] n[i])
}

proof fn lemma_first_letter(n: Seq<char>, word: Seq<char>)
    requires
        n.len() > 0,
        word.len() > 0,
        n[0] != word[0],
    ensures
        !text::has_prefix(word, n),
        !text::has_prefix(n, word),
        n != word,
{
    if text::has_prefix(word, n) {
        assert(word.take(n.len() as int)[0] == word[0]);
    }
    if text::has_prefix(n, word) {
        assert(n.take(word.len() as int)[0] == n[0]);
    }
}

proof fn lemma_others(n: Seq<char>, c: char)
    requires
        n.len() > 0,
        n[0] == c,
    ensures
        c != 'h' ==> !text::has_prefix("help"@, n),
        c != 'n' ==> !text::has_prefix(n, "normal!"@) && n != "normal!"@,
        c != 'd' ==> !text::has_prefix("delete"@, n),
        c != 'y' ==> !text::has_prefix("yank"@, n),
        c != 'p' ==> !text::has_prefix("put"@, n),
        c != 'q' ==> !text::has_prefix("quit"@, n),
        c != 'r' ==> !text::has_prefix("read"@, n),
        c != 'w' ==> !text::has_prefix("write"@, n),
        c != 'e' ==> !text::has_prefix("edit"@, n),
        c != 's' ==> !text::has_prefix("substitute"@, n),
        c != '!' ==> n != "!"@,
{
    lemma_words();
    if c != 'h' {
        lemma_first_letter(n, "help"@);
    }
    if c != 'n' {
        lemma_first_letter(n, "normal!"@);
    }
    if c != 'd' {
        lemma_first_letter(n, "delete"@);
    }
    if c != 'y' {
        lemma_first_letter(n, "yank"@);
    }
    if c != 'p' {
        lemma_first_letter(n, "put"@);
    }
    if c != 'q' {
        lemma_first_letter(n, "quit"@);
    }
    if c != 'r' {
        lemma_first_letter(n, "read"@);
    }
    if c != 'w' {
        lemma_first_letter(n, "write"@);
    }
    if c != 'e' {
        lemma_first_letter(n, "edit"@);
    }
    if c != 's' {
        lemma_first_letter(n, "substitute"@);
    }
    if c != '!' {
        lemma_first_letter(n, "!"@);
    }
}

/// A command is called by its name or by any start of it.
pub proof fn commands_have_names(n: Seq<char>, s: Seq<char>, x: Expansion)
    ensures
        shortens(n, seq!['d', 'e', 'l', 'e', 't', 'e']) ==> ex::named_cmd(n, s, x) == Out::Found(
            VerbModel::Delete,
        ),
        shortens(n, seq!['y', 'a', 'n', 'k']) ==> ex::named_cmd(n, s, x) == Out::Found(
            VerbModel::Yank,
        ),
        shortens(n, seq!['p', 'u', 't']) ==> ex::named_cmd(n, s, x) == Out::Found(VerbModel::Put),
        shortens(n, seq!['q', 'u', 'i', 't']) ==> ex::named_cmd(n, s, x) == Out::Found(
            VerbModel::Quit,
        ),
        shortens(n, seq!['r', 'e', 'a', 'd']) ==> ex::named_cmd(n, s, x) == ex::read_cmd(s, x),
        shortens(n, seq!['w', 'r', 'i', 't', 'e']) ==> ex::named_cmd(n, s, x) == ex::write_cmd(
            s,
            x,
        ),
        shortens(n, seq!['e', 'd', 'i', 't']) ==> ex::named_cmd(n, s, x) == ex::edit_cmd(s, x),
        shortens(n, seq!['s', 'u', 'b', 's', 't', 'i', 't', 'u', 't', 'e']) ==> ex::named_cmd(
            n,
            s,
            x,
        ) == ex::substitute_cmd(s),
        n == seq!['!'] && !s.contains('\\') ==> ex::named_cmd(n, s, x) == Out::Found(
            VerbModel::Shell(s),
        ),
        n == seq!['n', 'o', 'r', 'm', 'a', 'l', '!'] && tight(s) ==> ex::named_cmd(n, s, x)
            == Out::Found(VerbModel::Normal(s)),
        n.len() == 0 ==> ex::named_cmd(n, s, x) is Nothing,
{
    lemma_words();
    if n.len() > 0 {
        lemma_others(n, n[0]);
        if text::has_prefix("help"@, n) {
            assert("help"@.take(n.len() as int)[0] == 'h');
        }
    }
    if n == seq!['!'] && !s.contains('\\') {
        lemma_unescaped(s);
    }
    if n == seq!['n', 'o', 'r', 'm', 'a', 'l', '!'] {
        assert(n.take(7) =~= n);
        assert(n[0] == 'n');
        lemma_first_letter(n, "help"@);
    }
    if tight(s) {
        lemma_tight(s);
    }
}

proof fn lemma_unescaped(s: Seq<char>)
    requires
        !s.contains('\\'),
    ensures
        ex::unescaped(s) == s,
    decreases s.len(),
{
    if s.len() > 0 {
        assert(s.contains(s[0]));
        let t = s.skip(1);
        assert(!t.contains('\\')) by {
            if t.contains('\\') {
                let i = choose|i: int| 0 <= i < t.len() && t[i] == '\\';
                assert(s[i + 1] == '\\');
            }
        }
        lemma_unescaped(t);
        assert(seq![s[0]] + t =~= s);
    }
}

/// A path behind a command is read from, written to, appended to or edited; behind an
/// exclamation mark stands a shell command instead.
pub proof fn paths_are_read(p: Seq<char>)
    requires
        tight(p),
    ensures
        ({
            let x = Expansion::AsTyped;
            &&& p[0] != '!' ==> ex::read_cmd(seq![' '] + p, x) == Out::Found(
                VerbModel::ReadFile(p),
            )
            &&& ex::read_cmd(seq![' ', '!'] + p, x) == Out::Found(VerbModel::ReadCmd(p))
            &&& p[0] != '!' && p[0] != '>' ==> ex::write_cmd(seq![' '] + p, x) == Out::Found(
                VerbModel::WriteFile(p),
            )
            &&& ex::write_cmd(seq![' ', '!'] + p, x) == Out::Found(VerbModel::WriteCmd(p))
            &&& ex::write_cmd(seq![' ', '>', '>'] + p, x) == Out::Found(VerbModel::WriteAppend(p))
            &&& ex::edit_cmd(seq![' '] + p, x) == Out::Found(VerbModel::Edit(p))
            &&& ex::edit_cmd(Seq::empty(), x) is Message
            &&& ex::read_cmd(Seq::empty(), x) is Message
        }),
{
    lemma_tight(p);
    reveal_with_fuel(text::trimmed_left, 2);
    let a = seq![' '] + p;
    assert(a[0] == ' ');
    assert(a.skip(1) =~= p);
    let b = seq![' ', '!'] + p;
    let b1 = seq!['!'] + p;
    assert(b[0] == ' ');
    assert(b.skip(1) =~= b1);
    assert(b1[0] == '!');
    assert(b1.skip(1) =~= p);
    assert(text::trimmed_left(b) == b1);
    let c = seq![' ', '>', '>'] + p;
    let c1 = seq!['>', '>'] + p;
    assert(c[0] == ' ');
    assert(c.skip(1) =~= c1);
    assert(c1[0] == '>' && c1[1] == '>');
    assert(c1.skip(2) =~= p);
    assert(text::trimmed_left(c) == c1);
    assert(text::trimmed_left(a) == p);
}

proof fn lemma_name_run(n: Seq<char>, rest: Seq<char>, i: int)
    requires
        is_word(n),
        rest.len() > 0 ==> !unicode::alphanumeric(rest[0]),
        0 <= i <= n.len(),
    ensures
        ex::name_run(n + rest, i) == n.len(),
    decreases n.len() - i,
{
    let s = n + rest;
    if i < n.len() {
        assert(s[i] == n[i]);
        assert(unicode::ascii_lower(n[i]));
        lemma_name_run(n, rest, i + 1);
    } else if rest.len() > 0 {
        assert(s[i] == rest[0]);
    }
}

proof fn lemma_command(n: Seq<char>, rest: Seq<char>, x: Expansion)
    requires
        is_word(n),
        rest.len() > 0 ==> !unicode::alphanumeric(rest[0]) && rest[0] != '!',
    ensures
        ex::command(n + rest, x) == ex::named_cmd(n, rest, x),
{
    lemma_name_run(n, rest, 0);
    let s = n + rest;
    assert(s.take(n.len() as int) =~= n);
    assert(s.skip(n.len() as int) =~= rest);
    if rest.len() > 0 {
        assert(s[n.len() as int] == rest[0]);
    }
}

/// A command without lines is for the line of the cursor, one for writing for all of them.
/// Behind lines it is for those.
pub proof fn commands_are_for_their_lines(
    n: Seq<char>,
    rest: Seq<char>,
    a: nat,
    b: nat,
    x: Expansion,
    v: VerbModel,
)
    requires
        is_word(n),
        n[0] != 'g',
        rest.len() > 0 ==> !unicode::alphanumeric(rest[0]) && rest[0] != '!'
            && !unicode::whitespace(rest.last()),
        a <= isize::MAX,
        b <= isize::MAX,
        ex::named_cmd(n, rest, x) == Out::Found(v),
    ensures
        ex::ex_input(n + rest, x) == Out::Found(
            CmdModel {
                verb: Some(v),
                motion: if v is WriteCmd || v is WriteAppend || v is WriteFile {
                    None
                } else {
                    Some(MotionModel::Lines(SpanModel::Line(AddrModel::Current)))
                },
            },
        ),
        ex::ex_input(text::decimal(a) + seq![','] + text::decimal(b) + (n + rest), x)
            == Out::Found(
            CmdModel {
                verb: Some(v),
                motion: Some(
                    MotionModel::Lines(
                        SpanModel::LineRange(
                            AddrModel::Number(a as usize),
                            AddrModel::Number(b as usize),
                        ),
                    ),
                ),
            },
        ),
        ex::ex_input(seq!['%'] + (n + rest), x) == Out::Found(
            CmdModel {
                verb: Some(v),
                motion: Some(
                    MotionModel::Lines(SpanModel::LineRange(AddrModel::Number(1), AddrModel::Last)),
                ),
            },
        ),
{
    let c = n + rest;
    assert(unicode::ascii_lower(n[0]));
    assert(c[0] == n[0]);
    if rest.len() == 0 {
        assert(c.last() == n[n.len() - 1]);
        assert(unicode::ascii_lower(n[n.len() - 1]));
    } else {
        assert(c.last() == rest.last());
    }
    lemma_tight(c);
    lemma_command(n, rest, x);
    assert(ex::one_addr(c).0 is Nothing);
    let s = text::decimal(a) + seq![','] + text::decimal(b) + c;
    text::decimal_reads_back(a);
    assert(s[0] == text::decimal(a)[0]);
    assert(unicode::ascii_digit(s[0]));
    assert(s.last() == c.last());
    lemma_tight(s);
    spans_have_addresses(a, b, c);
    let p = seq!['%'] + c;
    assert(p[0] == '%');
    assert(p.last() == c.last());
    lemma_tight(p);
}

/// A global command is for the lines in which its pattern is found, with an exclamation
/// mark for those in which it is not; without lines before it, of all the lines.
pub proof fn global_commands_find_their_lines(
    d: char,
    p: Seq<char>,
    c: Seq<char>,
    lines: Option<SpanModel>,
    x: Expansion,
    v: VerbModel,
)
    requires
        delimits(d),
        d != '!',
        undelimited(p, d),
        ex::command(c, x) == Out::Found(v),
    ensures
        ({
            let of = match lines {
                Some(l) => l,
                None => SpanModel::LineRange(AddrModel::Number(1), AddrModel::Last),
            };
            let s = seq![d] + p + seq![d] + c;
            &&& ex::global_cmd(s, lines, x) == Out::Found((MotionModel::Global(of, p), v))
            &&& ex::global_cmd(seq!['!'] + s, lines, x) == Out::Found(
                (MotionModel::NotGlobal(of, p), v),
            )
        }),
{
    let s = seq![d] + p + seq![d] + c;
    assert(s[0] == d);
    assert(s.skip(1) =~= p.push(d) + c);
    ex::plain_patterns_are_read(p, d, c);
    assert((seq!['!'] + s).skip(1) =~= s);
    assert((seq!['!'] + s)[0] == '!');
    assert(text::trimmed_left(s) == s);
}

/// On the vi command line commands have the same names.
pub proof fn vi_commands_have_names(n: Seq<char>, s: Seq<char>, home: Option<Seq<char>>)
    ensures
        shortens(n, seq!['d', 'e', 'l', 'e', 't', 'e']) ==> viex::named_cmd(n, s, home)
            == Out::Found(VerbModel::Delete),
        shortens(n, seq!['y', 'a', 'n', 'k']) ==> viex::named_cmd(n, s, home) == Out::Found(
            VerbModel::Yank,
        ),
        shortens(n, seq!['p', 'u', 't']) ==> viex::named_cmd(n, s, home) == Out::Found(
            VerbModel::Put,
        ),
        shortens(n, seq!['s', 'u', 'b', 's', 't', 'i', 't', 'u', 't', 'e']) ==> viex::named_cmd(
            n,
            s,
            home,
        ) == ex::substitute_cmd(s),
        shortens(n, seq!['r', 'e', 'a', 'd']) && home is None ==> viex::named_cmd(n, s, home)
            == ex::read_cmd(s, Expansion::AsTyped),
        shortens(n, seq!['w', 'r', 'i', 't', 'e']) && home is None ==> viex::named_cmd(n, s, home)
            == ex::write_cmd(s, Expansion::AsTyped),
        n == seq!['!'] && !s.contains('\\') ==> viex::named_cmd(n, s, home) == Out::Found(
            VerbModel::Shell(s),
        ),
{
    lemma_words();
    if n.len() > 0 {
        lemma_others(n, n[0]);
    }
    if n == seq!['!'] && !s.contains('\\') {
        lemma_unescaped(s);
    }
}

/// On the vi command line, too, a global command is for the lines in which its pattern is
/// found, or with an exclamation mark for the others.
pub proof fn vi_global_commands_find_their_lines(
    d: char,
    p: Seq<char>,
    c: Seq<char>,
    home: Option<Seq<char>>,
    v: VerbModel,
)
    requires
        delimits(d),
        d != '!',
        undelimited(p, d),
        viex::command(c, home) == Out::Found(v),
    ensures
        ({
            let s = seq![d] + p + seq![d] + c;
            &&& viex::global_cmd(s, home) == Out::Found((viex::Lines::Found(p), v))
            &&& viex::global_cmd(seq!['!'] + s, home) == Out::Found((viex::Lines::NotFound(p), v))
        }),
{
    let s = seq![d] + p + seq![d] + c;
    assert(s[0] == d);
    assert(s.skip(1) =~= p.push(d) + c);
    ex::plain_patterns_are_read(p, d, c);
    assert((seq!['!'] + s).skip(1) =~= s);
    assert((seq!['!'] + s)[0] == '!');
    assert(text::trimmed_left(s) == s);
}

/// A tilde stands for the home directory, alone or before a slash; other paths stay.
pub proof fn a_tilde_is_the_home_directory(p: Seq<char>, home: Seq<char>)
    requires
        home.len() > 0,
        home.last() != '/',
    ensures
        viex::home_path(seq!['~'], Some(home)) == home,
        p.len() > 0 && p[0] != '/' ==> viex::home_path(seq!['~', '/'] + p, Some(home)) == home
            + seq!['/'] + p,
        p.len() > 0 && p[0] != '~' ==> viex::home_path(p, Some(home)) == p,
        viex::home_path(p, None) == p,
{
    let t = seq!['~', '/'] + p;
    assert(t.take(2) =~= seq!['~', '/']);
    assert(t.skip(2) =~= p);
    assert(home.push('/') + p =~= home + seq!['/'] + p);
    assert(!text::has_prefix(seq!['~'], seq!['~', '/']));
    if p.len() > 0 && p[0] != '~' {
        assert(p != seq!['~']);
        if text::has_prefix(p, seq!['~', '/']) {
            assert(p.take(2)[0] == p[0]);
        }
    }
}

/// Enter gives what was typed with the command that it is, tells of a text that is none, and
/// gives none for an empty one; Escape goes back to normal mode, and ^C clears.
pub proof fn command_lines_are_answered(
    a: ViEx,
    b: ViEx,
    key: KeyEvent,
    cmd: Option<EditCmd>,
    view: Viewport,
    levels: Seq<(usize, usize)>,
    x: Expansion,
    r: ExOut,
)
    requires
        ViEx::answers(a, b, key, cmd, view, levels, x, r),
    ensures
        ({
            let typed = lines::text_chars(a.pending_cmd.buf.text());
            let plain = key.1 == ModKeys::of(false, false, false);
            &&& plain && key.0 is Enter && ex::ex_input(typed, x) is Found ==> (r matches ExOut::Command(
                Some(c),
                input,
            ) && input@ == typed && ex::ex_input(typed, x) == Out::Found(ex::cmd_model(c)))
            &&& plain && key.0 is Enter && ex::ex_input(typed, x) is Nothing ==> (
            r matches ExOut::Command(None, input) && input@ == typed)
            &&& plain && key.0 is Enter && ex::ex_input(typed, x) is Bad ==> (r matches ExOut::Failed(
                why,
                input,
            ) && input@ == typed && why@ == "Not an editor command: "@ + typed)
            &&& plain && key.0 is Esc ==> (r matches ExOut::Leave(c) && c.verb == Some(
                VerbCmd(1, Verb::NormalMode),
            ))
            &&& key == KeyEvent(KeyCode::Char('C'), ModKeys::of(true, false, false)) ==> r is Clear
        }),
{
}

/// Up from the first row of a command line goes back in its history by the count, down from
/// the last goes on; in between, the cursor moves.
pub proof fn command_lines_have_a_history(c: EditCmd, b: LineBuf, n: usize)
    requires
        c.verb is None,
        b.text().len() > 0,
        b.text().len() <= usize::MAX,
    ensures
        c.motion == Some(MotionCmd(n, Motion::LineUp)) ==> (cmdline::grabs_history(c, b)
            <==> b.cursor.pos.row == 0),
        c.motion == Some(MotionCmd(n, Motion::LineDown)) ==> (cmdline::grabs_history(c, b)
            <==> b.cursor.pos.row == b.text().len() - 1),
        c.motion == Some(MotionCmd(n, Motion::LineUp)) ==> cmdline::history_offset(c) == -n,
        c.motion == Some(MotionCmd(n, Motion::LineDown)) ==> cmdline::history_offset(c) == n,
{
}

/// An empty line is no vi command, and a command that names no lines is for none.
pub proof fn vi_lines_are_read(s: Seq<char>, home: Option<Seq<char>>)
    requires
        text::trimmed(s) == s,
    ensures
        s.len() == 0 ==> viex::ex_cmd(s, home) is Nothing,
        s.len() > 0 && s[0] != 'g' ==> (viex::command(s, home) matches Out::Found(v)
            ==> (viex::ex_cmd(s, home) matches Out::Found(f) && f.0 is None && f.1 == v)),
        s.len() > 0 && s[0] != 'g' && viex::command(s, home) is Nothing ==> viex::ex_cmd(
            s,
            home,
        ) is Bad,
{
}

proof fn lemma_search_of(p: Seq<char>, d: char, rest: Seq<char>)
    requires
        delimits(d),
        undelimited(p, d),
    ensures
        ex::search_of(p + seq![d] + rest, d) == (p, rest),
    decreases p.len(),
{
    let s = p + seq![d] + rest;
    if p.len() == 0 {
        assert(s[0] == d);
        assert(s.skip(1) =~= rest);
    } else {
        let r = p.skip(1);
        assert(s[0] == p[0] && p[0] != d && p[0] != '\\');
        assert forall|i: int| 0 <= i < r.len() implies #[trigger] r[i] != d && r[i] != '\\' by {
            assert(r[i] == p[i + 1]);
        }
        lemma_search_of(r, d, rest);
        assert(s.skip(1) =~= r + seq![d] + rest);
        assert(seq![p[0]] + r =~= p);
    }
}

/// A pattern between slashes names the next line that it is found in, and between question
/// marks the one before; a letter behind a quote names the line of a mark.
pub proof fn patterns_name_lines(p: Seq<char>, rest: Seq<char>, m: char)
    ensures
        delimits('/') && undelimited(p, '/') ==> ex::one_addr(seq!['/'] + p + seq!['/'] + rest)
            == (Out::Found(AddrModel::Pattern(p)), rest),
        delimits('?') && undelimited(p, '?') ==> ex::one_addr(seq!['?'] + p + seq!['?'] + rest)
            == (Out::Found(AddrModel::PatternRev(p)), rest),
        unicode::ascii_lower(m) ==> ex::one_addr(seq!['\'', m] + rest) == (
            Out::Found(AddrModel::Mark(m)),
            rest,
        ),
        delimits('/') && delimits('?'),
{
    if undelimited(p, '/') {
        lemma_search_of(p, '/', rest);
    }
    if undelimited(p, '?') {
        lemma_search_of(p, '?', rest);
    }
    assert((seq!['/'] + p + seq!['/'] + rest).skip(1) =~= p + seq!['/'] + rest);
    assert((seq!['?'] + p + seq!['?'] + rest).skip(1) =~= p + seq!['?'] + rest);
    let s = seq!['\'', m] + rest;
    assert(s[0] == '\'');
    assert(s.skip(1)[0] == m);
    assert(s.skip(1).skip(1) =~= rest);
}

} // verus!
