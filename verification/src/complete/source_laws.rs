//! What is offered for what was typed.

use crate::complete::candidate;
use crate::complete::candidate::Candidate;
use crate::complete::sources::FileKind;
use crate::complete::sources;
use crate::complete::sources::DirItem;
use crate::complete::sources::JobInfo;
use crate::complete::sources::Named;
use crate::text;
use crate::unicode;
use vstd::prelude::*;

verus! {

/// Whether two characters are the same but for the case of an ASCII letter.
pub open spec fn same_letter(a: char, b: char) -> bool {
    ||| a == b
    ||| 'A' <= a <= 'Z' && b as u32 == a as u32 + 32
    ||| 'A' <= b <= 'Z' && a as u32 == b as u32 + 32
}

/// Where case matters a candidate matches where it goes on from what was typed. Where it
/// does not, of ASCII texts, the letters are the same but for their case.
pub proof fn matching_is_beginning(content: Seq<char>, start: Seq<char>, rest: Seq<char>)
    ensures
        candidate::matches_start(start + rest, start, false),
        candidate::matches_start(content, start, false) ==> content == start + content.skip(
            start.len() as int,
        ),
        vstd::utf8::is_ascii_chars(content) && vstd::utf8::is_ascii_chars(start) ==> (
        candidate::matches_start(content, start, true) <==> start.len() <= content.len() && forall|
            i: int,
        |
            0 <= i < start.len() ==> same_letter(#[trigger] content[i], start[i])),
{
    assert((start + rest).take(start.len() as int) =~= start);
    if candidate::matches_start(content, start, false) {
        assert(content =~= content.take(start.len() as int) + content.skip(start.len() as int));
    }
    if vstd::utf8::is_ascii_chars(content) && vstd::utf8::is_ascii_chars(start) {
        let lc = unicode::lowered(content);
        let ls = unicode::lowered(start);
        if candidate::matches_start(content, start, true) {
            assert forall|i: int| 0 <= i < start.len() implies same_letter(
                #[trigger] content[i],
                start[i],
            ) by {
                assert(lc.take(ls.len() as int)[i] == ls[i]);
            }
        }
        if start.len() <= content.len() && forall|i: int|
            0 <= i < start.len() ==> same_letter(#[trigger] content[i], start[i]) {
            assert forall|i: int| 0 <= i < ls.len() implies lc.take(ls.len() as int)[i]
                == ls[i] by {
                assert(same_letter(content[i], start[i]));
            }
            assert(lc.take(ls.len() as int) =~= ls);
        }
    }
}

/// What is kept is what matches: all of it, in its order, and nothing else.
pub proof fn what_matches_is_kept(s: Seq<Candidate>, start: Seq<char>, ignore_case: bool)
    ensures
        sources::kept(s, start, ignore_case) == s.filter(
            |c: Candidate| candidate::matches_start(c.content@, start, ignore_case),
        ),
    decreases s.len(),
{
    reveal(Seq::filter);
    if s.len() > 0 {
        what_matches_is_kept(s.drop_last(), start, ignore_case);
    }
}

/// The texts that match are kept, all of them, in their order, and no others.
pub proof fn texts_that_match_are_kept(s: Seq<Seq<char>>, start: Seq<char>, ignore_case: bool)
    ensures
        sources::kept_texts(s, start, ignore_case) == s.filter(
            |c: Seq<char>| candidate::matches_start(c, start, ignore_case),
        ),
    decreases s.len(),
{
    reveal(Seq::filter);
    if s.len() > 0 {
        texts_that_match_are_kept(s.drop_last(), start, ignore_case);
    }
}

/// The signals go by their names without `SIG`.
pub proof fn signals_have_short_names(s: Seq<char>)
    ensures
        sources::short_signal(seq!['S', 'I', 'G'] + s) == s,
        s.len() > 0 && s[0] != 'S' ==> sources::short_signal(s) == s,
{
    reveal_strlit("SIG");
    assert("SIG"@ =~= seq!['S', 'I', 'G']);
    assert((seq!['S', 'I', 'G'] + s).take(3) =~= seq!['S', 'I', 'G']);
    assert((seq!['S', 'I', 'G'] + s).skip(3) =~= s);
    if s.len() > 0 && s[0] != 'S' && text::has_prefix(s, "SIG"@) {
        assert(s.take(3)[0] == 'S');
    }
}

/// Of described names, such as aliases, those that match are offered, with their
/// descriptions.
pub proof fn named_ones_are_offered(s: Seq<Named>, start: Seq<char>, ignore_case: bool)
    ensures
        sources::kept_named(s, start, ignore_case) == s.filter(
            |n: Named| candidate::matches_start(n.name@, start, ignore_case),
        ).map_values(|n: Named| (n.name@, Some(n.about@))),
    decreases s.len(),
{
    reveal(Seq::filter);
    let f = |n: Named| candidate::matches_start(n.name@, start, ignore_case);
    let g = |n: Named| (n.name@, Some(n.about@));
    if s.len() > 0 {
        named_ones_are_offered(s.drop_last(), start, ignore_case);
        let d = s.drop_last().filter(f);
        assert(d.push(s.last()).map_values(g) =~= d.map_values(g).push(g(s.last())));
    } else {
        assert(s.filter(f).map_values(g) =~= Seq::empty());
    }
}

/// Behind a percent sign the jobs are offered by their names, else by their process
/// groups, with what they run.
pub proof fn jobs_are_offered(s: Seq<JobInfo>, start: Seq<char>, ignore_case: bool)
    ensures
        start.len() > 0 && start[0] == '%' ==> sources::kept_jobs(s, start, ignore_case)
            == s.filter(
            |j: JobInfo|
                j.name is Some && candidate::matches_start(
                    j.name->0@,
                    start.skip(1),
                    ignore_case,
                ),
        ).map_values(|j: JobInfo| (seq!['%'] + j.name->0@, None::<Seq<char>>)),
        !(start.len() > 0 && start[0] == '%') ==> sources::kept_jobs(s, start, ignore_case)
            == s.filter(
            |j: JobInfo| candidate::matches_start(j.pgid@, start, ignore_case),
        ).map_values(|j: JobInfo| (j.pgid@, Some(j.cmd_line@))),
    decreases s.len(),
{
    reveal(Seq::filter);
    let f1 = |j: JobInfo|
        j.name is Some && candidate::matches_start(j.name->0@, start.skip(1), ignore_case);
    let g1 = |j: JobInfo| (seq!['%'] + j.name->0@, None::<Seq<char>>);
    let f2 = |j: JobInfo| candidate::matches_start(j.pgid@, start, ignore_case);
    let g2 = |j: JobInfo| (j.pgid@, Some(j.cmd_line@));
    if s.len() > 0 {
        jobs_are_offered(s.drop_last(), start, ignore_case);
        let d1 = s.drop_last().filter(f1);
        let d2 = s.drop_last().filter(f2);
        assert(d1.push(s.last()).map_values(g1) =~= d1.map_values(g1).push(g1(s.last())));
        assert(d2.push(s.last()).map_values(g2) =~= d2.map_values(g2).push(g2(s.last())));
    } else {
        assert(s.filter(f1).map_values(g1) =~= Seq::empty());
        assert(s.filter(f2).map_values(g2) =~= Seq::empty());
    }
}

proof fn lemma_user(line: Seq<char>, k: int, i: int)
    requires
        0 <= i <= k <= line.len(),
        forall|j: int| 0 <= j < k ==> (#[trigger] line[j]) != ':',
        k < line.len() ==> line[k] == ':',
    ensures
        sources::user_of(line, i) == line.take(k),
    decreases k - i,
{
    if i < k {
        lemma_user(line, k, i + 1);
    } else if k == line.len() {
        assert(line.take(k) =~= line);
    }
}

/// A line of the user list names the user before its first colon.
pub proof fn users_stand_before_the_colon(name: Seq<char>, rest: Seq<char>)
    requires
        !name.contains(':'),
    ensures
        sources::user_of(name + seq![':'] + rest, 0) == name,
        sources::user_of(name, 0) == name,
{
    let line = name + seq![':'] + rest;
    assert forall|j: int| 0 <= j < name.len() implies (#[trigger] line[j]) != ':' by {
        assert(line[j] == name[j]);
        assert(name.contains(name[j]));
    }
    assert forall|j: int| 0 <= j < name.len() implies (#[trigger] name[j]) != ':' by {
        assert(name.contains(name[j]));
    }
    lemma_user(line, name.len() as int, 0);
    lemma_user(name, name.len() as int, 0);
    assert(line.take(name.len() as int) =~= name);
    assert(name.take(name.len() as int) =~= name);
}

/// The users whose names match are offered.
pub proof fn users_are_offered(rows: Seq<String>, start: Seq<char>, ignore_case: bool)
    ensures
        sources::kept_users(rows, start, ignore_case) == rows.map_values(
            |r: String| sources::user_of(r@, 0),
        ).filter(|u: Seq<char>| candidate::matches_start(u, start, ignore_case)),
    decreases rows.len(),
{
    reveal(Seq::filter);
    let g = |r: String| sources::user_of(r@, 0);
    if rows.len() > 0 {
        users_are_offered(rows.drop_last(), start, ignore_case);
        assert(rows.map_values(g).drop_last() =~= rows.drop_last().map_values(g));
        assert(rows.map_values(g).last() == g(rows.last()));
    } else {
        assert(rows.map_values(g) =~= Seq::empty());
    }
}

/// Whether a character can stand in the name of a variable.
pub open spec fn in_name(c: char) -> bool {
    unicode::alphanumeric(c) || c == '_'
}

/// Whether a text holds nothing that begins a substitution.
pub open spec fn unsubstituted(s: Seq<char>) -> bool {
    forall|i: int| 0 <= i < s.len() ==> (#[trigger] s[i]) != '$' && s[i] != '{'
}

proof fn lemma_var_before(s: Seq<char>, i: int, k: int, from: int)
    requires
        0 <= i <= k <= s.len(),
        forall|j: int| i <= j < k ==> (#[trigger] s[j]) != '$' && s[j] != '{',
    ensures
        sources::var_from(s, i, false, Seq::empty(), from) == sources::var_from(
            s,
            k,
            false,
            Seq::empty(),
            from,
        ),
    decreases k - i,
{
    if i < k {
        lemma_var_before(s, i + 1, k, from);
    }
}

proof fn lemma_var_read(s: Seq<char>, i: int, name: Seq<char>, from: int, k: int)
    requires
        0 <= i <= k <= s.len(),
        forall|j: int| i <= j < k ==> in_name(#[trigger] s[j]) && s[j] != '$',
        k < s.len() ==> !in_name(s[k]) && s[k] != '$',
    ensures
        sources::var_from(s, i, true, name, from) == Some((name + s.subrange(i, k), from, k)),
    decreases k - i,
{
    if i < k {
        lemma_var_read(s, i + 1, name.push(s[i]), from, k);
        assert(name.push(s[i]) + s.subrange(i + 1, k) =~= name + s.subrange(i, k));
    } else {
        assert(name + s.subrange(i, k) =~= name);
    }
}

/// The name behind a dollar sign, or behind one and a brace, is the one to complete. It
/// goes as far as characters do that names are made of.
pub proof fn names_are_read(before: Seq<char>, name: Seq<char>, rest: Seq<char>)
    requires
        unsubstituted(before),
        forall|i: int| 0 <= i < name.len() ==> in_name(#[trigger] name[i]) && name[i] != '$'
            && name[i] != '{',
        rest.len() > 0 ==> !in_name(rest[0]) && rest[0] != '$' && rest[0] != '{',
    ensures
        ({
            let s = before + seq!['$'] + name + rest;
            let b = before + seq!['$', '{'] + name + rest;
            let at = before.len() as int;
            &&& sources::var_from(s, 0, false, Seq::empty(), 0) == Some(
                (name, at + 1, at + 1 + name.len()),
            )
            &&& sources::var_from(b, 0, false, Seq::empty(), 0) == Some(
                (name, at + 2, at + 2 + name.len()),
            )
        }),
        sources::var_from(before, 0, false, Seq::empty(), 0) is None,
{
    let at = before.len() as int;
    let n = name.len() as int;
    let s = before + seq!['$'] + name + rest;
    let b = before + seq!['$', '{'] + name + rest;
    assert forall|j: int| 0 <= j < at implies (#[trigger] s[j]) != '$' && s[j] != '{' by {
        assert(s[j] == before[j]);
    }
    assert forall|j: int| 0 <= j < at implies (#[trigger] b[j]) != '$' && b[j] != '{' by {
        assert(b[j] == before[j]);
    }
    lemma_var_before(s, 0, at, 0);
    lemma_var_before(b, 0, at, 0);
    lemma_var_before(before, 0, at, 0);
    assert(s[at] == '$');
    assert(b[at] == '$' && b[at + 1] == '{');
    assert forall|j: int| at + 1 <= j < at + 1 + n implies in_name(#[trigger] s[j]) && s[j]
        != '$' by {
        assert(s[j] == name[j - at - 1]);
    }
    assert forall|j: int| at + 2 <= j < at + 2 + n implies in_name(#[trigger] b[j]) && b[j]
        != '$' by {
        assert(b[j] == name[j - at - 2]);
    }
    if at + 1 + n < s.len() {
        assert(s[at + 1 + n] == rest[0]);
    }
    if at + 2 + n < b.len() {
        assert(b[at + 2 + n] == rest[0]);
    }
    if at + 1 < s.len() {
        assert(n > 0 ==> s[at + 1] == name[0]);
        assert(n == 0 ==> s[at + 1] == rest[0]);
        assert(s[at + 1] != '{');
    }
    lemma_var_read(s, at + 1, Seq::empty(), at + 1, at + 1 + n);
    assert(Seq::<char>::empty() + s.subrange(at + 1, at + 1 + n) =~= name);
    lemma_var_read(b, at + 2, Seq::empty(), at + 2, at + 2 + n);
    assert(Seq::<char>::empty() + b.subrange(at + 2, at + 2 + n) =~= name);
    reveal_with_fuel(sources::var_from, 3);
}

/// The variables whose names go on from a name are offered, each behind what stood before
/// the name.
pub proof fn variables_are_offered(all: Seq<Named>, n: int, sign: Seq<char>, name: Seq<char>)
    requires
        0 <= n <= all.len(),
    ensures
        ({
            let r = sources::kept_vars(all, n, sign, name);
            let k = all.take(n).filter(
                |v: Named| candidate::matches_start(v.name@, name, false) && v.name@.len()
                    > name.len(),
            );
            &&& r.len() == k.len()
            &&& forall|i: int| 0 <= i < r.len() ==> (#[trigger] r[i]).0 == sign + k[i].name@
        }),
    decreases n,
{
    reveal(Seq::filter);
    let f = |v: Named| candidate::matches_start(v.name@, name, false) && v.name@.len()
        > name.len();
    let t = all.take(n);
    if n > 0 {
        variables_are_offered(all, n - 1, sign, name);
        assert(t.drop_last() =~= all.take(n - 1));
        assert(t.last() == all[n - 1]);
        let v = all[n - 1].name@;
        if text::has_prefix(v, name) && v.len() <= name.len() {
            assert(v =~= name);
        }
    }
}

/// The value of a variable is that of the first of its name.
pub proof fn values_are_found(vars: Seq<Named>, name: Seq<char>, i: int)
    requires
        0 <= i < vars.len(),
        vars[i].name@ == name,
        forall|j: int| 0 <= j < i ==> (#[trigger] vars[j]).name@ != name,
    ensures
        sources::value_of(vars, name) == Some(vars[i].about@),
    decreases i,
{
    if i > 0 {
        assert(vars[0].name@ != name);
        let r = vars.skip(1);
        assert(r[i - 1] == vars[i]);
        assert forall|j: int| 0 <= j < i - 1 implies (#[trigger] r[j]).name@ != name by {
            assert(r[j] == vars[j + 1]);
        }
        values_are_found(r, name, i - 1);
    }
}

/// Whether a typed path is made up of what stands before the last name in it, and of that
/// name, as far as it was typed. `dir` is the directory that is looked into.
pub open spec fn typed_as(start: Seq<char>, before: Seq<char>, dir: Seq<char>, name: Seq<char>) -> bool {
    &&& start == before + name
    &&& ({
        ||| before.len() == 0 && dir == seq!['.'] && (name.len() > 0 ==> sources::parent_of(start)
            == Some(Seq::<char>::empty()))
        ||| before.len() > 0 && name.len() == 0 && dir == before && before.last() == '/'
        ||| (before == dir.push('/') && dir.last() != '/' || before == dir && dir.last() == '/')
            && dir.len() > 0 && name.len() > 0 && name.last() != '/' && sources::parent_of(start) == Some(dir) && sources::name_of(
            start,
        ) == Some(name)
    })
}

/// Whether a name can be that of an entry of a directory.
pub open spec fn entry_name(name: Seq<char>) -> bool {
    name.len() > 0 && name != seq!['.'] && forall|i: int|
        0 <= i < name.len() ==> (#[trigger] name[i]) != '/'
}

/// Whether an entry is to be offered: it begins with what was typed of a name, it does not
/// begin with a dot unless one was typed, and it is a directory where one is asked for.
pub open spec fn sought(it: DirItem, name: Seq<char>, dirs_only: bool, ignore_case: bool) -> bool {
    &&& candidate::matches_start(it.name@, name, ignore_case)
    &&& it.name@.len() > 0 && it.name@[0] == '.' ==> name.len() > 0 && name[0] == '.'
    &&& dirs_only ==> it.leads_to_dir
}

/// What completes a typed path to an entry: all that stood before the name, then the name
/// of the entry, and a slash behind a directory.
pub open spec fn completed(before: Seq<char>, it: DirItem) -> Seq<char> {
    before + it.name@ + if it.is_dir {
        seq!['/']
    } else {
        Seq::empty()
    }
}

proof fn lemma_completed(start: Seq<char>, before: Seq<char>, dir: Seq<char>, name: Seq<char>, it: DirItem)
    requires
        typed_as(start, before, dir, name),
        entry_name(it.name@),
        before.len() == 0 ==> !name.contains('/'),
    ensures
        sources::dir_and_start(start) == (dir, name),
        sources::entry_text(dir, it.name@, it.is_dir, text::has_prefix(start, "./"@)) == completed(
            before,
            it,
        ),
{
    reveal_strlit("./");
    reveal_strlit(".");
    let dot = "./"@;
    assert(dot =~= seq!['.', '/']);
    assert("."@ =~= seq!['.']);
    let n = it.name@;
    let end = if it.is_dir {
        seq!['/']
    } else {
        Seq::<char>::empty()
    };
    let p = sources::entry_path(dir, n, it.is_dir);
    if before.len() == 0 {
        assert(start =~= name);
        let q = n + end;
        assert(p =~= seq!['.', '/'] + q);
        assert(p.skip(2) =~= q);
        assert(completed(before, it) =~= q);
        if q.len() >= 2 && q[0] == '.' && q[1] == '/' {
            if n.len() >= 2 {
                assert(n[1] == q[1]);
            } else {
                assert(n =~= seq!['.']);
            }
        }
        reveal_with_fuel(sources::without_dot_slash, 2);
        if start.len() > 0 {
            assert(name.contains(name.last()));
        }
        if start.len() >= 2 {
            assert(name.contains(name[1]));
            assert(text::has_prefix(start, dot) ==> start.take(2)[1] == start[1]);
        }
    } else {
        assert(p =~= before + n + end);
        assert(completed(before, it) =~= p);
        if p.len() >= 2 && p[0] == '.' && p[1] == '/' {
            if before.len() >= 2 {
                assert(before[0] == '.' && before[1] == '/');
                assert(start.take(2) =~= dot);
            } else {
                assert(before[0] == before.last());
            }
        }
        if name.len() == 0 {
            assert(start =~= before);
        } else {
            assert(start.last() == name.last());
        }
    }
}

/// The entries of a directory that go on from a typed path are offered, all of them and no
/// others, and each as the typed path is written: where `./` was typed it stays, and
/// where it was not it does not come in.
pub proof fn typed_paths_are_completed(
    items: Seq<DirItem>,
    n: int,
    start: Seq<char>,
    before: Seq<char>,
    dir: Seq<char>,
    name: Seq<char>,
    dirs_only: bool,
    ignore_case: bool,
)
    requires
        0 <= n <= items.len(),
        typed_as(start, before, dir, name),
        before.len() == 0 ==> !name.contains('/'),
        forall|i: int| 0 <= i < items.len() ==> entry_name((#[trigger] items[i]).name@),
    ensures
        sources::entries_offered(items, n, start, dirs_only, ignore_case) == items.take(n).filter(
            |it: DirItem| sought(it, name, dirs_only, ignore_case),
        ).map_values(|it: DirItem| (completed(before, it), Some(it.desc@))),
    decreases n,
{
    reveal(Seq::filter);
    let f = |it: DirItem| sought(it, name, dirs_only, ignore_case);
    let g = |it: DirItem| (completed(before, it), Some(it.desc@));
    let t = items.take(n);
    if n > 0 {
        typed_paths_are_completed(items, n - 1, start, before, dir, name, dirs_only, ignore_case);
        assert(t.drop_last() =~= items.take(n - 1));
        assert(t.last() == items[n - 1]);
        let d = t.drop_last().filter(f);
        assert(d.push(t.last()).map_values(g) =~= d.map_values(g).push(g(t.last())));
        lemma_completed(start, before, dir, name, items[n - 1]);
    } else {
        assert(t.filter(f).map_values(g) =~= Seq::empty());
    }
}

/// Where case matters, everything that is offered for a typed path begins with it.
pub proof fn candidates_begin_with_the_typed_path(
    items: Seq<DirItem>,
    start: Seq<char>,
    before: Seq<char>,
    dir: Seq<char>,
    name: Seq<char>,
    dirs_only: bool,
    i: int,
)
    requires
        typed_as(start, before, dir, name),
        before.len() == 0 ==> !name.contains('/'),
        forall|i: int| 0 <= i < items.len() ==> entry_name((#[trigger] items[i]).name@),
        0 <= i < sources::entries_offered(items, items.len() as int, start, dirs_only, false).len(),
    ensures
        ({
            let c = sources::entries_offered(
                items,
                items.len() as int,
                start,
                dirs_only,
                false,
            )[i].0;
            start.len() <= c.len() && c.take(start.len() as int) == start
        }),
{
    typed_paths_are_completed(
        items,
        items.len() as int,
        start,
        before,
        dir,
        name,
        dirs_only,
        false,
    );
    let f = |it: DirItem| sought(it, name, dirs_only, false);
    assert(items.take(items.len() as int) =~= items);
    let k = items.filter(f);
    broadcast use vstd::seq_lib::group_filter_ensures;

    let it = k[i];
    assert(f(it));
    let c = completed(before, it);
    assert(it.name@.take(name.len() as int) == name);
    assert(c.take(start.len() as int) =~= before + it.name@.take(name.len() as int));
}

/// In a substitution the variables are offered that go on from its name, each behind what
/// stands before the name; where the name is that of a variable with a value there is
/// nothing to offer.
pub proof fn substitutions_are_completed(vars: Seq<Named>, before: Seq<char>, name: Seq<char>)
    requires
        unsubstituted(before),
        forall|i: int| 0 <= i < name.len() ==> in_name(#[trigger] name[i]) && name[i] != '$'
            && name[i] != '{',
    ensures
        ({
            let s = before + seq!['$'] + name;
            let b = before + seq!['$', '{'] + name;
            &&& sources::has_value(vars, name) ==> sources::vars_for(vars, s).len() == 0
            &&& !sources::has_value(vars, name) ==> sources::vars_for(vars, s)
                == sources::kept_vars(vars, vars.len() as int, before + seq!['$'], name)
            &&& !sources::has_value(vars, name) ==> sources::vars_for(vars, b)
                == sources::kept_vars(vars, vars.len() as int, before + seq!['$', '{'], name)
        }),
        sources::vars_for(vars, before).len() == 0,
{
    let e = Seq::<char>::empty();
    names_are_read(before, name, e);
    let s = before + seq!['$'] + name;
    let b = before + seq!['$', '{'] + name;
    assert(s + e =~= s);
    assert(b + e =~= b);
    assert(s.take(before.len() as int + 1) =~= before + seq!['$']);
    assert(b.take(before.len() as int + 2) =~= before + seq!['$', '{']);
}

/// A variable has a value where the first of its name has one that is not empty.
pub proof fn values_are_not_empty(vars: Seq<Named>, name: Seq<char>, i: int)
    requires
        0 <= i < vars.len(),
        vars[i].name@ == name,
        forall|j: int| 0 <= j < i ==> (#[trigger] vars[j]).name@ != name,
    ensures
        sources::has_value(vars, name) <==> vars[i].about@.len() > 0,
{
    values_are_found(vars, name, i);
}

/// The kind of an entry is told by the first that holds of it: a directory, a link, what
/// can be executed, a file.
pub proof fn kinds_are_told(k: FileKind)
    ensures
        k.is_dir ==> sources::kind_word(k) == seq!['d', 'i', 'r'],
        !k.is_dir && k.is_link ==> sources::kind_word(k) == seq!['l', 'i', 'n', 'k'],
        !k.is_dir && !k.is_link && k.executable ==> sources::kind_word(k) == seq![
            'e',
            'x',
            'e',
            'c',
        ],
        !k.is_dir && !k.is_link && !k.executable && k.is_file ==> sources::kind_word(k) == seq![
            'f',
            'i',
            'l',
            'e',
        ],
{
    reveal_strlit("dir");
    reveal_strlit("link");
    reveal_strlit("exec");
    reveal_strlit("file");
    assert("dir"@ =~= seq!['d', 'i', 'r']);
    assert("link"@ =~= seq!['l', 'i', 'n', 'k']);
    assert("exec"@ =~= seq!['e', 'x', 'e', 'c']);
    assert("file"@ =~= seq!['f', 'i', 'l', 'e']);
}

/// A text is filled up to a width with spaces, behind it or before it; a longer one stays.
pub proof fn texts_are_filled_up(s: Seq<char>, n: nat)
    ensures
        sources::padded_right(s, n).len() == (if s.len() >= n {
            s.len()
        } else {
            n
        }),
        sources::padded_left(s, n).len() == sources::padded_right(s, n).len(),
        sources::padded_right(s, n).take(s.len() as int) == s,
        sources::padded_left(s, n).skip(sources::padded_left(s, n).len() - s.len()) == s,
        forall|i: int|
            s.len() <= i < sources::padded_right(s, n).len() ==> (#[trigger] sources::padded_right(
                s,
                n,
            )[i]) == ' ',
        forall|i: int|
            0 <= i < sources::padded_left(s, n).len() - s.len() ==> (
            #[trigger] sources::padded_left(s, n)[i]) == ' ',
{
    let r = sources::padded_right(s, n);
    let l = sources::padded_left(s, n);
    assert(r.take(s.len() as int) =~= s);
    assert(l.skip(l.len() - s.len()) =~= s);
}

/// Of candidates those that are directories are kept, in their order.
pub proof fn directories_are_kept(s: Seq<Candidate>, is_dir: Seq<bool>, n: int)
    requires
        0 <= n < s.len(),
        s.len() == is_dir.len(),
    ensures
        sources::dirs_among(s, is_dir, 0).len() == 0,
        is_dir[n] ==> sources::dirs_among(s, is_dir, n + 1) == sources::dirs_among(
            s,
            is_dir,
            n,
        ).push(s[n]),
        !is_dir[n] ==> sources::dirs_among(s, is_dir, n + 1) == sources::dirs_among(s, is_dir, n),
{
}

} // verus!
