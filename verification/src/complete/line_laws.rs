//! What is completed in a line, and what comes of it.

use crate::complete::align;
use crate::complete::candidate::CompResult;
use crate::complete::candidate;
use crate::complete::candidate::Candidate;
use crate::complete::clamped;
use crate::complete::clamped::ClampedUsize;
use crate::complete::simple::CompContext;
use crate::complete::compspec::FoundKinds;
use crate::complete::compspec;
use crate::complete::compspec::BashCompSpec;
use crate::complete::escape;
use crate::complete::fuzzy;
use crate::complete::score;
use crate::complete::score::ScoredCandidate;
use crate::complete::simple::SimpleCompleter;
use crate::complete::simple::Subtoken;
use crate::complete::simple;
use crate::complete::strat;
use crate::complete::strat::Strat;
use crate::context::CtxTk;
use crate::context::CtxTkRule;
use crate::context::Span;
use crate::markers;
use crate::text;
use crate::unicode;
use vstd::prelude::*;

verus! {

proof fn lemma_after_slash(dir: Seq<char>, name: Seq<char>, n: int)
    requires
        dir.len() > 0,
        dir.last() == '/',
        !name.contains('/'),
        dir.len() <= n <= dir.len() + name.len(),
    ensures
        simple::after_slash(dir + name, n) == name,
    decreases n,
{
    let s = dir + name;
    if n > dir.len() {
        assert(s[n - 1] == name[n - 1 - dir.len()]);
        assert(name.contains(name[n - 1 - dir.len()]));
        lemma_after_slash(dir, name, n - 1);
    } else {
        assert(s[n - 1] == dir.last());
        assert(s.skip(n) =~= name);
    }
}

proof fn lemma_no_slash(name: Seq<char>, n: int)
    requires
        !name.contains('/'),
        0 <= n <= name.len(),
    ensures
        simple::after_slash(name, n) == name,
    decreases n,
{
    if n > 0 {
        assert(name.contains(name[n - 1]));
        lemma_no_slash(name, n - 1);
    }
}

/// The last part of a path is what stands behind the last slash; a slash that ends the
/// path stays with it.
pub proof fn paths_have_a_last_part(dir: Seq<char>, name: Seq<char>)
    requires
        dir.len() > 0 ==> dir.last() == '/',
        name.len() > 0,
        !name.contains('/'),
    ensures
        simple::base_name(dir + name) == name,
        simple::base_name((dir + name).push('/')) == name.push('/'),
{
    let s = dir + name;
    assert(s.last() == name.last());
    assert(name.contains(name.last()));
    assert(simple::without_slashes(s) == s);
    assert(s.push('/').drop_last() =~= s);
    reveal_with_fuel(simple::without_slashes, 2);
    if dir.len() > 0 {
        lemma_after_slash(dir, name, s.len() as int);
    } else {
        assert(s =~= name);
        lemma_no_slash(name, name.len() as int);
    }
}

proof fn lemma_cut(a: Seq<char>, b: Seq<char>)
    ensures
        text::up_to_byte(a + b, text::byte_len(a) as int) == a,
        text::from_byte(a + b, text::byte_len(a) as int) == b,
{
    let s = a + b;
    assert(s.take(a.len() as int) =~= a);
    text::lemma_fitting_reach(s, a.len() as int, 0);
    assert(s.skip(a.len() as int) =~= b);
}

/// A candidate takes the place of what was typed, and the rest of the line stays: where
/// case does not matter all of it, where it does what was typed stays before the rest of
/// the candidate. It is escaped where that is asked for.
pub proof fn candidates_take_the_place_of_what_was_typed(
    before: Seq<char>,
    typed: Seq<char>,
    after: Seq<char>,
    rest: Seq<char>,
    selected: Seq<char>,
)
    requires
        text::byte_len(before + typed) <= usize::MAX,
        unicode::str_columns(typed) == text::byte_len(typed),
    ensures
        ({
            let line = before + typed + after;
            let span = (
                text::byte_len(before) as usize,
                text::byte_len(before + typed) as usize,
            );
            &&& simple::completed(line, span, None, false, selected, true) == before + selected
                + after
            &&& simple::completed(line, span, None, true, selected, true) == before
                + escape::escaped(selected) + after
            &&& simple::completed(line, span, None, false, typed + rest, false) == before + typed
                + rest + after
            &&& simple::completed(line, span, None, true, typed + rest, false) == before + typed
                + escape::escaped(rest) + after
        }),
{
    let line = before + typed + after;
    text::lemma_byte_len_add(before, typed);
    assert(line =~= before + (typed + after));
    lemma_cut(before, typed + after);
    lemma_cut(before + typed, after);
    let bt = before + typed;
    let a = text::byte_len(before) as int;
    let b = text::byte_len(bt) as int;
    assert(text::up_to_byte(line, b) == bt);
    assert(text::up_to_byte(line, a) == before);
    lemma_cut(before, typed);
    assert(text::byte_slice(line, a, b) == typed);
    assert((typed + rest).take(typed.len() as int) =~= typed);
    assert((typed + rest).skip(typed.len() as int) =~= rest);
    assert(before + typed + rest + after =~= bt + rest + after);
    assert(before + typed + escape::escaped(rest) + after =~= bt + escape::escaped(rest) + after);
}

/// A space comes behind a candidate where one is put, but not behind a directory, behind
/// an option that takes a value, or behind a space.
pub proof fn spaces_follow_candidates(c: Candidate, d: Candidate, s: Seq<char>, l: char)
    requires
        c.content@ == s.push(l),
        s.len() > 0 ==> s.last() != '\\',
        simple::given(c, d, true),
    ensures
        l != '/' && l != '=' && l != ' ' ==> d.content@ == c.content@.push(' '),
        l == '/' || l == '=' || l == ' ' ==> d == c,
{
    let t = c.content@;
    assert(t.last() == l);
    if s.len() > 0 {
        assert(t[t.len() - 2] == s.last());
    }
    assert(escape::backslashes(t, t.len() - 1) == 0);
}

/// Without a space to be put, a candidate is given as it is.
pub proof fn candidates_are_given_as_they_are(c: Candidate, d: Candidate)
    requires
        simple::given(c, d, false),
    ensures
        d == c,
{
}

/// The selection goes on by one and back by one, from the last to the first and from the
/// first to the last.
pub proof fn the_selection_goes_round(i: int, n: int)
    requires
        0 <= i < n,
    ensures
        simple::cycled(i, 1, n) == (if i + 1 < n {
            i + 1
        } else {
            0
        }),
        simple::cycled(i, -1, n) == (if i > 0 {
            i - 1
        } else {
            n - 1
        }),
{
    if i + 1 < n {
        vstd::arithmetic::div_mod::lemma_small_mod((i + 1) as nat, n as nat);
    } else {
        vstd::arithmetic::div_mod::lemma_mod_self_0(n);
    }
    if i > 0 {
        vstd::arithmetic::div_mod::lemma_small_mod((i - 1) as nat, n as nat);
    } else {
        vstd::arithmetic::div_mod::lemma_mod_add_multiples_vanish(-1, n);
        vstd::arithmetic::div_mod::lemma_small_mod((n - 1) as nat, n as nat);
    }
}

proof fn lemma_one_segment(tks: Seq<CtxTk>, from: int, n: int)
    requires
        0 <= from < n <= tks.len(),
        forall|i: int|
            from <= i < n ==> (#[trigger] tks[i]).class != CtxTkRule::Operator && tks[i].class
                != CtxTkRule::Separator,
        from > 0 ==> ({
            ||| tks[from - 1].class == CtxTkRule::Operator
            ||| tks[from - 1].class == CtxTkRule::Separator
        }),
    ensures
        simple::segments(tks, n) == simple::segments(tks, from).push((from, n)),
    decreases n - from,
{
    lemma_segment_bound(tks, from);
    if n - 1 > from {
        lemma_one_segment(tks, from, n - 1);
        let s = simple::segments(tks, from);
        assert(s.push((from, n - 1)).drop_last() =~= s);
    } else if from > 0 {
        lemma_segment_bound(tks, from - 1);
    }
}

proof fn lemma_segment_bound(tks: Seq<CtxTk>, n: int)
    requires
        0 <= n <= tks.len(),
    ensures
        simple::segments(tks, n).len() > 0 ==> simple::segments(tks, n).last().1 <= n,
    decreases n,
{
    if n > 0 {
        lemma_segment_bound(tks, n - 1);
    }
}

proof fn lemma_word_under(tks: Seq<CtxTk>, at: usize, i: int, k: int, end: int)
    requires
        0 <= i <= k < end <= tks.len(),
        tks[k].span.start <= at <= tks[k].span.end,
        forall|j: int|
            i <= j < k ==> !((#[trigger] tks[j]).span.start <= at <= tks[j].span.end),
    ensures
        simple::word_under(tks, at, i, end) == Some(k),
    decreases k - i,
{
    if i < k {
        lemma_word_under(tks, at, i + 1, k, end);
    }
}

/// The words of a line that is one command are the texts of its tokens, and the word of
/// the cursor is the first that it is on.
pub proof fn words_are_those_of_the_command(tks: Seq<CtxTk>, at: usize, k: int)
    requires
        0 <= k < tks.len(),
        forall|i: int|
            0 <= i < tks.len() ==> (#[trigger] tks[i]).class != CtxTkRule::Operator && tks[i].class
                != CtxTkRule::Separator,
        tks[k].span.start <= at <= tks[k].span.end,
        forall|j: int|
            0 <= j < k ==> !((#[trigger] tks[j]).span.start <= at <= tks[j].span.end),
    ensures
        simple::words_at(tks, at).0 == Seq::new(tks.len(), |i: int| tks[i].text@),
        simple::words_at(tks, at).1 == k,
{
    let n = tks.len() as int;
    lemma_one_segment(tks, 0, n);
    let s = simple::segments(tks, n);
    assert(s =~= seq![(0int, n)]);
    reveal_with_fuel(simple::segment_at, 2);
    lemma_word_under(tks, at, 0, k, n);
    assert(simple::token_texts(tks, 0, n) =~= Seq::new(tks.len(), |i: int| tks[i].text@));
}

/// Behind an operator the words are those of the second command, where the cursor is on
/// one of them.
pub proof fn operators_part_commands(a: Seq<CtxTk>, op: CtxTk, b: Seq<CtxTk>, at: usize, k: int)
    requires
        a.len() > 0,
        0 <= k < b.len(),
        op.class == CtxTkRule::Operator || op.class == CtxTkRule::Separator,
        forall|i: int|
            0 <= i < a.len() ==> (#[trigger] a[i]).class != CtxTkRule::Operator && a[i].class
                != CtxTkRule::Separator,
        forall|i: int|
            0 <= i < b.len() ==> (#[trigger] b[i]).class != CtxTkRule::Operator && b[i].class
                != CtxTkRule::Separator,
        a[0].span.start <= at,
        b[0].span.start <= at,
        b[k].span.start <= at <= b[k].span.end,
        forall|j: int| 0 <= j < k ==> !((#[trigger] b[j]).span.start <= at <= b[j].span.end),
    ensures
        ({
            let tks = a.push(op) + b;
            &&& simple::words_at(tks, at).0 == Seq::new(b.len(), |i: int| b[i].text@)
            &&& simple::words_at(tks, at).1 == k
        }),
{
    let tks = a.push(op) + b;
    let m = a.len() as int;
    let n = tks.len() as int;
    assert forall|i: int| 0 <= i < m implies (#[trigger] tks[i]).class != CtxTkRule::Operator
        && tks[i].class != CtxTkRule::Separator by {
        assert(tks[i] == a[i]);
    }
    assert forall|i: int| m + 1 <= i < n implies (#[trigger] tks[i]).class
        != CtxTkRule::Operator && tks[i].class != CtxTkRule::Separator by {
        assert(tks[i] == b[i - m - 1]);
    }
    assert(tks[m] == op);
    lemma_one_segment(tks, 0, m);
    lemma_one_segment(tks, m + 1, n);
    assert(simple::segments(tks, 0) =~= Seq::<(int, int)>::empty());
    let s = simple::segments(tks, n);
    assert(s =~= seq![(0int, m), (m + 1, n)]);
    assert(tks[0] == a[0]);
    assert(tks[m + 1] == b[0]);
    reveal_with_fuel(simple::segment_at, 3);
    assert(simple::segment_at(s, tks, at, 0) == 1);
    assert(tks[m + 1 + k] == b[k]);
    assert forall|j: int| m + 1 <= j < m + 1 + k implies !((#[trigger] tks[j]).span.start <= at
        <= tks[j].span.end) by {
        assert(tks[j] == b[j - m - 1]);
    }
    lemma_word_under(tks, at, m + 1, m + 1 + k, n);
    assert(simple::token_texts(tks, m + 1, n) =~= Seq::new(b.len(), |i: int| b[i].text@));
}

proof fn lemma_first_reaching(tks: Seq<CtxTk>, at: usize, i: int, k: int)
    requires
        0 <= i <= k < tks.len(),
        tks[k].span.start <= at <= tks[k].span.end,
        forall|j: int|
            i <= j < k ==> !((#[trigger] tks[j]).span.start <= at <= tks[j].span.end),
    ensures
        strat::first_reaching(tks, at, i) == Some(k),
    decreases k - i,
{
    if i < k {
        lemma_first_reaching(tks, at, i + 1, k);
    }
}

proof fn lemma_none_reaching(tks: Seq<CtxTk>, at: usize, i: int)
    requires
        0 <= i <= tks.len(),
        forall|j: int|
            0 <= j < tks.len() ==> !((#[trigger] tks[j]).span.start <= at <= tks[j].span.end),
    ensures
        strat::first_reaching(tks, at, i) is None,
    decreases tks.len() - i,
{
    if i < tks.len() {
        lemma_none_reaching(tks, at, i + 1);
    }
}

/// In a command its name is completed, as far as it is typed; in a variable its name; in a
/// tilde a user. `s` is what stands before the cursor.
pub proof fn words_are_completed_by_their_kind(tks: Seq<CtxTk>, at: usize, k: int, s: Seq<char>, rest: Seq<char>)
    requires
        0 <= k < tks.len(),
        tks[k].sub_tokens@.len() == 0,
        tks[k].span.start <= at <= tks[k].span.end,
        forall|j: int|
            0 <= j < k ==> !((#[trigger] tks[j]).span.start <= at <= tks[j].span.end),
        tks[k].text@ == s + rest,
        at - tks[k].span.start == text::byte_len(s),
    ensures
        ({
            let (r, span) = strat::resolved(tks, at);
            let c = tks[k].class;
            &&& c == CtxTkRule::ValidCommand || c == CtxTkRule::InvalidCommand || c
                == CtxTkRule::Keyword ==> r == Strat::Command(s) && span == tks[k].span
            &&& c == CtxTkRule::VarSub || c == CtxTkRule::ParamName ==> r == Strat::Var(s) && span
                == tks[k].span
            &&& c == CtxTkRule::Tilde ==> r == Strat::Tilde(s) && span == tks[k].span
            &&& c == CtxTkRule::Redirect ==> r == Strat::Files(s, None) && span == tks[k].span
        }),
{
    lemma_first_reaching(tks, at, 0, k);
    lemma_cut(s, rest);
    let none = tks[k].sub_tokens@;
    assert(strat::first_reaching(none, at, 0) is None);
    assert(strat::first_name(none, 0) is None);
    reveal_with_fuel(strat::inside_strat, 2);
    reveal_with_fuel(strat::leaf_strat, 2);
}

proof fn lemma_parent_len(tk: CtxTk, dir: Seq<char>, name: Seq<char>, n: int)
    requires
        tk.sub_tokens@.len() == 0,
        dir.len() > 0 ==> dir.last() == '/',
        !name.contains('/'),
        dir.len() <= n <= dir.len() + name.len(),
    ensures
        strat::parent_len(tk, dir + name, n) == dir.len(),
    decreases n,
{
    let s = dir + name;
    if n > dir.len() {
        assert(s[n - 1] == name[n - 1 - dir.len()]);
        assert(name.contains(name[n - 1 - dir.len()]));
        lemma_parent_len(tk, dir, name, n - 1);
    } else if n > 0 {
        assert(s[n - 1] == dir.last());
    }
}

/// In an argument a path is completed: what is typed behind the last slash, in the
/// directory before it.
pub proof fn arguments_are_completed_as_paths(
    tks: Seq<CtxTk>,
    at: usize,
    k: int,
    dir: Seq<char>,
    name: Seq<char>,
    rest: Seq<char>,
)
    requires
        0 <= k < tks.len(),
        tks[k].sub_tokens@.len() == 0,
        tks[k].class == CtxTkRule::Argument || tks[k].class == CtxTkRule::ArgumentFile,
        tks[k].span.start <= at <= tks[k].span.end,
        forall|j: int|
            0 <= j < k ==> !((#[trigger] tks[j]).span.start <= at <= tks[j].span.end),
        tks[k].text@ == dir + name + rest,
        at - tks[k].span.start == text::byte_len(dir + name),
        dir.len() > 0 ==> dir.last() == '/',
        !name.contains('/'),
    ensures
        strat::resolved(tks, at) == (
            Strat::Files(
                name,
                if dir.len() > 0 {
                    Some(dir)
                } else {
                    None
                },
            ),
            tks[k].span,
        ),
{
    lemma_first_reaching(tks, at, 0, k);
    lemma_cut(dir + name, rest);
    let s = dir + name;
    assert(strat::first_reaching(tks[k].sub_tokens@, at, 0) is None);
    lemma_parent_len(tks[k], dir, name, s.len() as int);
    assert(s.skip(dir.len() as int) =~= name);
    assert(s.take(dir.len() as int) =~= dir);
    reveal_with_fuel(strat::inside_strat, 2);
    reveal_with_fuel(strat::leaf_strat, 2);
}

proof fn lemma_last_before(tks: Seq<CtxTk>, at: usize, k: int, n: int)
    requires
        0 <= k < n <= tks.len(),
        tks[k].span.end <= at,
        forall|j: int| k < j < n ==> (#[trigger] tks[j]).span.end > at,
    ensures
        strat::last_before(tks, at, n) == Some(k),
    decreases n,
{
    if n - 1 > k {
        lemma_last_before(tks, at, k, n - 1);
    }
}

/// Behind a command or an argument an argument is completed, behind an operator a command,
/// behind a redirection a file; before everything a command.
pub proof fn gaps_are_completed_by_what_is_before(tks: Seq<CtxTk>, at: usize, k: int)
    requires
        0 <= k < tks.len(),
        forall|j: int|
            0 <= j < tks.len() ==> !((#[trigger] tks[j]).span.start <= at <= tks[j].span.end),
        tks[k].span.end <= at,
        forall|j: int| k < j < tks.len() ==> (#[trigger] tks[j]).span.end > at,
    ensures
        ({
            let r = strat::resolved(tks, at).0;
            let c = tks[k].class;
            let e = Seq::<char>::empty();
            &&& c == CtxTkRule::ValidCommand || c == CtxTkRule::InvalidCommand || c
                == CtxTkRule::Argument || c == CtxTkRule::ArgumentFile ==> r == Strat::Argument(e)
            &&& c == CtxTkRule::Operator || c == CtxTkRule::Separator || c == CtxTkRule::Keyword
                ==> r == Strat::Command(e)
            &&& c == CtxTkRule::Redirect ==> r == Strat::Files(e, None)
        }),
        strat::resolved(Seq::empty(), at).0 == Strat::Command(Seq::empty()),
{
    lemma_none_reaching(tks, at, 0);
    lemma_last_before(tks, at, k, tks.len() as int);
}

/// A candidate stands in the line as what was typed, and what it has beyond what was
/// looked for.
pub proof fn candidates_go_on_from_what_was_typed(typed: Seq<char>, looked_for: Seq<char>, rest: Seq<char>)
    ensures
        compspec::in_line(looked_for + rest, typed, looked_for) == typed + rest,
{
    assert((looked_for + rest).take(looked_for.len() as int) =~= looked_for);
    assert((looked_for + rest).skip(looked_for.len() as int) =~= rest);
}

/// The words of a list that match are taken, all of them, in their order.
pub proof fn words_that_match_are_taken(words: Seq<String>, n: int, p: Seq<char>, ic: bool)
    requires
        0 <= n <= words.len(),
    ensures
        BashCompSpec::words_matching(words, n, p, ic) == words.take(n).filter(
            |w: String| candidate::matches_start(w@, p, ic),
        ).map_values(|w: String| w@),
    decreases n,
{
    reveal(Seq::filter);
    let f = |w: String| candidate::matches_start(w@, p, ic);
    let g = |w: String| w@;
    let t = words.take(n);
    if n > 0 {
        words_that_match_are_taken(words, n - 1, p, ic);
        assert(t.drop_last() =~= words.take(n - 1));
        assert(t.last() == words[n - 1]);
        let d = t.drop_last().filter(f);
        assert(d.push(t.last()).map_values(g) =~= d.map_values(g).push(g(t.last())));
    } else {
        assert(t.filter(f).map_values(g) =~= Seq::empty());
    }
}

/// The score of a candidate that was found.
pub open spec fn points(c: ScoredCandidate) -> int {
    match c.score {
        Some(s) => s as int,
        None => i32::MIN as int,
    }
}

/// What is found comes with the higher score first, and of the same score with the larger
/// weight first.
pub proof fn higher_scores_come_first(
    s: Seq<ScoredCandidate>,
    q: Seq<char>,
    score: spec_fn(Seq<char>, Seq<char>, bool) -> i32,
    i: int,
    j: int,
)
    requires
        0 <= i < j < fuzzy::found_by(s, q, score).len(),
    ensures
        ({
            let r = fuzzy::found_by(s, q, score);
            &&& points(r[i]) >= points(r[j])
            &&& points(r[i]) == points(r[j]) ==> r[i].candidate.weight >= r[j].candidate.weight
        }),
{
    fuzzy::best_come_first(s, q, score);
    let r = fuzzy::found_by(s, q, score);
    assert(fuzzy::not_after(r[j], r[i]));
}

/// What a query finds is every candidate that has a score, with that score.
pub proof fn what_scores_is_found(
    s: Seq<ScoredCandidate>,
    q: Seq<char>,
    n: int,
    score: spec_fn(Seq<char>, Seq<char>, bool) -> i32,
)
    requires
        0 <= n <= s.len(),
    ensures
        fuzzy::matching_by(s, q, n, score) == s.take(n).filter(
            |c: ScoredCandidate|
                score(c.candidate.content@, q, c.penalize_len_diff) != i32::MIN,
        ).map_values(
            |c: ScoredCandidate|
                ScoredCandidate {
                    score: Some(score(c.candidate.content@, q, c.penalize_len_diff)),
                    ..c
                },
        ),
    decreases n,
{
    reveal(Seq::filter);
    let f = |c: ScoredCandidate| score(c.candidate.content@, q, c.penalize_len_diff) != i32::MIN;
    let g = |c: ScoredCandidate|
        ScoredCandidate { score: Some(score(c.candidate.content@, q, c.penalize_len_diff)), ..c };
    let t = s.take(n);
    if n > 0 {
        what_scores_is_found(s, q, n - 1, score);
        assert(t.drop_last() =~= s.take(n - 1));
        assert(t.last() == s[n - 1]);
        let d = t.drop_last().filter(f);
        assert(d.push(t.last()).map_values(g) =~= d.map_values(g).push(g(t.last())));
    } else {
        assert(t.filter(f).map_values(g) =~= Seq::empty());
    }
}

/// The best entry is one that is found, none scores higher, of those that score the same
/// none weighs more, and of those the last is taken.
pub proof fn the_best_entry_is_taken(
    e: Seq<(String, i32)>,
    q: Seq<char>,
    n: int,
    score: spec_fn(Seq<char>, Seq<char>, bool) -> i32,
)
    requires
        0 <= n <= e.len(),
    ensures
        match fuzzy::best_by(e, q, n, score) {
            Some(b) => {
                &&& 0 <= b < n
                &&& score(e[b].0@, q, false) > i32::MIN
                &&& forall|i: int|
                    0 <= i < n ==> ({
                        let s = score((#[trigger] e[i]).0@, q, false);
                        let t = score(e[b].0@, q, false);
                        s < t || (s == t && (e[i].1 < e[b].1 || (e[i].1 == e[b].1 && i <= b)))
                    })
            },
            None => forall|i: int|
                0 <= i < n ==> score((#[trigger] e[i]).0@, q, false) == i32::MIN,
        },
    decreases n,
{
    if n > 0 {
        the_best_entry_is_taken(e, q, n - 1, score);
    }
}

/// A character right behind the one before is worth more than one with a gap, and a
/// smaller gap costs less than a larger one.
pub proof fn nearness_counts(k: int, i: int, j: int)
    requires
        k + 1 < i < j,
    ensures
        align::follow_bonus(k, k + 1) > 0 > align::follow_bonus(k, i) > align::follow_bonus(k, j),
{
}

/// A character at the start of the text is worth more than one at the start of a word, and
/// that one more than one in a word, which is worth nothing. Words start behind a slash, an
/// underscore, a dash, a dot and a space, and where upper case follows lower case and is
/// asked for.
pub proof fn beginnings_count(c: Seq<char>, q: char, i: int)
    requires
        0 < i < c.len(),
    ensures
        ({
            let p = c[i - 1];
            let starts = p == '/' || p == '_' || p == '-' || p == '.' || p == ' ' || (
            unicode::lowercase(p) && unicode::uppercase(c[i]) && unicode::uppercase(q));
            &&& align::place_bonus(c, 0, q) > align::place_bonus(c, i, q)
            &&& align::place_bonus(c, i, q) > 0 <==> starts
            &&& align::place_bonus(c, i, q) >= 0
        }),
{
}

/// Counting on goes on by as much as it is told below its bound, and from the last round to
/// the first where it goes round; else it stops at the last. Counting back goes the other
/// way.
pub proof fn counting_stays_below_its_bound(c: ClampedUsize, n: usize)
    requires
        c.val < c.max,
        n < c.max,
    ensures
        c.val + n < c.max ==> clamped::wrapped_sum(c, n) == c.val + n,
        c.val + n >= c.max && c.wrap ==> clamped::wrapped_sum(c, n) == c.val + n - c.max,
        c.val + n >= c.max && !c.wrap ==> clamped::wrapped_sum(c, n) == c.max - 1,
        n <= c.val ==> clamped::wrapped_difference(c, n) == c.val - n,
        n > c.val && c.wrap ==> clamped::wrapped_difference(c, n) == c.val + c.max - n,
        n > c.val && !c.wrap ==> clamped::wrapped_difference(c, n) == 0,
{
    let m = c.max as int;
    vstd::arithmetic::div_mod::lemma_small_mod(n as nat, m as nat);
    if c.val + n < m {
        vstd::arithmetic::div_mod::lemma_small_mod((c.val + n) as nat, m as nat);
    } else {
        vstd::arithmetic::div_mod::lemma_mod_add_multiples_vanish(c.val + n - m, m);
        vstd::arithmetic::div_mod::lemma_small_mod((c.val + n - m) as nat, m as nat);
    }
    if n <= c.val {
        vstd::arithmetic::div_mod::lemma_mod_add_multiples_vanish(c.val - n, m);
        vstd::arithmetic::div_mod::lemma_small_mod((c.val - n) as nat, m as nat);
    } else {
        vstd::arithmetic::div_mod::lemma_small_mod((c.val + m - n) as nat, m as nat);
    }
}

/// What means something to the shell gets a backslash, and nothing else does: quotes,
/// backslashes, the operators, what starts an expansion or a pattern, comments and blanks.
pub proof fn what_the_shell_reads_is_escaped(s: Seq<char>, c: char)
    ensures
        c == '\'' || c == '"' || c == '\\' || c == '|' || c == '&' || c == ';' || c == '(' || c
            == ')' || c == '<' || c == '>' || c == '$' || c == '*' || c == '!' || c == '`' || c
            == '{' || c == '?' || c == '[' || c == '#' || c == ' ' || c == '\t' || c == '\n'
            ==> escape::escaped(s.push(c)) == escape::escaped(s) + seq!['\\', c],
        unicode::alphanumeric(c) || c == '_' || c == '-' || c == '.' || c == '/' || c == ',' || c
            == ':' || c == '+' || c == '@' || c == '%' || c == '=' || c == '~' ==> escape::escaped(
            s.push(c),
        ) == escape::escaped(s).push(c),
        escape::escaped(Seq::empty()) == Seq::<char>::empty(),
{
    assert(s.push(c).drop_last() =~= s);
    assert(escape::escaped(s).push('\\').push(c) =~= escape::escaped(s) + seq!['\\', c]);
}

/// A query scores by how its characters are found: the same with nothing behind, and less
/// by two for each further character where the length counts.
pub proof fn longer_texts_score_less(c: Seq<char>, q: Seq<char>)
    requires
        q.len() > 0,
        score::found_at(c, q, c.len() as int).len() == q.len(),
    ensures
        score::score_of(c, q, false) - score::score_of(c, q, true) == 2 * (c.len() - q.len()),
{
}

/// Candidates for paths and arguments are escaped and others are not; they take the place
/// of the span, and of a path only its last part where a directory stands before it.
pub proof fn candidates_are_aimed(c: SimpleCompleter, s: Strat, span: Span, p: Seq<char>, d: Seq<char>)
    requires
        span.start + text::byte_len(d) <= usize::MAX,
    ensures
        c.aimed(s, span).token_span == (span.start, span.end),
        c.aimed(Strat::Files(p, None), span).escape_candidates,
        c.aimed(Strat::Argument(p), span).escape_candidates,
        c.aimed(Strat::Dirs(p), span).escape_candidates,
        !c.aimed(Strat::Command(p), span).escape_candidates,
        !c.aimed(Strat::Var(p), span).escape_candidates,
        c.aimed(Strat::Files(p, Some(d)), span).graft_pos == Some(
            (span.start + text::byte_len(d)) as usize,
        ),
        c.aimed(Strat::Files(p, None), span).graft_pos is None,
{
}

/// A function is called with the command, the word of the cursor and the word before it.
pub proof fn functions_are_called_with_words(func: Seq<char>, ctx: CompContext)
    requires
        0 < ctx.cword < ctx.words@.len(),
    ensures
        BashCompSpec::call_line(func, ctx) == func + seq![' '] + ctx.words@[0]@ + seq![' ']
            + ctx.words@[ctx.cword as int]@ + seq![' '] + ctx.words@[ctx.cword - 1]@,
{
    let w = ctx.words@;
    assert(BashCompSpec::call_line(func, ctx) =~= func + seq![' '] + w[0]@ + seq![' ']
        + w[ctx.cword as int]@ + seq![' '] + w[ctx.cword - 1]@);
}

/// Of what is found only the kinds that are asked for are gathered.
pub proof fn kinds_are_gathered(b: BashCompSpec, f: FoundKinds)
    ensures
        b.files && !b.dirs && !b.commands && !b.vars && !b.users && !b.jobs && !b.aliases
            && !b.signals ==> b.gathered(f) == f.files@,
        b.dirs && !b.files && !b.commands && !b.vars && !b.users && !b.jobs && !b.aliases
            && !b.signals ==> b.gathered(f) == f.dirs@,
        b.commands && !b.dirs && !b.files && !b.vars && !b.users && !b.jobs && !b.aliases
            && !b.signals ==> b.gathered(f) == f.commands@,
        b.vars && !b.dirs && !b.files && !b.commands && !b.users && !b.jobs && !b.aliases
            && !b.signals ==> b.gathered(f) == f.vars@,
        b.users && !b.dirs && !b.files && !b.commands && !b.vars && !b.jobs && !b.aliases
            && !b.signals ==> b.gathered(f) == f.users@,
        b.jobs && !b.dirs && !b.files && !b.commands && !b.vars && !b.users && !b.aliases
            && !b.signals ==> b.gathered(f) == f.jobs@,
        b.aliases && !b.dirs && !b.files && !b.commands && !b.vars && !b.users && !b.jobs
            && !b.signals ==> b.gathered(f) == f.aliases@,
        b.signals && !b.dirs && !b.files && !b.commands && !b.vars && !b.users && !b.jobs
            && !b.aliases ==> b.gathered(f) == f.signals@,
        !b.signals && !b.dirs && !b.files && !b.commands && !b.vars && !b.users && !b.jobs
            && !b.aliases ==> b.gathered(f).len() == 0,
{
    let e = Seq::<Candidate>::empty();
    let g = b.gathered(f);
    if !b.signals && !b.dirs && !b.files && !b.commands && !b.vars && !b.users && !b.jobs
        && !b.aliases {
        assert(g =~= e);
    }
    if b.files && !b.dirs && !b.commands && !b.vars && !b.users && !b.jobs && !b.aliases
        && !b.signals {
        assert(g =~= f.files@);
    }
    if b.dirs && !b.files && !b.commands && !b.vars && !b.users && !b.jobs && !b.aliases
        && !b.signals {
        assert(g =~= f.dirs@);
    }
    if b.commands && !b.dirs && !b.files && !b.vars && !b.users && !b.jobs && !b.aliases
        && !b.signals {
        assert(g =~= f.commands@);
    }
    if b.vars && !b.dirs && !b.files && !b.commands && !b.users && !b.jobs && !b.aliases
        && !b.signals {
        assert(g =~= f.vars@);
    }
    if b.users && !b.dirs && !b.files && !b.commands && !b.vars && !b.jobs && !b.aliases
        && !b.signals {
        assert(g =~= f.users@);
    }
    if b.jobs && !b.dirs && !b.files && !b.commands && !b.vars && !b.users && !b.aliases
        && !b.signals {
        assert(g =~= f.jobs@);
    }
    if b.aliases && !b.dirs && !b.files && !b.commands && !b.vars && !b.users && !b.jobs
        && !b.signals {
        assert(g =~= f.aliases@);
    }
    if b.signals && !b.dirs && !b.files && !b.commands && !b.vars && !b.users && !b.jobs
        && !b.aliases {
        assert(g =~= f.signals@);
    }
}

/// What is completed in a line once nothing is active is the first of what was found, and
/// a step then goes on to the next.
pub proof fn completing_begins_with_the_first(
    a: SimpleCompleter,
    b: SimpleCompleter,
    line: Seq<char>,
    at: usize,
    direction: i32,
    found: CompResult,
    ignore_case: bool,
    r: Option<Seq<char>>,
)
    requires
        SimpleCompleter::stepped(a, b, line, at, direction, found, ignore_case, r),
        !a.active,
    ensures
        found is NoMatch ==> r is None && b.candidates == a.candidates,
        found is Many || found is Single ==> {
            &&& r is Some
            &&& b.original_input@ == line
            &&& b.selected_idx == 0
            &&& b.active == (found is Many)
            &&& b.candidates@.len() == found.candidates().len()
            &&& !a.add_space ==> b.candidates@ == found.candidates()
        },
{
    if !(found is NoMatch) && !a.add_space {
        let c = found.candidates();
        assert forall|i: int| 0 <= i < c.len() implies c[i] == b.candidates@[i] by {
            assert(simple::given(c[i], b.candidates@[i], a.add_space));
        }
        assert(b.candidates@ =~= c);
    }
}

/// A plain character is passed without a change of context; what a marker begins ends at the
/// next reset; a command and a variable begin where they stand.
pub proof fn contexts_begin_and_end(st: Subtoken, c: char)
    ensures
        !markers::marker(c) ==> simple::subtoken_step(st, c).ctx == st.ctx
            && simple::subtoken_step(st, c).pos == st.pos + 1,
        st.last == 0 ==> {
            let cmd = simple::subtoken_step(st, markers::COMMAND);
            let var = simple::subtoken_step(st, markers::VAR_SUB);
            let arg = simple::subtoken_step(st, markers::ARG);
            &&& cmd.ctx == st.ctx.push(markers::COMMAND) && cmd.start == st.pos
            &&& var.ctx == st.ctx.push(markers::VAR_SUB) && var.start == st.pos
            &&& arg.ctx == st.ctx.push(markers::ARG) && arg.start == st.pos
            &&& simple::subtoken_step(st, markers::BUILTIN) == cmd
            &&& st.ctx.len() > 0 ==> simple::subtoken_step(cmd, markers::RESET).ctx == st.ctx
            &&& st.ctx.len() > 0 ==> simple::subtoken_step(var, markers::RESET).ctx == st.ctx
            &&& st.ctx.len() > 0 ==> simple::subtoken_step(arg, markers::RESET).ctx == st.ctx
        },
{
    assert(st.ctx.push(markers::COMMAND).drop_last() =~= st.ctx);
    assert(st.ctx.push(markers::VAR_SUB).drop_last() =~= st.ctx);
    assert(st.ctx.push(markers::ARG).drop_last() =~= st.ctx);
}

/// Words are broken at an equals sign unless other characters are set.
pub proof fn words_break_at_equals_signs(b: &str)
    ensures
        simple::breaks_of(None) == seq!['='],
        simple::breaks_of(Some(b)) == b@,
{
}

/// Where the difference in length counts, a candidate loses two for each character that it is
/// longer than the query.
pub proof fn longer_candidates_lose_two_each(c: Seq<char>, q: Seq<char>, s: int, all: int)
    requires
        q.len() > 0,
        align::is_match_score(c, q, false, all),
        align::is_match_score(c, q, true, s),
        exists|p: Seq<int>| p.len() == q.len() && #[trigger] align::alignment(
            c,
            q,
            p,
            q.len() as int,
        ),
    ensures
        s == all - 2 * (c.len() - q.len()),
{
}

} // verus!
