//! What highlighting puts out for the parts of a marked line.

use crate::highlight;
use crate::highlight::CommandFacts;
use crate::highlight::FileFacts;
use crate::highlight::HighlightTheme;
use crate::highlight::Hl;
use crate::highlight::Known;
use crate::highlight::Sub;
use crate::markers;
use crate::unicode;
use vstd::prelude::*;

verus! {

/// The code that ends all styles.
pub open spec fn reset_code() -> Seq<char> {
    seq!['\u{1b}', '[', '0', 'm']
}

proof fn lemma_reset_code()
    ensures
        "\x1b[0m"@ == reset_code(),
{
    reveal_strlit("\x1b[0m");
    assert("\x1b[0m"@ =~= reset_code());
}

/// Whether a text holds no markers.
pub open spec fn unmarked(s: Seq<char>) -> bool {
    forall|i: int| 0 <= i < s.len() ==> !markers::marker(#[trigger] s[i])
}

/// Whether a word is one of a list.
pub open spec fn one_of(list: Seq<String>, word: Seq<char>) -> bool {
    exists|i: int| 0 <= i < list.len() && (#[trigger] list[i])@ == word
}

/// Whether a builtin or a command leaves a loop or a function.
pub open spec fn leaves(word: Seq<char>) -> bool {
    ||| word == seq!['b', 'r', 'e', 'a', 'k']
    ||| word == seq!['c', 'o', 'n', 't', 'i', 'n', 'u', 'e']
    ||| word == seq!['r', 'e', 't', 'u', 'r', 'n']
}

proof fn lemma_leaves(word: Seq<char>)
    ensures
        leaves(word) <==> highlight::jumps(word),
{
    reveal_strlit("break");
    reveal_strlit("continue");
    reveal_strlit("return");
    assert("break"@ =~= seq!['b', 'r', 'e', 'a', 'k']);
    assert("continue"@ =~= seq!['c', 'o', 'n', 't', 'i', 'n', 'u', 'e']);
    assert("return"@ =~= seq!['r', 'e', 't', 'u', 'r', 'n']);
}

/// Whether nothing behind a word is another argument.
pub open spec fn is_last(word: Seq<char>, tail: Seq<char>) -> bool {
    &&& forall|i: int| 0 <= i < word.len() ==> !unicode::whitespace(#[trigger] word[i])
    &&& forall|i: int|
        0 <= i < tail.len() ==> (#[trigger] tail[i]) != markers::ARG && !unicode::whitespace(
            tail[i],
        )
}

/// The style of a word, by the marker before it: builtins and known commands are valid,
/// unless they leave a loop or a function, other commands are not; of arguments the last
/// may be a file. `tail` is what follows.
pub open spec fn style_of(
    theme: HighlightTheme,
    known: Known,
    m: char,
    word: Seq<char>,
    tail: Seq<char>,
) -> Option<Seq<char>> {
    if m == markers::BUILTIN {
        Some(
            if leaves(word) {
                theme.control_flow@
            } else {
                theme.valid_command@
            },
        )
    } else if m == markers::COMMAND {
        Some(
            if leaves(word) {
                theme.control_flow@
            } else if one_of(known.commands@, word) {
                theme.valid_command@
            } else {
                theme.invalid_command@
            },
        )
    } else if m == markers::KEYWORD {
        Some(theme.keyword@)
    } else if m == markers::CASE_PAT || m == markers::GLOB {
        Some(theme.glob@)
    } else if m == markers::COMMENT {
        Some(theme.comment@)
    } else if m == markers::REDIRECT || m == markers::OPERATOR {
        Some(theme.operator@)
    } else if m == markers::STRING_DQ || m == markers::STRING_SQ {
        Some(theme.string@)
    } else if m == markers::ARG {
        Some(
            if is_last(word, tail) && one_of(known.files@, word) {
                theme.argument_file@
            } else {
                theme.argument@
            },
        )
    } else {
        None
    }
}

proof fn lemma_shown(
    theme: HighlightTheme,
    known: Known,
    s: Seq<char>,
    i: int,
    word: Seq<char>,
    st: Hl,
)
    requires
        0 <= i,
        i + word.len() <= s.len(),
        s.subrange(i, i + word.len()) == word,
        unmarked(word),
    ensures
        highlight::lit(theme, known, false, s, i, st) == highlight::lit(
            theme,
            known,
            false,
            s,
            i + word.len(),
            Hl { out: st.out + word, was_reset: st.was_reset && word.len() == 0, ..st },
        ),
    decreases word.len(),
{
    if word.len() > 0 {
        assert(s[i] == s.subrange(i, i + word.len())[0]);
        assert(!markers::marker(word[0]));
        let rest = word.skip(1);
        let next = st.shown(s[i]);
        assert(highlight::lit(theme, known, false, s, i, st) == highlight::lit(
            theme,
            known,
            false,
            s,
            i + 1,
            next,
        ));
        assert forall|k: int| 0 <= k < rest.len() implies !markers::marker(#[trigger] rest[k]) by {
            assert(rest[k] == word[k + 1]);
        }
        assert(s.subrange(i + 1, i + 1 + rest.len()) =~= rest);
        lemma_shown(theme, known, s, i + 1, rest, next);
        assert(next.out + rest =~= st.out + word);
    } else {
        assert(st.out + word =~= st.out);
    }
}

proof fn lemma_place(s: Seq<char>, c: char, i: int, k: int)
    requires
        0 <= i <= k <= s.len(),
        forall|j: int| i <= j < k ==> (#[trigger] s[j]) != c,
        k < s.len() ==> s[k] == c,
    ensures
        highlight::place(s, c, i) == k,
    decreases k - i,
{
    if i < k {
        lemma_place(s, c, i + 1, k);
    }
}

proof fn lemma_unmarked(s: Seq<char>)
    requires
        unmarked(s),
    ensures
        markers::stripped(s) == s,
    decreases s.len(),
{
    if s.len() > 0 {
        let d = s.drop_last();
        assert forall|k: int| 0 <= k < d.len() implies !markers::marker(#[trigger] d[k]) by {
            assert(d[k] == s[k]);
        }
        lemma_unmarked(d);
        assert(!markers::marker(s[s.len() - 1]));
        assert(d.push(s.last()) =~= s);
    }
}

proof fn lemma_word(before: Seq<char>, m: char, word: Seq<char>, tail: Seq<char>)
    requires
        unmarked(word),
    ensures
        ({
            let s = before.push(m) + word.push(markers::RESET) + tail;
            let i = before.len() as int + 1;
            &&& s[i - 1] == m
            &&& s[i + word.len()] == markers::RESET
            &&& s.subrange(i, i + word.len()) == word
            &&& highlight::word_at(s, i) == word
            &&& highlight::last_arg(s, i) <==> is_last(word, tail)
        }),
{
    let s = before.push(m) + word.push(markers::RESET) + tail;
    let i = before.len() as int + 1;
    let n = word.len() as int;
    assert(s.subrange(i, i + n) =~= word);
    assert forall|j: int| i <= j < i + n implies (#[trigger] s[j]) != markers::RESET by {
        assert(s[j] == word[j - i]);
        assert(!markers::marker(word[j - i]));
    }
    assert(s[i + n] == markers::RESET);
    lemma_place(s, markers::RESET, i, i + n);
    lemma_unmarked(word);
    if highlight::last_arg(s, i) {
        assert forall|k: int| 0 <= k < n implies !unicode::whitespace(#[trigger] word[k]) by {
            assert(s[i + k] == word[k]);
        }
        assert forall|k: int| 0 <= k < tail.len() implies (#[trigger] tail[k]) != markers::ARG
            && !unicode::whitespace(tail[k]) by {
            assert(s[i + n + 1 + k] == tail[k]);
        }
    }
    if is_last(word, tail) {
        assert forall|k: int| i <= k < s.len() implies (#[trigger] s[k]) != markers::ARG
            && !unicode::whitespace(s[k]) by {
            if k < i + n {
                assert(s[k] == word[k - i]);
                assert(!markers::marker(word[k - i]));
            } else if k > i + n {
                assert(s[k] == tail[k - (i + n + 1)]);
            }
        }
    }
}

/// A marked word comes out in its style, and behind it, where its mark ends, without a
/// style: the style, the word, and the code that ends all styles. Highlighting then goes
/// on behind the word.
pub proof fn words_come_out_in_their_style(
    theme: HighlightTheme,
    known: Known,
    before: Seq<char>,
    m: char,
    word: Seq<char>,
    tail: Seq<char>,
    st: Hl,
)
    requires
        unmarked(word),
        word.len() > 0,
        style_of(theme, known, m, word, tail) is Some,
        !st.sel,
    ensures
        ({
            let s = before.push(m) + word.push(markers::RESET) + tail;
            let style = style_of(theme, known, m, word, tail)->0;
            let at = before.len() as int;
            highlight::lit(theme, known, false, s, at, st) == highlight::lit(
                theme,
                known,
                false,
                s,
                at + 1 + word.len() + 1,
                Hl {
                    out: st.out + style + word + reset_code(),
                    stack: Seq::empty(),
                    was_reset: true,
                    sel: false,
                },
            )
        }),
{
    let s = before.push(m) + word.push(markers::RESET) + tail;
    let style = style_of(theme, known, m, word, tail)->0;
    let at = before.len() as int;
    lemma_word(before, m, word, tail);
    lemma_leaves(word);
    lemma_reset_code();
    let a = highlight::lit_one(theme, known, s, at + 1, st, m);
    assert(a == (Hl { out: st.out + style, stack: st.stack.push(style), was_reset: false, sel: false }));
    assert(highlight::lit(theme, known, false, s, at, st) == highlight::lit(
        theme,
        known,
        false,
        s,
        at + 1,
        a,
    ));
    lemma_shown(theme, known, s, at + 1, word, a);
    let b = Hl { out: a.out + word, was_reset: false, ..a };
    assert(highlight::lit(theme, known, false, s, at + 1 + word.len(), b) == highlight::lit(
        theme,
        known,
        false,
        s,
        at + 1 + word.len() + 1,
        b.cleared(),
    ));
    assert(b.cleared().stack =~= Seq::<Seq<char>>::empty());
}

/// A line that is one marked word comes out as its style, the word, and the code that ends
/// all styles.
pub proof fn one_word_comes_out_in_its_style(
    theme: HighlightTheme,
    known: Known,
    m: char,
    word: Seq<char>,
)
    requires
        unmarked(word),
        word.len() > 0,
        style_of(theme, known, m, word, Seq::empty()) is Some,
    ensures
        ({
            let fresh = Hl { out: Seq::empty(), stack: Seq::empty(), was_reset: true, sel: false };
            highlight::lit(
                theme,
                known,
                false,
                seq![m] + word + seq![markers::RESET],
                0,
                fresh,
            ).taken() == style_of(theme, known, m, word, Seq::empty())->0 + word + reset_code()
        }),
{
    let fresh = Hl { out: Seq::empty(), stack: Seq::empty(), was_reset: true, sel: false };
    let e = Seq::<char>::empty();
    words_come_out_in_their_style(theme, known, e, m, word, e, fresh);
    assert(e.push(m) + word.push(markers::RESET) + e =~= seq![m] + word + seq![markers::RESET]);
    let style = style_of(theme, known, m, word, e)->0;
    assert(e + style + word + reset_code() =~= style + word + reset_code());
}

/// What shows behind a part that ends: the style that was there before it, or none.
pub open spec fn back_to(st: Hl) -> Seq<char> {
    if st.stack.len() > 0 {
        st.stack.last()
    } else {
        reset_code()
    }
}

/// A quoted string comes out in its style, and then the style comes back that was there
/// before.
pub proof fn strings_come_out_in_their_style(
    theme: HighlightTheme,
    known: Known,
    s: Seq<char>,
    i: int,
    word: Seq<char>,
    st: Hl,
    double: bool,
)
    requires
        unmarked(word),
        0 <= i,
        i + 1 + word.len() < s.len(),
        s[i] == (if double {
            markers::STRING_DQ
        } else {
            markers::STRING_SQ
        }),
        s.subrange(i + 1, i + 1 + word.len()) == word,
        s[i + 1 + word.len()] == (if double {
            markers::STRING_DQ_END
        } else {
            markers::STRING_SQ_END
        }),
        !st.sel,
    ensures
        ({
            let r = Hl {
                out: st.out + theme.string@ + word + back_to(st),
                was_reset: st.stack.len() == 0,
                ..st
            };
            highlight::lit(theme, known, false, s, i, st) == highlight::lit(
                theme,
                known,
                false,
                s,
                i + 1 + word.len() + 1,
                r,
            )
        }),
{
    lemma_reset_code();
    let a = st.pushed(theme.string@);
    assert(highlight::lit(theme, known, false, s, i, st) == highlight::lit(
        theme,
        known,
        false,
        s,
        i + 1,
        a,
    ));
    lemma_shown(theme, known, s, i + 1, word, a);
    let b = Hl { out: a.out + word, was_reset: a.was_reset && word.len() == 0, ..a };
    assert(highlight::lit(theme, known, false, s, i + 1 + word.len(), b) == highlight::lit(
        theme,
        known,
        false,
        s,
        i + 1 + word.len() + 1,
        b.popped(),
    ));
    assert(b.popped().stack =~= st.stack);
}

proof fn lemma_skimmed(
    selection: Seq<char>,
    mode: highlight::Skim,
    s: Seq<char>,
    i: int,
    k: int,
    st: Hl,
    acc: Seq<char>,
)
    requires
        0 <= i <= k < s.len(),
        forall|j: int| i <= j < k ==> !markers::marker(#[trigger] s[j]) && !mode.ends(s[j]),
        mode.ends(s[k]),
        s[k] != markers::RESET,
    ensures
        highlight::skimmed(selection, mode, s, i, st, acc) == (st, acc + s.subrange(i, k), k + 1),
    decreases k - i,
{
    if i < k {
        lemma_skimmed(selection, mode, s, i + 1, k, st, acc.push(s[i]));
        assert(acc.push(s[i]) + s.subrange(i + 1, k) =~= acc + s.subrange(i, k));
    } else {
        assert(acc + s.subrange(i, k) =~= acc);
    }
}

/// A variable, or a reference to the history, comes out in the style of variables, and
/// then the style comes back that was there before.
pub proof fn variables_come_out_in_their_style(
    theme: HighlightTheme,
    known: Known,
    s: Seq<char>,
    i: int,
    word: Seq<char>,
    st: Hl,
    past: bool,
)
    requires
        unmarked(word),
        0 <= i,
        i + 1 + word.len() < s.len(),
        s[i] == (if past {
            markers::HIST_EXP
        } else {
            markers::VAR_SUB
        }),
        s.subrange(i + 1, i + 1 + word.len()) == word,
        s[i + 1 + word.len()] == (if past {
            markers::HIST_EXP_END
        } else {
            markers::VAR_SUB_END
        }),
        !st.sel,
    ensures
        ({
            let r = Hl {
                out: st.out + theme.variable@ + word + back_to(st),
                was_reset: st.stack.len() == 0,
                ..st
            };
            highlight::lit(theme, known, false, s, i, st) == highlight::lit(
                theme,
                known,
                false,
                s,
                i + 1 + word.len() + 1,
                r,
            )
        }),
{
    lemma_reset_code();
    let mode = if past {
        highlight::Skim::Hist
    } else {
        highlight::Skim::Var
    };
    let k = i + 1 + word.len();
    assert forall|j: int| i + 1 <= j < k implies !markers::marker(#[trigger] s[j]) && !mode.ends(
        s[j],
    ) by {
        assert(s[j] == s.subrange(i + 1, k)[j - i - 1]);
        assert(!markers::marker(word[j - i - 1]));
    }
    lemma_skimmed(theme.selection@, mode, s, i + 1, k, st, Seq::empty());
    assert(Seq::<char>::empty() + s.subrange(i + 1, k) =~= word);
    let r = highlight::after_var(theme, st, word);
    assert(r.stack =~= st.stack);
    assert(highlight::lit(theme, known, false, s, i, st) == highlight::lit(
        theme,
        known,
        false,
        s,
        k + 1,
        r,
    ));
}

/// The name in an assignment comes out as it is, and its equals sign in the style of
/// variables.
pub proof fn assignments_come_out_in_their_style(
    theme: HighlightTheme,
    known: Known,
    s: Seq<char>,
    i: int,
    word: Seq<char>,
    st: Hl,
)
    requires
        unmarked(word),
        !word.contains('='),
        0 <= i,
        i + 1 + word.len() < s.len(),
        s[i] == markers::ASSIGNMENT,
        s.subrange(i + 1, i + 1 + word.len()) == word,
        s[i + 1 + word.len()] == '=',
        !st.sel,
    ensures
        ({
            let r = Hl {
                out: st.out + word + theme.variable@ + seq!['='] + back_to(st),
                was_reset: st.stack.len() == 0,
                ..st
            };
            highlight::lit(theme, known, false, s, i, st) == highlight::lit(
                theme,
                known,
                false,
                s,
                i + 1 + word.len() + 1,
                r,
            )
        }),
{
    lemma_reset_code();
    let mode = highlight::Skim::Assign;
    let k = i + 1 + word.len();
    assert forall|j: int| i + 1 <= j < k implies !markers::marker(#[trigger] s[j]) && !mode.ends(
        s[j],
    ) by {
        assert(s[j] == s.subrange(i + 1, k)[j - i - 1]);
        assert(!markers::marker(word[j - i - 1]));
        assert(word.contains(word[j - i - 1]));
    }
    lemma_skimmed(theme.selection@, mode, s, i + 1, k, st, Seq::empty());
    assert(Seq::<char>::empty() + s.subrange(i + 1, k) =~= word);
    let r = highlight::after_assign(theme, st, word);
    assert(r.stack =~= st.stack);
    assert(highlight::lit(theme, known, false, s, i, st) == highlight::lit(
        theme,
        known,
        false,
        s,
        k + 1,
        r,
    ));
}

/// A selected stretch comes out in the style of the selection, and then the style comes
/// back that was there before.
pub proof fn the_selection_comes_out_in_its_style(
    theme: HighlightTheme,
    known: Known,
    s: Seq<char>,
    i: int,
    word: Seq<char>,
    st: Hl,
)
    requires
        unmarked(word),
        0 <= i,
        i + 1 + word.len() < s.len(),
        s[i] == markers::VISUAL_MODE_START,
        s.subrange(i + 1, i + 1 + word.len()) == word,
        s[i + 1 + word.len()] == markers::VISUAL_MODE_END,
        !st.sel,
    ensures
        ({
            let r = Hl {
                out: st.out + theme.selection@ + word + back_to(st),
                was_reset: st.stack.len() == 0,
                ..st
            };
            highlight::lit(theme, known, false, s, i, st) == highlight::lit(
                theme,
                known,
                false,
                s,
                i + 1 + word.len() + 1,
                r,
            )
        }),
{
    lemma_reset_code();
    let a = st.selecting(theme.selection@);
    lemma_shown(theme, known, s, i + 1, word, a);
    let b = Hl { out: a.out + word, was_reset: a.was_reset && word.len() == 0, ..a };
    assert(highlight::lit(theme, known, false, s, i + 1 + word.len(), b) == highlight::lit(
        theme,
        known,
        false,
        s,
        i + 1 + word.len() + 1,
        b.deselecting(),
    ));
}

/// In the selection the marks of words do not show.
pub proof fn styles_are_hidden_by_the_selection(
    theme: HighlightTheme,
    known: Known,
    s: Seq<char>,
    i: int,
    st: Hl,
    m: char,
)
    requires
        st.sel,
        markers::marker(m),
    ensures
        highlight::lit_one(theme, known, s, i, st, m).out == st.out,
{
}

/// A substitution comes out with its opening and its closing parenthesis in the style of
/// operators, and with what stands inside in between.
pub proof fn substitutions_come_out_with_their_brackets(
    selection: Seq<char>,
    operator: Seq<char>,
    st: Hl,
    nested: Hl,
    sub: Sub,
)
    requires
        !st.sel,
        !nested.sel,
        nested.stack.len() == 0,
    ensures
        ({
            let r = highlight::after_sub(selection, operator, st, nested, sub, false);
            let inside = nested.out + if nested.was_reset {
                Seq::empty()
            } else {
                reset_code()
            };
            &&& r.stack == st.stack && !r.sel
            &&& sub.complete ==> r.out == st.out + operator + sub.opening + back_to(st) + inside
                + operator + seq![')'] + back_to(st)
            &&& !sub.complete ==> r.out == st.out + operator + sub.opening + back_to(st) + inside
        }),
{
    lemma_reset_code();
    assert(st.stack + nested.stack =~= st.stack);
    assert(st.stack.push(operator).drop_last() =~= st.stack);
    let inside = Hl { stack: Seq::empty(), ..nested }.taken();
    assert(inside =~= nested.out + if nested.was_reset {
        Seq::empty()
    } else {
        reset_code()
    });
}

/// A substitution opens as it is written: a command substitution with a dollar sign and a
/// parenthesis, a subshell with a parenthesis, backticks with a backtick, and a process
/// substitution by its direction.
pub proof fn substitutions_open_as_written(inner: Seq<char>)
    ensures
        highlight::opening(markers::CMD_SUB, inner) == seq!['$', '('],
        highlight::opening(markers::SUBSH, inner) == seq!['('],
        highlight::opening(markers::BACKTICK_SUB, inner) == seq!['`'],
        highlight::opening(markers::PROC_SUB, seq!['<', '('] + inner) == seq!['<', '('],
        highlight::opening(markers::PROC_SUB, seq!['>', '('] + inner) == seq!['>', '('],
{
    reveal_strlit("$(");
    reveal_strlit("(");
    reveal_strlit("`");
    reveal_strlit("<(");
    reveal_strlit(">(");
    assert("$("@ =~= seq!['$', '(']);
    assert("("@ =~= seq!['(']);
    assert("`"@ =~= seq!['`']);
    assert("<("@ =~= seq!['<', '(']);
    assert(">("@ =~= seq!['>', '(']);
    let l = seq!['<', '('] + inner;
    let g = seq!['>', '('] + inner;
    assert(l.take(2) =~= seq!['<', '(']);
    assert(g.take(2) =~= seq!['>', '(']);
    assert(g.take(2)[0] != seq!['<', '('][0]);
}

/// A command by its whole path can be run where somebody may execute it, any other where
/// it is remembered, and a directory where its name enters it.
pub proof fn commands_can_be_run(command: Seq<char>, facts: CommandFacts, autocd: bool)
    ensures
        facts.is_dir && autocd ==> highlight::runnable(command, facts, autocd),
        !(facts.is_dir && autocd) && command.len() > 0 && command[0] == '/' ==> (
        highlight::runnable(command, facts, autocd) <==> facts.mode is Some && (facts.mode->0
            & 0o100 != 0 || facts.mode->0 & 0o010 != 0 || facts.mode->0 & 0o001 != 0)),
        !(facts.is_dir && autocd) && !(command.len() > 0 && command[0] == '/')
            ==> highlight::runnable(command, facts, autocd) == facts.cached,
{
    if facts.mode is Some {
        let m = facts.mode->0;
        assert(m & 0o111 != 0 <==> (m & 0o100 != 0 || m & 0o010 != 0 || m & 0o001 != 0))
            by (bit_vector);
    }
}

/// An argument names a file where it is the whole path of one, or the beginning of a path
/// that is remembered.
pub proof fn arguments_name_files(arg: Seq<char>, facts: FileFacts, i: int, rest: Seq<char>)
    ensures
        arg.len() > 0 && arg[0] == '/' && facts.exists ==> highlight::names_file(arg, facts),
        !(arg.len() > 0 && arg[0] == '/') && 0 <= i < facts.cached@.len() && facts.cached@[i]@
            == arg + rest ==> highlight::names_file(arg, facts),
        !(arg.len() > 0 && arg[0] == '/') && facts.cached@.len() == 0 ==> !highlight::names_file(
            arg,
            facts,
        ),
{
    assert((arg + rest).take(arg.len() as int) =~= arg);
}

proof fn lemma_entry(table: Seq<(String, String)>, key: Seq<char>, i: int, k: int)
    requires
        0 <= i <= k < table.len(),
        table[k].0@ == key,
        forall|j: int| i <= j < k ==> (#[trigger] table[j]).0@ != key,
    ensures
        highlight::entry(table, key, i) == Some(table[k].1@),
    decreases k - i,
{
    if i < k {
        lemma_entry(table, key, i + 1, k);
    }
}

proof fn lemma_no_entry(table: Seq<(String, String)>, key: Seq<char>, i: int)
    requires
        0 <= i,
        forall|j: int| 0 <= j < table.len() ==> (#[trigger] table[j]).0@ != key,
    ensures
        highlight::entry(table, key, i) is None,
    decreases table.len() - i,
{
    if i < table.len() {
        lemma_no_entry(table, key, i + 1);
    }
}

/// A style is described by what stands first for it in the table of colours; what is not
/// in the table, and is not written out, has no codes.
pub proof fn styles_are_found_in_the_table(raw: Seq<char>, colors: Seq<(String, String)>, k: int)
    requires
        raw.len() > 0,
        raw[0] != '\\',
    ensures
        0 <= k < colors.len() && colors[k].0@ == raw && (forall|j: int|
            0 <= j < k ==> (#[trigger] colors[j]).0@ != raw) ==> highlight::style_codes(raw, colors)
            == Some(colors[k].1@),
        (forall|j: int| 0 <= j < colors.len() ==> (#[trigger] colors[j]).0@ != raw)
            ==> highlight::style_codes(raw, colors) is None,
{
    if 0 <= k < colors.len() && colors[k].0@ == raw && (forall|j: int|
        0 <= j < k ==> (#[trigger] colors[j]).0@ != raw) {
        lemma_entry(colors, raw, 0, k);
    }
    if forall|j: int| 0 <= j < colors.len() ==> (#[trigger] colors[j]).0@ != raw {
        lemma_no_entry(colors, raw, 0);
    }
}

proof fn lemma_unescaped(s: Seq<char>, i: int)
    requires
        0 <= i <= s.len(),
        forall|j: int| i <= j < s.len() ==> (#[trigger] s[j]) != '\\',
    ensures
        highlight::unescaped(s, i) == s.skip(i),
    decreases s.len() - i,
{
    if i < s.len() {
        lemma_unescaped(s, i + 1);
        assert(seq![s[i]] + s.skip(i + 1) =~= s.skip(i));
    } else {
        assert(s.skip(i) =~= Seq::<char>::empty());
    }
}

/// A style that is written out begins with an escape character in the place of its mark,
/// and goes on as it is written.
pub proof fn written_styles_are_escapes(rest: Seq<char>, colors: Seq<(String, String)>)
    requires
        !rest.contains('\\'),
    ensures
        highlight::style_codes(seq!['\\', 'e'] + rest, colors) == Some(seq!['\u{1b}'] + rest),
{
    let s = seq!['\\', 'e'] + rest;
    assert forall|j: int| 2 <= j < s.len() implies (#[trigger] s[j]) != '\\' by {
        assert(s[j] == rest[j - 2]);
        assert(rest.contains(rest[j - 2]));
    }
    lemma_unescaped(s, 2);
    assert(s.skip(2) =~= rest);
}

/// A style that cannot be resolved gives way to the one in its place, and where that
/// cannot be resolved either there is none.
pub proof fn styles_give_way(raw: Seq<char>, instead: Seq<char>, colors: Seq<(String, String)>)
    ensures
        highlight::style_codes(raw, colors) matches Some(c) ==> highlight::codes_or(
            raw,
            instead,
            colors,
        ) == c,
        highlight::style_codes(raw, colors) is None && highlight::style_codes(instead, colors)
            is Some ==> highlight::codes_or(raw, instead, colors) == highlight::style_codes(
            instead,
            colors,
        )->0,
        highlight::style_codes(raw, colors) is None && highlight::style_codes(instead, colors)
            is None ==> highlight::codes_or(raw, instead, colors).len() == 0,
{
}

/// The styles that cannot be resolved are told, in order, and no others.
pub proof fn unresolved_styles_are_told(raws: Seq<Seq<char>>, colors: Seq<(String, String)>, n: int)
    requires
        0 <= n <= raws.len(),
    ensures
        highlight::unresolved(raws, colors, n) == raws.take(n).filter(
            |r: Seq<char>| highlight::style_codes(r, colors) is None,
        ),
    decreases n,
{
    reveal(Seq::filter);
    let t = raws.take(n);
    if n > 0 {
        unresolved_styles_are_told(raws, colors, n - 1);
        assert(t.drop_last() =~= raws.take(n - 1));
        assert(t.last() == raws[n - 1]);
    }
}

/// A control character shows as a caret and its letter in reverse video; everything else
/// shows as it is.
pub proof fn controls_show_in_reverse(s: Seq<char>, n: int)
    requires
        0 <= n < s.len(),
    ensures
        highlight::all_visible(s, 0) == Seq::<char>::empty(),
        s[n] as u32 > 0x1f || s[n] == '\n' || s[n] == '\t' || s[n] == '\r'
            ==> highlight::all_visible(s, n + 1) == highlight::all_visible(s, n).push(s[n]),
        1 <= s[n] as u32 <= 8 ==> highlight::all_visible(s, n + 1) == highlight::all_visible(s, n)
            + seq!['\u{1b}', '[', '7', 'm', '^', (('A' as u32) + (s[n] as u32) - 1) as char]
            + reset_code(),
{
    lemma_reset_code();
    reveal_strlit("\x1b[7m^");
    let v = highlight::all_visible(s, n);
    assert(v + seq![s[n]] =~= v.push(s[n]));
    if 1 <= s[n] as u32 <= 8 {
        let c = (('A' as u32) + (s[n] as u32) - 1) as char;
        let k = (s[n] as u32 + 64) as char;
        assert(c == k);
        assert("\x1b[7m^"@ =~= seq!['\u{1b}', '[', '7', 'm', '^']);
        assert("\x1b[7m^"@.push(k) =~= seq!['\u{1b}', '[', '7', 'm', '^', c]);
        assert(v + (("\x1b[7m^"@).push(k) + reset_code()) =~= v + seq![
            '\u{1b}',
            '[',
            '7',
            'm',
            '^',
            c,
        ] + reset_code());
    }
}

} // verus!
