//! Which strategy completes a line.

use shed::complete::simple::SimpleCompleter;
use shed::complete::strat::CompStrat;
use shed::context::{CtxTk, CtxTkRule, Span};

fn tk(input: &str, start: usize, end: usize, class: CtxTkRule, sub: Vec<CtxTk>) -> CtxTk {
    CtxTk::new(Span { start, end }, String::from(&input[start..end]), class, sub)
}

/// The variable that starts at `at`, which reaches no further than `end`.
fn variable(input: &str, at: usize, end: usize) -> CtxTk {
    let b = input.as_bytes();
    let braced = at + 1 < end && b[at + 1] == b'{';
    let name = if braced { at + 2 } else { at + 1 };
    let mut stop = name;
    while stop < end && (b[stop].is_ascii_alphanumeric() || b[stop] == b'_') {
        stop += 1;
    }
    let mut sub = vec![
        tk(input, at, name, CtxTkRule::ParamPrefix, vec![]),
        tk(input, name, stop, CtxTkRule::ParamName, vec![]),
    ];
    if !braced {
        return tk(input, at, stop, CtxTkRule::VarSub, sub);
    }
    let mut close = stop;
    while close < end && b[close] != b'}' {
        close += 1;
    }
    if close > stop {
        sub.push(tk(input, stop, stop + 1, CtxTkRule::ParamOp, vec![]));
        sub.push(tk(input, stop + 1, close, CtxTkRule::ParamArg, vec![]));
    }
    let last = if close < end { close + 1 } else { close };
    tk(input, at, last, CtxTkRule::VarSub, sub)
}

/// The variables and strings in a stretch.
fn parts(input: &str, from: usize, end: usize) -> Vec<CtxTk> {
    let b = input.as_bytes();
    let mut out = vec![];
    let mut i = from;
    while i < end {
        if b[i] == b'$' {
            let v = variable(input, i, end);
            i = v.span.end;
            out.push(v);
        } else if b[i] == b'"' {
            let mut j = i + 1;
            while j < end && b[j] != b'"' {
                j += 1;
            }
            let last = if j < end { j + 1 } else { j };
            out.push(tk(input, i, last, CtxTkRule::DoubleString, parts(input, i + 1, j)));
            i = last;
        } else {
            i += 1;
        }
    }
    out
}

/// The words of a plain line: a command, then its arguments, and so on after a pipe.
fn tokens(input: &str) -> Vec<CtxTk> {
    let b = input.as_bytes();
    let mut out = vec![];
    let mut command = true;
    let mut i = 0;
    while i < b.len() {
        if b[i] == b' ' {
            i += 1;
        } else if b[i] == b'|' {
            out.push(tk(input, i, i + 1, CtxTkRule::Operator, vec![]));
            command = true;
            i += 1;
        } else {
            let mut j = i;
            let mut quoted = false;
            while j < b.len() && (quoted || b[j] != b' ') {
                quoted = quoted != (b[j] == b'"');
                j += 1;
            }
            let class = if command { CtxTkRule::ValidCommand } else { CtxTkRule::Argument };
            out.push(tk(input, i, j, class, parts(input, i, j)));
            command = false;
            i = j;
        }
    }
    out
}

/// What completes a line at the cursor, and the stretch that is replaced.
fn dispatch(input: &str, cursor: usize) -> (CompStrat, (usize, usize)) {
    let tks = tokens(input);
    let (strat, span) = CompStrat::resolve(&tks, cursor);
    (strat, (span.start, span.end))
}

/// What was typed so far of the thing to complete.
fn prefix_of(strat: &CompStrat) -> &str {
    match strat {
        CompStrat::Var { prefix }
        | CompStrat::Tilde { prefix }
        | CompStrat::Command { prefix }
        | CompStrat::Argument { prefix }
        | CompStrat::Dirs { prefix }
        | CompStrat::Files { prefix, .. } => prefix,
        CompStrat::Separator | CompStrat::Null => "",
    }
}

#[test]
fn dispatch_bare_var_sub() {
    // `$FL` cursor at end gives Var{prefix:"$FL"}, span covers `$FL`.
    let input = "echo $FL";
    let (strat, span) = dispatch(input, input.len());
    assert!(matches!(strat, CompStrat::Var { .. }), "got {strat:?}");
    assert_eq!(prefix_of(&strat), "$FL");
    assert_eq!(&input[span.0..span.1], "$FL");
}

#[test]
fn dispatch_braced_var_sub_unclosed() {
    // `${FL` cursor at end gives Var, span narrowed to `${FL`.
    // The closing `}` doesn't exist yet; replacement targets exactly what
    // the user has typed.
    let input = "echo ${FL";
    let (strat, span) = dispatch(input, input.len());
    assert!(matches!(strat, CompStrat::Var { .. }), "got {strat:?}");
    assert_eq!(prefix_of(&strat), "${FL");
    assert_eq!(&input[span.0..span.1], "${FL");
}

#[test]
fn dispatch_braced_var_sub_closed() {
    // `${FL}` cursor at end gives Var, span narrowed to `${FL`. The `}` lives
    // outside the span so it's preserved when the candidate replaces.
    let input = "echo ${FL}";
    let (strat, span) = dispatch(input, input.len());
    assert!(matches!(strat, CompStrat::Var { .. }), "got {strat:?}");
    assert_eq!(prefix_of(&strat), "${FL}");
    assert_eq!(&input[span.0..span.1], "${FL");
}

#[test]
fn dispatch_braced_var_with_substitution_op() {
    // `${FL/bar` parses as a (greedy) substitution param expansion.
    // Cursor on FL gives Var, span narrowed to `${FL` so the `/bar` is preserved.
    let input = "echo ${FL/bar";
    let cursor = input.find("FL").unwrap() + 2; // end of FL
    let (strat, span) = dispatch(input, cursor);
    assert!(matches!(strat, CompStrat::Var { .. }), "got {strat:?}");
    assert_eq!(&input[span.0..span.1], "${FL");
}

#[test]
fn dispatch_var_sub_inside_path() {
    // `/foo/$FL/bar` cursor on FL gives Var, span covers exactly `$FL`.
    // Sibling path bytes (`/foo/` and `/bar`) stay outside the span.
    let input = "echo /foo/$FL/bar";
    let cursor = input.find("$FL").unwrap() + 3; // end of $FL
    let (strat, span) = dispatch(input, cursor);
    assert!(matches!(strat, CompStrat::Var { .. }), "got {strat:?}");
    assert_eq!(prefix_of(&strat), "$FL");
    assert_eq!(&input[span.0..span.1], "$FL");
}

#[test]
fn dispatch_var_sub_inside_double_quoted_string() {
    // `"foo $FL` (unclosed double-quoted string) cursor at end.
    // Recursion descends into DoubleString gives VarSub. Span covers `$FL`.
    let input = "echo \"foo $FL";
    let (strat, span) = dispatch(input, input.len());
    assert!(matches!(strat, CompStrat::Var { .. }), "got {strat:?}");
    assert_eq!(prefix_of(&strat), "$FL");
    assert_eq!(&input[span.0..span.1], "$FL");
}

#[test]
fn dispatch_braced_var_inside_double_quoted_string() {
    let input = "echo \"foo ${FL}";
    let cursor = input.find("FL").unwrap() + 2; // end of FL
    let (strat, span) = dispatch(input, cursor);
    assert!(matches!(strat, CompStrat::Var { .. }), "got {strat:?}");
    assert_eq!(&input[span.0..span.1], "${FL");
}

#[test]
fn dispatch_path_with_var_prefix() {
    // `$HOME/proj` cursor at end gives Files with parent="$HOME/", prefix="proj".
    // The cursor is past the var sub, so we fall through to path slicing.
    let input = "echo $HOME/proj";
    let (strat, _) = dispatch(input, input.len());
    match strat {
        CompStrat::Files { prefix, parent } => {
            assert_eq!(prefix, "proj");
            assert_eq!(parent.as_deref(), Some("$HOME/"));
        }
        other => panic!("expected Files, got {other:?}"),
    }
}

#[test]
fn dispatch_simple_path_no_parent() {
    // `foo` cursor at end gives Files{prefix:"foo", parent:None}, span = leaf.
    let input = "echo foo";
    let (strat, span) = dispatch(input, input.len());
    match strat {
        CompStrat::Files { prefix, parent } => {
            assert_eq!(prefix, "foo");
            assert_eq!(parent, None);
        }
        other => panic!("expected Files, got {other:?}"),
    }
    assert_eq!(&input[span.0..span.1], "foo");
}

#[test]
fn dispatch_path_with_literal_parent() {
    // `bar/foo` cursor at end gives Files{prefix:"foo", parent:Some("bar/")}.
    let input = "echo bar/foo";
    let (strat, _) = dispatch(input, input.len());
    match strat {
        CompStrat::Files { prefix, parent } => {
            assert_eq!(prefix, "foo");
            assert_eq!(parent.as_deref(), Some("bar/"));
        }
        other => panic!("expected Files, got {other:?}"),
    }
}

#[test]
fn dispatch_empty_input_is_command() {
    // Empty input gives Command{prefix:""}.
    let (strat, _) = dispatch("", 0);
    assert!(matches!(strat, CompStrat::Command { .. }), "got {strat:?}");
    assert_eq!(prefix_of(&strat), "");
}

#[test]
fn dispatch_after_separator_is_command() {
    // `ls foo | ` cursor at end gives Command{prefix:""} (new pipeline segment).
    let input = "ls foo | ";
    let (strat, _) = dispatch(input, input.len());
    assert!(matches!(strat, CompStrat::Command { .. }), "got {strat:?}");
    assert_eq!(prefix_of(&strat), "");
}

#[test]
fn dispatch_in_gap_after_command_uses_zero_width_span() {
    // `echo ` cursor at end (after trailing space) gives Argument synthesized
    // from the predecessor. Replace span must be zero-width at cursor so
    // candidates are INSERTED, not replacing "echo".
    let input = "echo ";
    let (strat, span) = dispatch(input, input.len());
    assert!(matches!(strat, CompStrat::Argument { .. }), "got {strat:?}");
    assert_eq!(span, (input.len(), input.len()),
        "expected zero-width span at cursor, got {span:?}");
}

#[test]
fn dispatch_partial_command_name() {
    // `ls<cursor>` (cursor inside the command word) gives Command{prefix:"ls"}.
    let input = "ls";
    let (strat, span) = dispatch(input, input.len());
    assert!(matches!(strat, CompStrat::Command { .. }), "got {strat:?}");
    assert_eq!(prefix_of(&strat), "ls");
    assert_eq!(&input[span.0..span.1], "ls");
}

#[test]
fn dispatch_preserves_braces_under_string_recursion() {
    // A braced variable inside a string, with text after it.
    let input = "echo \"foo ${FL}/bar\"";
    let cursor = input.find("FL").unwrap() + 2;
    let (strat, span) = dispatch(input, cursor);
    assert!(matches!(strat, CompStrat::Var { .. }), "got {strat:?}");
    assert_eq!(&input[span.0..span.1], "${FL");
}

#[test]
fn wordbreak_equals_default() {
    let mut comp = SimpleCompleter::new();

    let line = "cmd --foo=bar".to_string();
    let cursor = line.len();
    let _ = comp.plan_broken(&tokens(&line), cursor, None);

    let eq_idx = line.find('=').unwrap();
    assert_eq!(
        comp.token_span.0,
        eq_idx + 1,
        "token_span.0 ({}) should be right after '=' ({})",
        comp.token_span.0,
        eq_idx
    );
}

#[test]
fn wordbreak_colon_when_set() {
    let mut comp = SimpleCompleter::new();
    let line = "scp host:foo".to_string();
    let cursor = line.len();
    let _ = comp.plan_broken(&tokens(&line), cursor, Some("=:"));

    let colon_idx = line.find(':').unwrap();
    assert_eq!(
        comp.token_span.0,
        colon_idx + 1,
        "token_span.0 ({}) should be right after ':' ({})",
        comp.token_span.0,
        colon_idx
    );
}

#[test]
fn wordbreak_rightmost_wins() {
    let mut comp = SimpleCompleter::new();
    let line = "cmd --opt=host:val".to_string();
    let cursor = line.len();
    let _ = comp.plan_broken(&tokens(&line), cursor, Some("=:"));

    let colon_idx = line.rfind(':').unwrap();
    assert_eq!(
        comp.token_span.0,
        colon_idx + 1,
        "should break at rightmost wordbreak char"
    );
}

#[test]
fn a_parent_is_grafted_after() {
    let mut comp = SimpleCompleter::new();
    let line = "echo bar/foo";
    let strat = comp.plan(&tokens(line), line.len());
    assert!(matches!(strat, CompStrat::Files { .. }));
    assert_eq!(comp.token_span, (5, 12));
    assert_eq!(comp.graft_pos, Some(9));
    assert!(comp.escape_candidates);
    let strat = comp.plan(&tokens("echo $FL"), 8);
    assert!(matches!(strat, CompStrat::Var { .. }));
    assert_eq!(comp.graft_pos, None);
    assert!(!comp.escape_candidates);
}

#[test]
fn words_break_behind_the_last_break() {
    let input = "cmd --opt=h\u{e9}:val";
    let tks = tokens(input);
    let mut comp = SimpleCompleter::new();
    let mut part = |at: usize, breaks: Option<&str>| {
        let strat = comp.plan_broken(&tks, at, breaks);
        (prefix_of(&strat).to_string(), comp.token_span)
    };
    assert_eq!(part(input.len(), Some("=:")), ("val".to_string(), (14, 17)));
    assert_eq!(part(input.len(), None), ("h\u{e9}:val".to_string(), (10, 17)));
    // A break behind the place does not count.
    assert_eq!(part(12, Some("=:")), ("h".to_string(), (10, 17)));
    assert_eq!(part(4, Some("=:")), ("".to_string(), (4, 17)));
    assert_eq!(part(input.len(), Some("")), ("--opt=h\u{e9}:val".to_string(), (4, 17)));
    // Only paths are broken.
    assert_eq!(part(3, Some("m")), ("cmd".to_string(), (0, 3)));
}

#[test]
fn a_broken_path_keeps_its_directory() {
    let line = "cmd --dir=a/b/c";
    let tks = tokens(line);
    let mut comp = SimpleCompleter::new();
    match comp.plan_broken(&tks, line.len(), None) {
        CompStrat::Files { prefix, parent } => {
            assert_eq!(prefix, "c");
            assert_eq!(parent.as_deref(), Some("a/b/"));
        }
        other => panic!("expected Files, got {other:?}"),
    }
    assert_eq!(comp.token_span, (10, 15));
    assert_eq!(comp.graft_pos, Some(14));
    // A break behind the directory leaves none.
    let line = "cmd a/b=c";
    match comp.plan_broken(&tokens(line), line.len(), None) {
        CompStrat::Files { prefix, parent } => {
            assert_eq!(prefix, "c");
            assert_eq!(parent, None);
        }
        other => panic!("expected Files, got {other:?}"),
    }
    assert_eq!(comp.token_span, (8, 9));
    assert_eq!(comp.graft_pos, None);
}
