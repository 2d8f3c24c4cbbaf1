//! How deep the lines of a command stand.

use shed::context::{CtxTk, CtxTkRule, Span};
use shed::linebuf::depth::depth_levels_from_tokens;

fn tk(input: &str, start: usize, end: usize, class: CtxTkRule, sub: Vec<CtxTk>) -> CtxTk {
    CtxTk::new(Span { start, end }, String::from(&input[start..end]), class, sub)
}

/// Where the bracket at `at` is closed.
fn closing(b: &[u8], at: usize) -> usize {
    let mut depth = 0;
    let mut i = at;
    while i < b.len() {
        if b[i] == b'(' {
            depth += 1;
        } else if b[i] == b')' {
            depth -= 1;
            if depth == 0 {
                return i + 1;
            }
        }
        i += 1;
    }
    b.len()
}

fn is_keyword(w: &str) -> bool {
    matches!(
        w,
        "if" | "then" | "elif" | "else" | "fi" | "for" | "while" | "until" | "select" | "do" | "done" | "case" | "esac" | "function"
    )
}

fn opens_command(w: &str) -> bool {
    matches!(w, "if" | "then" | "elif" | "else" | "while" | "until" | "do")
}

/// The tokens of a script without quotes.
fn tokens(input: &str, from: usize, to: usize) -> Vec<CtxTk> {
    let b = input.as_bytes();
    let mut out = vec![];
    let mut command = true;
    let mut i = from;
    while i < to {
        let c = b[i];
        if c == b' ' {
            i += 1;
        } else if c == b'\n' || c == b';' {
            let start = i;
            while i < to && matches!(b[i], b' ' | b'\n' | b';') {
                i += 1;
            }
            out.push(tk(input, start, i, CtxTkRule::Separator, vec![]));
            command = true;
        } else if c == b'$' && i + 1 < to && b[i + 1] == b'(' {
            let end = closing(b, i + 1);
            out.push(tk(input, i, end, CtxTkRule::CmdSub, tokens(input, i + 2, end - 1)));
            i = end;
            command = false;
        } else if c == b'(' && i + 1 < to && b[i + 1] == b'(' {
            let end = closing(b, i);
            out.push(tk(input, i, end, CtxTkRule::Arithmetic, vec![]));
            i = end;
            command = false;
        } else if c == b'(' && i > from && b[i - 1] == b'=' {
            let end = closing(b, i);
            out.push(tk(input, i, end, CtxTkRule::ArrayLiteral, vec![]));
            i = end;
            command = false;
        } else if matches!(c, b'(' | b')' | b'{' | b'}' | b'|') {
            out.push(tk(input, i, i + 1, CtxTkRule::Operator, vec![]));
            i += 1;
            command = true;
        } else {
            let start = i;
            while i < to && !matches!(b[i], b' ' | b'\n' | b';' | b'(' | b')' | b'|') && !(b[i] == b'$' && i + 1 < to && b[i + 1] == b'(') {
                i += 1;
            }
            if i + 1 < to && b[i] == b'(' && b[i + 1] == b')' {
                i += 2;
            }
            let word = &input[start..i];
            if command && is_keyword(word) {
                out.push(tk(input, start, i, CtxTkRule::Keyword, vec![]));
                command = opens_command(word);
            } else {
                let class = if command { CtxTkRule::ValidCommand } else { CtxTkRule::Argument };
                out.push(tk(input, start, i, class, vec![]));
                command = word.ends_with("()");
            }
        }
    }
    out
}

// For each row, how deep it stands at its start and at its end.
const BATTERY: &[(&str, &str, &[(usize, usize)])] = &[
    ("if 1-line", "if true; then\n  echo hi\nfi", &[(0,1),(1,1),(1,0)]),
    ("if multiline", "if true\nthen\n  echo hi\nfi", &[(0,1),(1,1),(1,1),(1,0)]),
    ("if/elif/else", "if a; then\n  b\nelif c; then\n  d\nelse\n  e\nfi", &[(0,1),(1,1),(1,1),(1,1),(1,1),(1,1),(1,0)]),
    ("nested if", "if a; then\n  if b; then\n    c\n  fi\nfi", &[(0,1),(1,2),(2,2),(2,1),(1,0)]),
    ("for/do/done", "for x in a b; do\n  echo $x\ndone", &[(0,1),(1,1),(1,0)]),
    ("while", "while true; do\n  echo hi\ndone", &[(0,1),(1,1),(1,0)]),
    ("func braces", "foo() {\n  bar() {\n    echo hi\n  }\n}", &[(0,1),(1,2),(2,2),(2,1),(1,0)]),
    ("brace group", "{\n  echo a\n  echo b\n}", &[(0,1),(1,1),(1,1),(1,0)]),
    ("subshell", "(\n  echo a\n  echo b\n)", &[(0,1),(1,1),(1,1),(1,0)]),
    ("cmdsub multiline", "x=$(\n  echo a\n)\necho $x", &[(0,0),(0,0),(0,0),(0,0)]),
    ("for inside if", "if a; then\n  for x in y; do\n    z\n  done\nfi", &[(0,1),(1,2),(2,2),(2,1),(1,0)]),
    ("unclosed if", "if true; then\n  echo hi", &[(0,1),(1,1)]),
    ("case", "case $x in\n  a)\n    echo a\n    ;;\nesac", &[(0,1),(1,2),(2,2),(2,1),(1,0)]),
    ("case multi-arm", "case $x in\n  a)\n    echo a\n    ;;\n  b)\n    echo b\n    ;;\nesac", &[(0,1),(1,2),(2,2),(2,1),(1,2),(2,2),(2,1),(1,0)]),
    ("case no trailing ;;", "case $x in\n  a)\n    echo a\nesac", &[(0,1),(1,2),(2,2),(2,0)]),
    ("case in if", "if t; then\n  case $x in\n    a)\n      b\n      ;;\n  esac\nfi", &[(0,1),(1,2),(2,3),(3,3),(3,2),(2,1),(1,0)]),
    ("case leading paren", "case $x in\n  (a|b)\n    echo ab\n    ;;\nesac", &[(0,1),(1,2),(2,2),(2,1),(1,0)]),
    ("subshell in arm", "case $x in\n  a)\n    (\n      echo a\n    )\n    ;;\nesac", &[(0,1),(1,2),(2,3),(3,3),(3,2),(2,1),(1,0)]),
    ("plain lines", "echo a\necho b\necho c", &[(0,0),(0,0),(0,0)]),
    ("array literal", "arr=(\n  a\n  b\n)", &[(0,1),(1,1),(1,1),(1,0)]),
    ("array one-line", "arr=(a b c)\necho hi", &[(0,0),(0,0)]),
    ("array in func", "f() {\n  x=(\n    a\n  )\n}", &[(0,1),(1,2),(2,2),(2,1),(1,0)]),
    ("function kw", "function foo {\n  echo hi\n}", &[(0,1),(1,1),(1,0)]),
    ("dbl bracket test", "if [[ -f x ]]; then\n  echo y\nfi", &[(0,1),(1,1),(1,0)]),
    ("arith command", "if (( 1 + 1 )); then\n  echo y\nfi", &[(0,1),(1,1),(1,0)]),
    ("nested everything", "for x in a; do\n  if [[ $x ]]; then\n    case $x in\n      a)\n        (\n          echo deep\n        )\n        ;;\n    esac\n  fi\ndone", &[(0,1),(1,2),(2,3),(3,4),(4,5),(5,5),(5,4),(4,3),(3,2),(2,1),(1,0)]),
    ("pipe across lines", "echo a |\n  grep b |\n  wc -l", &[(0,0),(0,0),(0,0)]),
    ("heredoc", "cat <<EOF\nbody\nEOF\necho done", &[(0,0),(0,0),(0,0),(0,0)]),
];

#[test]
fn depth_battery() {
    for (label, input, expected) in BATTERY {
        assert_eq!(depth_levels_from_tokens(&tokens(input, 0, input.len()), input), *expected, "{label}");
    }
}

#[test]
fn rows_follow_each_other() {
    for (label, input, _) in BATTERY {
        let levels = depth_levels_from_tokens(&tokens(input, 0, input.len()), input);
        assert_eq!(levels[0].0, 0, "{label}");
        for pair in levels.windows(2) {
            assert_eq!(pair[0].1, pair[1].0, "{label}");
        }
    }
}
