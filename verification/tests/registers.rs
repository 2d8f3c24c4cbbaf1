//! Registers.

use shed::keys::{KeyCode, KeyEvent, ModKeys};
use shed::linebuf::line::Line;
use shed::register::{Register, RegisterContent};

fn line(s: &str) -> Line {
    Line::from_text(s)
}

fn reg_with(content: RegisterContent) -> Register {
    let mut r = Register::default();
    r.write(content);
    r
}

#[test]
fn appending_empty_into_existing_is_noop() {
    let mut r = reg_with(RegisterContent::Span(vec![line("hello")]));
    r.append(RegisterContent::Empty, vec![], "");
    match r.content() {
        RegisterContent::Span(lines) => {
            assert_eq!(lines.len(), 1);
            assert_eq!(lines[0].to_string(), "hello");
        }
        other => panic!("expected Span, got {other:?}"),
    }
}

#[test]
fn appending_into_empty_overwrites() {
    let mut r = Register::default();
    r.append(RegisterContent::Span(vec![line("first")]), vec![], "");
    match r.content() {
        RegisterContent::Span(lines) => {
            assert_eq!(lines[0].to_string(), "first");
        }
        other => panic!("expected Span, got {other:?}"),
    }
}

#[test]
fn span_into_span_extends() {
    let mut r = reg_with(RegisterContent::Span(vec![line("a"), line("b")]));
    r.append(RegisterContent::Span(vec![line("c")]), vec![], "");
    match r.content() {
        RegisterContent::Span(lines) => {
            assert_eq!(lines.len(), 3);
            assert_eq!(lines[2].to_string(), "c");
        }
        other => panic!("expected Span, got {other:?}"),
    }
}

#[test]
fn line_into_block_extends_in_place() {
    let mut r = reg_with(RegisterContent::Block(vec![line("x")]));
    r.append(RegisterContent::Line(vec![line("y")]), vec![], "");
    match r.content() {
        RegisterContent::Block(lines) => assert_eq!(lines.len(), 2),
        other => panic!("expected Block, got {other:?}"),
    }
}

#[test]
fn macro_into_macro_extends() {
    let mut r = reg_with(RegisterContent::Macro(vec![KeyEvent(
        KeyCode::Char('a'),
        ModKeys::empty(),
    )]));
    r.append(RegisterContent::Macro(vec![KeyEvent(
        KeyCode::Char('b'),
        ModKeys::empty(),
    )]), vec![], "");
    match r.content() {
        RegisterContent::Macro(keys) => assert_eq!(keys.len(), 2),
        other => panic!("expected Macro, got {other:?}"),
    }
}

#[test]
fn text_into_macro_parses_as_keys() {
    let mut r = reg_with(RegisterContent::Macro(Vec::<KeyEvent>::new()));
    r.append(
        RegisterContent::Span(vec![line("ab")]),
        vec![
            KeyEvent(KeyCode::Char('a'), ModKeys::empty()),
            KeyEvent(KeyCode::Char('b'), ModKeys::empty()),
        ],
        "",
    );
    match r.content() {
        RegisterContent::Macro(keys) => {
                assert_eq!(keys.len(), 2);
        }
        other => panic!("expected Macro, got {other:?}"),
    }
}

#[test]
fn macro_into_text_renders_to_line() {
    let mut r = reg_with(RegisterContent::Span(vec![line("existing")]));
    r.append(RegisterContent::Macro(vec![
        KeyEvent(KeyCode::Char('a'), ModKeys::empty()),
        KeyEvent(KeyCode::Char('b'), ModKeys::empty()),
    ]), vec![], "ab");
    match r.content() {
        RegisterContent::Span(lines) => {
            // Original line + one rendered macro line.
            assert_eq!(lines.len(), 2);
            // Rendered "ab" as vim seq is "ab".
            assert_eq!(lines[1].to_string(), "ab");
        }
        other => panic!("expected Span, got {other:?}"),
    }
}
