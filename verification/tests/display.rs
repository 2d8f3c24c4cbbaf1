//! What is shown: colors, the prompt and the screen.

use shed::editmode::ModeReport;
use shed::highlight::{is_filename, is_valid, resolve_style, strip_prefix_skip_visual, CommandFacts, FileFacts, HighlightTheme, Highlighter, Known};
use shed::markers::{is_marker, strip_markers, ASSIGNMENT, CMD_SUB, CMD_SUB_END, COMMAND, RESET, STRING_DQ, STRING_DQ_END, VAR_SUB, VAR_SUB_END, VISUAL_MODE_END, VISUAL_MODE_START};
use shed::prompt::{truncate_with_ellipsis, Prompt, StatusLine};
use shed::screen::{overlay_rows, print_line, take_first_line, take_one_line, viewport_cap, Ctl, Frame, ScreenState};
use shed::shopt::ShOpts;
use shed::term::width::{display_width, WidthCalculator};

const W: WidthCalculator = WidthCalculator::UnicodeWidth;

fn theme() -> HighlightTheme {
    HighlightTheme::resolve(&ShOpts::default().highlight, &[]).0
}

fn known(commands: &[&str]) -> Known {
    Known { annotated: vec![], commands: commands.iter().map(|s| s.to_string()).collect(), files: vec![] }
}

fn frame(prompt: &str, line: &str) -> Frame {
    Frame {
        w: W,
        t_rows: 24,
        t_cols: 80,
        final_draw: false,
        had_statline: false,
        statline: false,
        prompt: prompt.to_string(),
        prompt_right: None,
        line: line.to_string(),
        to_cursor: line.to_string(),
        scroll_offset: 0,
        total_lines: 1,
        line_numbers: false,
        mode: ModeReport::Insert,
        input_mode: false,
        pending: None,
        sub_text: String::new(),
        sub_cursor: None,
        cursor_style: String::new(),
        messages: vec![],
        completer_clear: None,
        finder_clear: None,
        overlay: 0,
    }
}

fn no_state() -> ScreenState {
    ScreenState { old_layout: None, blank_rows_above: 0, overlay_displacement: 0, overlay_cursor_offset: 0 }
}

#[test]
fn markers_are_stripped() {
    let s = format!("{COMMAND}ls{RESET} x");
    assert_eq!(strip_markers(&s), "ls x");
    assert_eq!(strip_markers(&strip_markers(&s)), "ls x");
    assert!(is_marker(COMMAND));
    assert!(!is_marker('a'));
    let v: Vec<char> = format!("{VISUAL_MODE_START}$x").chars().collect();
    assert_eq!(strip_prefix_skip_visual(&v, &['$']), vec!['x']);
}

#[test]
fn plain_text_is_kept() {
    let mut h = Highlighter::new();
    h.load_input("just text", 0);
    h.highlight(&theme(), &known(&[]));
    assert_eq!(h.take(), "just text\x1b[0m");
}

#[test]
fn commands_are_colored() {
    let t = theme();
    let mut h = Highlighter::new();
    h.load_input(&format!("{COMMAND}ls{RESET} x"), 0);
    h.highlight(&t, &known(&["ls"]));
    let good = h.take();
    assert!(good.starts_with(&t.valid_command));
    assert!(good.contains("ls"));
    let mut h = Highlighter::new();
    h.load_input(&format!("{COMMAND}zz{RESET} x"), 0);
    h.highlight(&t, &known(&["ls"]));
    assert!(h.take().starts_with(&t.invalid_command));
}

#[test]
fn only_the_selection_shows() {
    let t = theme();
    let mut h = Highlighter::new();
    h.only_visual(true);
    h.load_input(&format!("{COMMAND}ls{RESET} {VISUAL_MODE_START}x{VISUAL_MODE_END}"), 0);
    h.highlight(&t, &known(&["ls"]));
    let out = h.take();
    assert!(out.starts_with("ls "));
    assert!(out.contains(&t.selection));
}

#[test]
fn styles_nest() {
    let mut h = Highlighter::new();
    h.push_style("A");
    h.push_style("B");
    h.pop_style();
    assert_eq!(h.style_stack, vec!["A"]);
    assert!(h.output.ends_with('A'));
    h.clear_styles();
    let n = h.output.len();
    h.clear_styles();
    assert_eq!(h.output.len(), n);
}

#[test]
fn styles_are_resolved() {
    let colors = vec![("red bold".to_string(), "\x1b[1;31m".to_string())];
    assert_eq!(resolve_style("red bold", &colors), Some("\x1b[1;31m".to_string()));
    assert_eq!(resolve_style("no such color", &colors), None);
}

#[test]
fn commands_and_files_are_known() {
    assert!(is_valid("ls", &CommandFacts { is_dir: false, mode: None, cached: true }, false));
    assert!(!is_valid("ls", &CommandFacts { is_dir: false, mode: None, cached: false }, false));
    assert!(is_valid("src", &CommandFacts { is_dir: true, mode: None, cached: false }, true));
    assert!(is_filename("/x", &FileFacts { exists: true, siblings: None, file_name: None, cached: vec![] }));
    assert!(!is_filename("x", &FileFacts { exists: false, siblings: None, file_name: None, cached: vec![] }));
}

#[test]
fn status_lines_fill_the_width() {
    let s = StatusLine::new("left".to_string(), "mid".to_string(), "right".to_string());
    let out = s.render(W, 40);
    assert!(display_width(W, &out) <= 40);
    assert!(out.contains("left") && out.contains("mid") && out.contains("right"));
    assert_eq!(truncate_with_ellipsis(W, "abc", 5), "abc");
    assert!(display_width(W, &truncate_with_ellipsis(W, "abcdefgh", 4)) <= 4);
}

#[test]
fn prompts_are_expanded() {
    let p = Prompt::new(Some("$ ".to_string()), None, None);
    assert_eq!(p.get_ps1(), Some("$ "));
    let mut p = Prompt::new(None, None, Some("> ".to_string()));
    assert_eq!(p.get_ps1(), Some("> "));
    p.refresh();
    assert_eq!(p.get_ps1(), None);
}

#[test]
fn the_prompt_stays_on_screen() {
    assert!(viewport_cap(24, 2, 1, 0) <= 22);
    assert_eq!(viewport_cap(1, 5, 0, 0), 1);
    assert_eq!(overlay_rows(Some(3), None), 3);
    assert_eq!(overlay_rows(None, None), 0);
    assert_eq!(take_first_line("one\ntwo"), "one");
}

#[test]
fn a_line_is_printed() {
    let mut st = no_state();
    let d = print_line(&frame("$ ", "echo hi"), &mut st);
    assert_eq!(d.layout.cursor.col, 9);
    let shown: String = d.screen.ops.iter().map(|c| if let Ctl::Text(t) = c { t.as_str() } else { "" }).collect();
    assert!(shown.contains("$ "));
    assert!(shown.contains("echo hi"));
}

/// A text without its style codes.
fn unstyled(s: &str) -> String {
    let mut out = String::new();
    let mut rest = s;
    while let Some(i) = rest.find("\x1b[") {
        out.push_str(&rest[..i]);
        let end = rest[i..].find('m').unwrap();
        rest = &rest[i + end + 1..];
    }
    out.push_str(rest);
    out
}

#[test]
fn highlighting_keeps_the_text() {
    let inner = "ls \"$HOME\" | wc";
    let marked_inner = format!("{COMMAND}ls{RESET} {STRING_DQ}\"{VAR_SUB}$HOME{VAR_SUB_END}\"{STRING_DQ_END} | {COMMAND}wc{RESET}");
    let line = format!("x=1 echo $({inner}) y");
    let marked = format!("{ASSIGNMENT}x=1{RESET} {COMMAND}echo{RESET} {CMD_SUB}$({inner}){CMD_SUB_END} {VISUAL_MODE_START}y{VISUAL_MODE_END}");
    assert_eq!(strip_markers(&marked), line);
    let colors = vec![];
    let mut o = ShOpts::default().highlight;
    o.string = "\\e[32m".to_string();
    o.valid_command = "\\e[1;34m".to_string();
    o.invalid_command = "\\e[31m".to_string();
    o.variable = "\\e[36m".to_string();
    o.operator = "\\e[35m".to_string();
    o.selection = "\\e[7m".to_string();
    let t = HighlightTheme::resolve(&o, &colors).0;
    let k = Known {
        annotated: vec![(inner.to_string(), marked_inner)],
        commands: vec!["ls".to_string()],
        files: vec![],
    };
    let mut h = Highlighter::new();
    h.load_input(&marked, 7);
    h.highlight(&t, &k);
    let out = h.take();
    assert!(out.contains("\x1b[1;34mls"), "{out:?}");
    assert!(out.contains("\x1b[31mwc"), "{out:?}");
    assert_eq!(unstyled(&out), line);
    assert_eq!(h.linebuf_cursor_pos, 7);
    assert!(!h.only_hl_visual);
}

#[test]
fn the_right_prompt_is_one_line() {
    assert_eq!(take_one_line("one\ntwo"), "one");
    assert_eq!(take_one_line("one\r\ntwo\n"), "one");
    assert_eq!(take_one_line("one\n"), "one\n");
    assert_eq!(take_one_line("one"), "one");
    assert_eq!(take_one_line(""), "");
    let shown = |right: &str| {
        let mut f = frame("$ ", "ls");
        f.prompt_right = Some(right.to_string());
        let mut st = no_state();
        let d = print_line(&f, &mut st);
        d.screen.ops.iter().filter_map(|c| if let Ctl::Text(t) = c { Some(t.clone()) } else { None }).collect::<Vec<_>>()
    };
    assert!(shown("12:00\nmore").contains(&"12:00".to_string()));
    assert!(shown("12:00\n").contains(&"12:00\n".to_string()));
}
