//! The edit buffer: motions, verbs, undo, and the lines beneath.

use shed::editcmd::{Anchor, Bound, Dest, Direction, EditCmd, Motion, MotionCmd, TextObj, To, Verb, VerbCmd, Word};
use shed::linebuf::bang::{last_word, resolve_bang, Bang};
use shed::linebuf::buffer::{height_setting, HeightSetting, KillRing, LineBuf, Viewport};
use shed::linebuf::edit::{splice_lines, Diff};
use shed::linebuf::line::{to_graphemes, CharClass, Grapheme, Line};
use shed::linebuf::lines::{attach_lines, extract_range_contiguous, insert_lines, join_lines, split_lines_at, split_rows, to_lines};
use shed::linebuf::numbers::{add_to_number, parse_i64};
use shed::linebuf::ops::{dedent_line, indent_line, recast_gr, Recase};
use shed::linebuf::pos::{ordered_rows, rot13, rot13_char, toggle_case_char, Pos};
use shed::linebuf::scan::{find_delim_match, partner_of};
use shed::linebuf::verbs::Effect;
use shed::register::RegisterContent;

const VIEW: Viewport = Viewport { height: 10, scroll_offset: 2 };

fn at(row: usize, col: usize) -> Pos {
    Pos { row, col }
}

fn buffer(text: &str, cursor: usize) -> LineBuf {
    LineBuf::new().with_initial(text, cursor, VIEW)
}

/// A buffer whose cursor stays on the text, as in normal mode.
fn normal(text: &str, cursor: usize) -> LineBuf {
    let mut b = buffer(text, cursor);
    b.set_cursor_clamp(true);
    b
}

fn verb(v: Verb) -> EditCmd {
    let mut cmd = EditCmd::new();
    cmd.set_verb(VerbCmd(1, v));
    cmd
}

fn moving(count: usize, m: Motion) -> EditCmd {
    let mut cmd = EditCmd::new();
    cmd.set_motion(MotionCmd(count, m));
    cmd
}

fn over(v: Verb, m: Motion) -> EditCmd {
    let mut cmd = verb(v);
    cmd.set_motion(MotionCmd(1, m));
    cmd
}

fn run(b: &mut LineBuf, cmd: EditCmd) -> Effect {
    b.try_exec_cmd(cmd, VIEW, &[], None).unwrap()
}

fn put(b: &mut LineBuf, text: &str) -> Effect {
    let reg = RegisterContent::Span(to_lines(text));
    b.try_exec_cmd(verb(Verb::Put(Anchor::After)), VIEW, &[], Some(reg)).unwrap()
}

fn chars(s: &str) -> Vec<char> {
    s.chars().collect()
}

#[test]
fn a_cluster_is_one_grapheme() {
    let g = to_graphemes("e\u{301}x\u{1F468}\u{200D}\u{1F469}\u{200D}\u{1F467}");
    assert_eq!(g.len(), 3);
    assert_eq!(g[0].to_string(), "e\u{301}");
    assert_eq!(g[1].as_char(), Some('x'));
    assert_eq!(g[2].as_char(), None);
    assert_eq!(g[2].chars().len(), 5);
    let l = Line::from_text("e\u{301}x");
    assert_eq!(l.len(), 2);
    assert_eq!(l.to_string(), "e\u{301}x");
}

#[test]
fn widths_are_counted_in_columns() {
    assert_eq!(Grapheme::from_char('a').width(), 1);
    assert_eq!(Grapheme::from_char('世').width(), 2);
    assert_eq!(Line::from_text("a世b").width(), 4);
    assert_eq!(Line::from_text("").width(), 0);
}

#[test]
fn classes_of_graphemes() {
    assert_eq!(Grapheme::from_char('a').class(), CharClass::Alphanum);
    assert_eq!(Grapheme::from_char('_').class(), CharClass::Alphanum);
    assert_eq!(Grapheme::from_char(' ').class(), CharClass::Whitespace);
    assert_eq!(Grapheme::from_char('-').class(), CharClass::Symbol);
    assert!(Grapheme::from_char('\u{3000}').is_ws());
    assert!(CharClass::Symbol.is_other_class_or_ws(&CharClass::Alphanum));
    assert!(!CharClass::Symbol.is_other_class(&CharClass::Symbol));
}

#[test]
fn white_space_is_a_short_list() {
    let listed = |n: u32| {
        matches!(n, 0x9..=0xd | 0x20 | 0x85 | 0xa0 | 0x1680 | 0x2000..=0x200a | 0x2028 | 0x2029 | 0x202f | 0x205f | 0x3000)
    };
    for n in 0..=0x10ffffu32 {
        if let Some(c) = char::from_u32(n) {
            assert_eq!(Grapheme::from_char(c).is_ws(), listed(n), "{n:x}");
        }
    }
}

#[test]
fn ascii_letters_and_digits_make_words() {
    for b in 0..0x80u8 {
        let c = b as char;
        let word = matches!(c, 'a'..='z' | 'A'..='Z' | '0'..='9' | '_');
        assert_eq!(Grapheme::from_char(c).class() == CharClass::Alphanum, word, "{c:?}");
    }
    assert_eq!(Grapheme::from_char('\u{e9}').class(), CharClass::Alphanum);
}

#[test]
fn a_text_is_split_into_rows() {
    assert_eq!(split_rows("a\nb\n"), vec!["a", "b", ""]);
    assert_eq!(split_rows(""), vec![""]);
    let lines = to_lines("one\ntwo");
    assert_eq!(lines.len(), 2);
    assert_eq!(join_lines(&lines), "one\ntwo");
}

#[test]
fn splitting_and_attaching() {
    let mut lines = to_lines("one\ntwo");
    let mut rest = split_lines_at(&mut lines, at(0, 2));
    assert_eq!(join_lines(&lines), "on");
    assert_eq!(join_lines(&rest), "e\ntwo");
    attach_lines(&mut lines, &mut rest);
    assert_eq!(join_lines(&lines), "one\ntwo");
}

#[test]
fn extracting_and_inserting() {
    let mut lines = to_lines("hello\nworld");
    let out = extract_range_contiguous(&mut lines, at(0, 3), at(1, 2));
    assert_eq!(join_lines(&lines), "helrld");
    assert_eq!(join_lines(&out), "lo\nwo");
    insert_lines(&mut lines, at(0, 3), out);
    assert_eq!(join_lines(&lines), "hello\nworld");
}

#[test]
fn a_difference_brings_back_either_text() {
    let before = to_lines("echo one\nls");
    let after = to_lines("echo two\nls");
    let d = Diff::new(&before, &after);
    assert_eq!(d.start, at(0, 5));
    assert_eq!(d.removed, "one");
    assert_eq!(d.inserted, "two");
    let mut b = to_lines("echo two\nls");
    splice_lines(&mut b, d.start, &d.inserted, &d.removed);
    assert_eq!(join_lines(&b), "echo one\nls");
}

#[test]
fn rot13_twice_is_nothing() {
    assert_eq!(rot13_char('a'), 'n');
    assert_eq!(rot13_char('Z'), 'M');
    assert_eq!(rot13_char('5'), '5');
    assert_eq!(rot13("Hello"), "Uryyb");
    assert_eq!(rot13(&rot13("Hello, 1!")), "Hello, 1!");
}

#[test]
fn case_toggles_back() {
    assert_eq!(toggle_case_char('a'), 'A');
    assert_eq!(toggle_case_char('A'), 'a');
    assert_eq!(toggle_case_char('1'), '1');
    assert_eq!(recast_gr(&Grapheme::from_char('q'), Recase::Upper).to_string(), "Q");
    assert_eq!(recast_gr(&Grapheme::from_char('Q'), Recase::Lower).to_string(), "q");
    assert_eq!(recast_gr(&Grapheme::from_char('q'), Recase::Replace('x')).to_string(), "x");
}

#[test]
fn rows_come_in_order() {
    assert_eq!(ordered_rows(3, 1), (1, 3));
    assert_eq!(ordered_rows(1, 3), (1, 3));
}

#[test]
fn indents_are_tabs() {
    let mut l = Line::from_text("x");
    indent_line(&mut l, 2);
    assert_eq!(l.to_string(), "\t\tx");
    dedent_line(&mut l, 1);
    assert_eq!(l.to_string(), "\tx");
    dedent_line(&mut l, 5);
    assert_eq!(l.to_string(), "x");
}

#[test]
fn numbers_in_each_radix() {
    assert_eq!(parse_i64(&chars("ff"), 16), Some(255));
    assert_eq!(parse_i64(&chars("-12"), 10), Some(-12));
    assert_eq!(parse_i64(&chars("9223372036854775808"), 10), None);
    assert_eq!(parse_i64(&chars("12x"), 10), None);
    assert_eq!(add_to_number(&chars("9"), 1), Some(chars("10")));
    assert_eq!(add_to_number(&chars("0x0f"), 1), Some(chars("0x10")));
    assert_eq!(add_to_number(&chars("0b01"), 1), Some(chars("0b10")));
    assert_eq!(add_to_number(&chars("007"), 1), Some(chars("008")));
    assert_eq!(add_to_number(&chars("x"), 1), None);
}

#[test]
fn delimiters_have_partners() {
    assert_eq!(partner_of('('), Some((')', true)));
    assert_eq!(partner_of(']'), Some(('[', false)));
    assert_eq!(partner_of('x'), None);
    assert!(find_delim_match(&to_lines("f(a(b)c)"), at(0, 1)).is_some());
    assert!(find_delim_match(&to_lines("f(a"), at(0, 1)).is_none());
}

#[test]
fn a_word_is_deleted() {
    let mut b = normal("echo hello world", 5);
    let out = run(&mut b, over(Verb::Delete, Motion::WordMotion(To::Start, Word::Normal, Direction::Forward)));
    assert_eq!(b.joined(), "echo world");
    match out {
        Effect::Store(RegisterContent::Span(v)) => assert_eq!(join_lines(&v), "hello "),
        other => panic!("expected a span, got {other:?}"),
    }
}

#[test]
fn an_inner_word_is_taken() {
    let mut b = normal("one two three", 5);
    run(&mut b, over(Verb::Delete, Motion::TextObj(TextObj::Word(Word::Normal, Bound::Inside))));
    assert_eq!(b.joined(), "one  three");
    let mut b = normal("one two three", 5);
    run(&mut b, over(Verb::Delete, Motion::TextObj(TextObj::Word(Word::Normal, Bound::Around))));
    assert_eq!(b.joined(), "one three");
}

#[test]
fn quotes_and_brackets_are_objects() {
    let mut b = normal("say \"hi there\" now", 6);
    run(&mut b, over(Verb::Delete, Motion::TextObj(TextObj::DoubleQuote(Bound::Inside))));
    assert_eq!(b.joined(), "say \"\" now");
    let mut b = normal("f(a, b) x", 3);
    run(&mut b, over(Verb::Delete, Motion::TextObj(TextObj::Paren(Bound::Around))));
    assert_eq!(b.joined(), "f x");
}

#[test]
fn motions_move_the_cursor() {
    let mut b = normal("echo hello world", 0);
    run(&mut b, moving(1, Motion::WordMotion(To::Start, Word::Normal, Direction::Forward)));
    assert_eq!(b.cursor.pos, at(0, 5));
    run(&mut b, moving(1, Motion::WordMotion(To::End, Word::Normal, Direction::Forward)));
    assert_eq!(b.cursor.pos, at(0, 9));
    run(&mut b, moving(2, Motion::WordMotion(To::Start, Word::Normal, Direction::Backward)));
    assert_eq!(b.cursor.pos, at(0, 0));
    run(&mut b, moving(1, Motion::CharSearch(Direction::Forward, Dest::On, Grapheme::from_char('w'))));
    assert_eq!(b.cursor.pos, at(0, 11));
    run(&mut b, moving(1, Motion::EndOfLine));
    assert_eq!(b.cursor.pos, at(0, 15));
    run(&mut b, moving(1, Motion::StartOfLine));
    assert_eq!(b.cursor.pos, at(0, 0));
    run(&mut b, moving(3, Motion::ForwardChar));
    assert_eq!(b.cursor.pos, at(0, 3));
}

#[test]
fn rows_are_remembered_by_column() {
    let mut b = normal("abcdef\nx\nabcdef", 4);
    run(&mut b, moving(1, Motion::LineDown));
    assert_eq!(b.cursor.pos, at(1, 0));
    run(&mut b, moving(1, Motion::LineDown));
    assert_eq!(b.cursor.pos, at(2, 4));
}

#[test]
fn a_change_is_undone_and_redone() {
    let mut b = normal("echo hello", 5);
    run(&mut b, over(Verb::Delete, Motion::EndOfLine));
    let changed = b.joined();
    assert_ne!(changed, "echo hello");
    run(&mut b, verb(Verb::Undo));
    assert_eq!(b.joined(), "echo hello");
    run(&mut b, verb(Verb::Redo));
    assert_eq!(b.joined(), changed);
}

#[test]
fn a_typed_run_is_one_step() {
    let mut b = buffer("", 0);
    for c in "hello".chars() {
        run(&mut b, over(Verb::InsertChar(c), Motion::ForwardChar));
    }
    assert_eq!(b.joined(), "hello");
    run(&mut b, verb(Verb::Undo));
    assert_eq!(b.joined(), "");
}

#[test]
fn a_change_ends_redo() {
    let mut b = normal("abc", 0);
    run(&mut b, over(Verb::Delete, Motion::ForwardChar));
    run(&mut b, verb(Verb::Undo));
    run(&mut b, verb(Verb::ToggleCaseInplace(1)));
    let now = b.joined();
    run(&mut b, verb(Verb::Redo));
    assert_eq!(b.joined(), now);
}

#[test]
fn the_cursor_stays_on_the_text() {
    let mut b = normal("abc", 2);
    run(&mut b, over(Verb::Delete, Motion::WholeLine));
    assert_eq!(b.cursor.pos, at(0, 0));
    run(&mut b, moving(9, Motion::ForwardChar));
    assert_eq!(b.cursor.pos, at(0, 0));
}

#[test]
fn registers_are_put_after_the_cursor() {
    let mut b = normal("ad", 0);
    put(&mut b, "bc");
    assert_eq!(b.joined(), "abcd");
}

#[test]
fn lines_are_joined() {
    let mut b = normal("one\n  two", 0);
    run(&mut b, verb(Verb::JoinLines));
    assert_eq!(b.joined(), "one two");
}

#[test]
fn numbers_are_counted_up() {
    let mut b = normal("v 41 x", 2);
    run(&mut b, verb(Verb::IncrementNumber(1)));
    assert_eq!(b.joined(), "v 42 x");
    run(&mut b, verb(Verb::DecrementNumber(2)));
    assert_eq!(b.joined(), "v 40 x");
}

#[test]
fn characters_are_transposed() {
    let mut b = buffer("ab", 1);
    run(&mut b, verb(Verb::TransposeChar));
    assert_eq!(b.joined(), "ba");
}

#[test]
fn kills_come_back_last_first() {
    let mut ring = KillRing::new();
    ring.push_back(to_lines("one"));
    ring.push_back(to_lines("two"));
    assert_eq!(ring.len(), 2);
    assert_eq!(join_lines(&ring.next().unwrap()), "two");
    assert_eq!(join_lines(&ring.next().unwrap()), "one");
}

#[test]
fn the_kill_ring_is_bounded() {
    let mut ring = KillRing::new();
    for i in 0..500 {
        ring.push_back(to_lines(&format!("{i}")));
    }
    assert!(ring.len() < 500);
    assert_eq!(join_lines(&ring.pop_back().unwrap()), "499");
}

#[test]
fn places_are_numbered_through() {
    let b = buffer("ab\ncd", 0);
    assert_eq!(b.pos_to_flat(at(1, 1)), 4);
    assert_eq!(b.pos_from_flat(4), at(1, 1));
    assert_eq!(b.pos_from_flat(2), at(0, 2));
    assert_eq!(b.pos_to_flat(at(0, 2)), 2);
}

#[test]
fn a_hint_is_accepted() {
    let mut b = buffer("git c", 5);
    b.set_hint(Some("git commit"));
    assert!(b.has_hint());
    b.accept_hint(VIEW);
    assert_eq!(b.joined(), "git commit");
    assert!(!b.has_hint());
}

#[test]
fn joining_on_either_side_comes_off() {
    let mut b = buffer("b", 0);
    b.concat_left(" && ", "a");
    assert_eq!(b.joined(), "a && b");
    assert!(b.pop_left(VIEW));
    assert_eq!(b.joined(), "b");
    b.concat_right("; ", "c\nd");
    assert_eq!(b.joined(), "b; c\nd");
    assert!(b.pop_right(VIEW));
    assert_eq!(b.joined(), "b");
    assert!(!b.pop_right(VIEW));
}

#[test]
fn history_words() {
    assert_eq!(last_word("git commit -m x"), Some("x".to_string()));
    assert_eq!(last_word("  "), None);
    let last = Some("echo one two".to_string());
    assert_eq!(resolve_bang(&Bang::Last, &last, &None), Some("echo one two".to_string()));
    assert_eq!(resolve_bang(&Bang::LastWord, &last, &None), Some("two".to_string()));
    assert_eq!(resolve_bang(&Bang::Last, &None, &None), None);
    let found = Some("ls -l".to_string());
    assert_eq!(resolve_bang(&Bang::Token("ls".to_string()), &last, &found), Some("ls -l".to_string()));
}

#[test]
fn bangs_are_found_outside_single_quotes() {
    let b = buffer("sudo !! '!!' !$ !ls", 0);
    let found = b.find_bangs();
    assert_eq!(found.len(), 3);
    assert!(matches!(found[0].what, Bang::Last));
    assert_eq!(found[0].start, at(0, 5));
    assert!(matches!(found[1].what, Bang::LastWord));
    assert!(matches!(&found[2].what, Bang::Token(t) if t == "ls"));
}

#[test]
fn bangs_are_replaced() {
    let mut b = buffer("sudo !!", 7);
    let commands = vec!["ls -l src".to_string(), "make all".to_string()];
    assert!(b.attempt_history_expansion(&commands, &vec![vec![]]));
    assert_eq!(b.joined(), "sudo make all");
    assert!(!b.attempt_history_expansion(&commands, &vec![]));
    assert_eq!(b.joined(), "sudo make all");
    let mut b = buffer("cat !$ !ls !7 '!!'", 0);
    assert!(b.attempt_history_expansion(&commands, &vec![]));
    assert_eq!(b.joined(), "cat all ls -l src 7 '!!'");
    let mut b = buffer("!!", 0);
    assert!(!b.attempt_history_expansion(&[], &vec![]));
}

#[test]
fn the_window_follows_the_cursor() {
    let text: Vec<String> = (0..30).map(|i| format!("l{i}")).collect();
    let mut b = buffer(&text.join("\n"), 0);
    b.set_cursor(at(20, 0));
    b.update_scroll_offset(VIEW);
    assert_eq!(b.get_viewport_height(10), 10);
    assert_eq!(b.scroll_offset, 13);
    assert_eq!(b.get_window(10)[0].to_string(), "l13");
    b.set_cursor(at(5, 0));
    b.update_scroll_offset(VIEW);
    assert_eq!(b.scroll_offset, 3);
}

#[test]
fn a_shell_command_may_change_the_buffer() {
    let mut b = buffer("abc", 1);
    let (text, cursor, anchor) = b.shell_vars();
    assert_eq!(text, "abc");
    assert_eq!(cursor, "1");
    assert_eq!(anchor, "");
    b.after_shell("xyz", "2", "2", 1, VIEW);
    assert_eq!(b.joined(), "xyz");
    assert_eq!(b.cursor.pos, at(0, 2));
}

#[test]
fn heights_are_rows_or_percent() {
    assert!(matches!(height_setting("12"), HeightSetting::Rows(12)));
    assert!(matches!(height_setting("30%"), HeightSetting::Percent(30)));
    assert!(matches!(height_setting("tall"), HeightSetting::Percent(50)));
    assert!(matches!(height_setting(""), HeightSetting::Percent(50)));
}
