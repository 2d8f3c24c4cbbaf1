//! Keys from bytes, widths and layouts.

use shed::keys::{KeyCode, KeyEvent, ModKeys};
use shed::term::layout::{append_digit, ends_with_newline, enumerate_lines, get_cursor_movement, send_bell, should_ring, win_size_or_default, Layout, Pos};
use shed::term::reader::{collect_key, cursor_report, move_cursor_at_leftmost, parse_esc_seq, read_digits_until, Collected, Heard, KeyCollector, PollReader, Report};
use shed::term::width::{calc_str_width, display_width, width_calculator, WidthCalculator};

const W: WidthCalculator = WidthCalculator::UnicodeWidth;

fn pos(row: u16, col: u16) -> Pos {
    Pos { row, col }
}

#[test]
fn printed_characters_are_keys() {
    let mut c = KeyCollector::new();
    c.print('a');
    c.print('\u{7f}');
    let KeyEvent(k, m) = c.pop().unwrap();
    assert!(matches!(k, KeyCode::Char('a')));
    assert!(m.is_empty());
    assert!(matches!(c.pop().unwrap().0, KeyCode::Backspace));
    assert!(c.pop().is_none());
}

#[test]
fn control_bytes_are_keys() {
    let mut c = KeyCollector::new();
    c.execute(0x0d);
    c.execute(0x09);
    c.execute(0x01);
    assert!(matches!(c.pop().unwrap().0, KeyCode::Enter));
    assert!(matches!(c.pop().unwrap().0, KeyCode::Tab));
    let KeyEvent(k, m) = c.pop().unwrap();
    assert!(matches!(k, KeyCode::Char('A')));
    assert_eq!(m, ModKeys::ctrl());
}

#[test]
fn sequences_are_keys() {
    let mut c = KeyCollector::new();
    c.csi_dispatch(&[], &[], 'A');
    c.csi_dispatch(&[1, 5], &[], 'C');
    c.csi_dispatch(&[3], &[], '~');
    c.csi_dispatch(&[], &[], 'Z');
    assert!(matches!(c.pop().unwrap().0, KeyCode::Up));
    let KeyEvent(k, m) = c.pop().unwrap();
    assert!(matches!(k, KeyCode::Right));
    assert_eq!(m, ModKeys::ctrl());
    assert!(matches!(c.pop().unwrap().0, KeyCode::Delete));
    let KeyEvent(k, m) = c.pop().unwrap();
    assert!(matches!(k, KeyCode::Tab | KeyCode::BackTab));
    assert!(m.shift || matches!(k, KeyCode::BackTab));
}

#[test]
fn modifiers_are_bits() {
    assert_eq!(KeyCollector::parse_modifiers(1), ModKeys::empty());
    assert_eq!(KeyCollector::parse_modifiers(2), ModKeys::shift());
    assert_eq!(KeyCollector::parse_modifiers(3), ModKeys::alt());
    assert_eq!(KeyCollector::parse_modifiers(5), ModKeys::ctrl());
}

#[test]
fn a_paste_is_whole() {
    let mut r = PollReader::new();
    r.feed_bytes(b"pasted \xc3\xa4\x1b[201~x");
    let KeyEvent(k, _) = r.handle_bracket_paste().unwrap();
    assert!(matches!(k, KeyCode::Verbatim(s) if s == "pasted \u{e4}"));
    assert_eq!(r.byte_buf, b"x");
    let mut r = PollReader::new();
    r.feed_bytes(b"\xff\x1b[201~");
    let KeyEvent(k, _) = r.handle_bracket_paste().unwrap();
    assert!(matches!(k, KeyCode::Verbatim(s) if s == "\u{fffd}"));
    let mut r = PollReader::new();
    r.feed_bytes(b"open end");
    assert!(r.handle_bracket_paste().is_none());
}

fn read_all(bytes: &[u8]) -> Vec<KeyEvent> {
    let mut r = PollReader::new();
    r.feed_bytes(bytes);
    let mut keys = vec![];
    while let Some(k) = r.read_key() {
        keys.push(k);
    }
    assert!(r.byte_buf.is_empty());
    keys
}

#[test]
fn bytes_become_keys() {
    let keys = read_all(b"a\xc3\xa4\r\x01\x1b[1;5C\x1b[3~\x1bOP\x7f");
    let none = ModKeys::empty();
    assert_eq!(keys.len(), 8);
    assert!(matches!(&keys[0], KeyEvent(KeyCode::Char('a'), m) if *m == none));
    assert!(matches!(&keys[1], KeyEvent(KeyCode::Char('\u{e4}'), m) if *m == none));
    assert!(matches!(&keys[2], KeyEvent(KeyCode::Enter, m) if *m == none));
    assert!(matches!(&keys[3], KeyEvent(KeyCode::Char('A'), m) if *m == ModKeys::ctrl()));
    assert!(matches!(&keys[4], KeyEvent(KeyCode::Right, m) if *m == ModKeys::ctrl()));
    assert!(matches!(&keys[5], KeyEvent(KeyCode::Delete, m) if *m == none));
    assert!(matches!(&keys[6], KeyEvent(KeyCode::F(1), m) if *m == none));
    assert!(matches!(&keys[7], KeyEvent(KeyCode::Backspace, m) if *m == none));
}

#[test]
fn bytes_may_come_in_pieces() {
    let mut r = PollReader::new();
    assert!(r.read_key().is_none());
    r.feed_bytes(b"\x1b[1;");
    assert!(r.read_key().is_none());
    assert!(r.byte_buf.is_empty());
    r.feed_bytes(b"2Axy");
    assert!(matches!(r.read_key(), Some(KeyEvent(KeyCode::Up, m)) if m == ModKeys::shift()));
    // No more bytes are taken than the key needs.
    assert_eq!(r.byte_buf, b"xy");
    r.feed_bytes(b"\xe2\x82");
    assert!(matches!(r.read_key(), Some(KeyEvent(KeyCode::Char('x'), _))));
    assert!(matches!(r.read_key(), Some(KeyEvent(KeyCode::Char('y'), _))));
    assert!(r.read_key().is_none());
    r.feed_bytes(b"\xac");
    assert!(matches!(r.read_key(), Some(KeyEvent(KeyCode::Char('\u{20ac}'), _))));
    // A character that breaks off gives two keys, one for each byte that comes.
    r.feed_bytes(b"\xe2z");
    assert!(matches!(r.read_key(), Some(KeyEvent(KeyCode::Char('\u{fffd}'), _))));
    assert!(r.read_key().is_none());
    r.feed_bytes(b"w");
    assert!(matches!(r.read_key(), Some(KeyEvent(KeyCode::Char('z'), _))));
}

#[test]
fn escapes_may_be_keys() {
    let keys = read_all(b"\x1b");
    assert!(matches!(keys.as_slice(), [KeyEvent(KeyCode::Esc, _)]));
    let keys = read_all(b"\x1bf");
    assert!(matches!(keys.as_slice(), [KeyEvent(KeyCode::Char('F'), m)] if *m == ModKeys::alt()));
    let keys = read_all(b"\x1b\x1b");
    assert!(matches!(keys.as_slice(), [KeyEvent(KeyCode::Esc, _), KeyEvent(KeyCode::Esc, _)]));
}

#[test]
fn pastes_are_read() {
    let keys = read_all(b"\x1b[200~ls \x1b[A\n\x1b[201~q");
    assert_eq!(keys.len(), 2);
    assert!(matches!(&keys[0].0, KeyCode::Verbatim(s) if s == "ls \x1b[A\n"));
    assert!(matches!(&keys[1].0, KeyCode::Char('q')));
    // Until the end comes nothing is read.
    let mut r = PollReader::new();
    r.feed_bytes(b"\x1b[200~one ");
    assert!(r.read_key().is_none());
    assert_eq!(r.byte_buf, b"one ");
    assert!(r.verbatim);
    assert!(r.read_key().is_none());
    r.feed_bytes(b"two\x1b[201~");
    assert!(matches!(r.read_key(), Some(KeyEvent(KeyCode::Verbatim(s), _)) if s == "one two"));
    assert!(!r.verbatim);
}

#[test]
fn the_next_bytes_may_be_one_key() {
    let mut r = PollReader::new();
    r.verbatim_single = true;
    assert!(r.read_key().is_none());
    assert!(r.verbatim_single);
    r.feed_bytes(b"\x1b[A");
    assert!(matches!(r.read_key(), Some(KeyEvent(KeyCode::Verbatim(s), _)) if s == "\x1b[A"));
    assert!(!r.verbatim_single);
}

#[test]
fn what_is_heard_is_collected() {
    let mut c = KeyCollector::new();
    c.hear(&Heard::Esc(b'O'));
    c.hear(&Heard::Print('Q'));
    c.hear(&Heard::Execute(0x09));
    c.hear(&Heard::Csi(vec![vec![97, 65], vec![5]], vec![], 'u'));
    c.hear(&Heard::Csi(vec![vec![0]], vec![b'<'], 'A'));
    assert!(matches!(c.pop(), Some(KeyEvent(KeyCode::F(2), _))));
    assert!(matches!(c.pop(), Some(KeyEvent(KeyCode::Tab, _))));
    assert!(matches!(c.pop(), Some(KeyEvent(KeyCode::Char('a'), m)) if m == ModKeys::ctrl()));
    assert!(c.pop().is_none());
}

#[test]
fn characters_are_collected() {
    assert!(matches!(collect_key(b"a", false), Collected::Text(s) if s == "a"));
    assert!(matches!(collect_key(b"\xc3", false), Collected::More));
    assert!(matches!(collect_key(b"\xc3\xa4", false), Collected::Text(s) if s == "\u{e4}"));
    assert!(matches!(collect_key(b"\x1b", true), Collected::Escape));
    assert!(matches!(collect_key(b"\xff\xff\xff\xff", false), Collected::GiveUp));
}

#[test]
fn escapes_are_parsed() {
    let (KeyEvent(k, _), n) = parse_esc_seq(b"[A").unwrap();
    assert!(matches!(k, KeyCode::Up));
    assert_eq!(n, 2);
    let (KeyEvent(k, _), _) = parse_esc_seq(b"[3~").unwrap();
    assert!(matches!(k, KeyCode::Delete));
}

#[test]
fn reports_are_read() {
    assert!(matches!(cursor_report(b"\x1b[12;34R"), Report::At(12, 34)));
    assert!(matches!(cursor_report(b""), Report::More));
    assert!(matches!(cursor_report(b"x"), Report::Other));
    assert_eq!(read_digits_until(b"12;", 0, b';'), Some((Some(12), 3)));
    assert_eq!(append_digit(12, 3), 123);
    assert_eq!(move_cursor_at_leftmost(Some(1), true), None);
    assert!(move_cursor_at_leftmost(Some(4), true).is_some());
}

#[test]
fn widths_skip_escapes() {
    assert_eq!(display_width(W, "abc"), 3);
    assert_eq!(display_width(W, "\x1b[31mabc\x1b[0m"), 3);
    assert_eq!(display_width(W, "世界"), 4);
    assert_eq!(calc_str_width(W, ""), 0);
    assert_eq!(W.width("\u{e4}"), 1);
    assert_eq!(WidthCalculator::cwidth('世'), 2);
}

#[test]
fn terminals_count_alike() {
    assert_eq!(width_calculator(None, None), WidthCalculator::WcWidth);
}

#[test]
fn texts_are_laid_out() {
    let l = Layout::from_parts(W, 10, "$ ", "abc", "abcdef");
    assert_eq!(l.prompt_end, pos(0, 2));
    assert_eq!(l.cursor, pos(0, 5));
    assert_eq!(l.end, pos(0, 8));
    let l = Layout::from_parts(W, 5, "$ ", "abcd", "abcd");
    assert_eq!(l.end, pos(1, 1));
    assert_eq!(Layout::calc_pos(W, 20, "a\tb", pos(0, 0), 0, false), pos(0, 9));
    assert_eq!(Layout::calc_pos(W, 20, "a\nbc", pos(0, 0), 0, false), pos(1, 2));
}

#[test]
fn staying_sends_nothing() {
    assert_eq!(get_cursor_movement(pos(3, 4), pos(3, 4)), "");
    assert_eq!(get_cursor_movement(pos(3, 4), pos(1, 4)), "\x1b[2A");
    assert_eq!(get_cursor_movement(pos(0, 0), pos(1, 2)), "\x1b[B\x1b[2C");
}

#[test]
fn lines_are_numbered() {
    assert_eq!(enumerate_lines("one", 2, true, 0, 1), "one");
    let out = enumerate_lines("one\ntwo", 4, true, 0, 2);
    assert!(out.starts_with("one\n"));
    assert!(out.ends_with("two"));
    assert!(out.contains('2'));
    assert!(ends_with_newline("a\n"));
    assert!(!ends_with_newline("a"));
}

#[test]
fn bells_rest() {
    assert!(should_ring(true, None, 100));
    assert!(!should_ring(false, None, 100));
    assert!(!should_ring(true, Some(5), 100));
    assert!(should_ring(true, Some(500), 100));
    assert_eq!(send_bell(true, None), Some("\x07"));
    assert_eq!(send_bell(false, None), None);
    for _ in 0..200 {
        assert_eq!(send_bell(true, Some(50)), None);
        assert_eq!(send_bell(true, Some(150)), Some("\x07"));
    }
    assert_eq!(win_size_or_default(Some((0, 0))), (80, u16::MAX));
    assert_eq!(win_size_or_default(Some((100, 30))), (100, 30));
    assert_eq!(win_size_or_default(None), (80, 24));
}
