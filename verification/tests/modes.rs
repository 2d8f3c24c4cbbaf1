//! Editing modes and what the line editor decides.

use shed::editcmd::{Direction, EditCmd, Motion, MotionCmd, ReadSrc, RegisterName, Verb, VerbCmd, WriteDest};
use shed::editmode::emacs::Emacs;
use shed::editmode::ex::{ex_command_name_is_valid, failure_message, parse_edit, parse_ex_command, parse_ex_input, parse_pattern, parse_read, parse_write, path_to_expand, unescape_shell_cmd, CharTracker, Expansion};
use shed::editmode::{common_cmds, CmdReplay, ModeReport};
use shed::browse::scroll_history_virtual;
use shed::editor::{CoreOut, EditorCore, Mode, ModeTraits};
use shed::keys::{KeyCode, KeyEvent, ModKeys};
use shed::complete::candidate::{Candidate, CompResponse};
use shed::history::{HistEntry, History};
use shed::lineedit::{after_cmd, curr_keymap_flags, dispatch_key, finish_cmd, fix_editing_mode, flush_pending_keymap, handle_completion_key, handle_keymap, handle_tab, keymap_step, leave_joining, macro_to_play, preview_first, reset_active_widget, resolve_key, should_submit, start_hist_search, start_macro, start_tab, submit_line, tab_direction, AfterCmd, CompStep, Completion, HintWorker, KeyUse, KeymapStep, LineCmd, MacroPlay, MacroRecord, Route, SearchStart, SimpleEditor, SubmitStep, TabStart, TabStep, Widget};
use shed::linebuf::buffer::{LineBuf, Viewport};
use shed::register::{ClipboardProvider, ClipboardTools, RegisterContent, Registers, Selection};
use shed::vimode::ex::{get_path, parse_ex_cmd};
use shed::vimode::ViVerbatim;

const VIEW: Viewport = Viewport { height: 10, scroll_offset: 2 };

fn key(k: KeyCode) -> KeyEvent {
    KeyEvent(k, ModKeys::empty())
}

fn traits() -> ModeTraits {
    ModeTraits { clamping: vec![ModeReport::Normal], repeatable: vec![ModeReport::Insert] }
}

fn verb(v: Verb) -> EditCmd {
    let mut cmd = EditCmd::new();
    cmd.set_verb(VerbCmd(1, v));
    cmd
}

fn entry(command: &str) -> HistEntry {
    HistEntry { runtime: 0, timestamp: 0, command: command.to_string(), cwd: String::new(), status: 0, token: String::new() }
}

fn no_tools() -> ClipboardTools {
    ClipboardTools { pbcopy: false, wayland: false, wl_copy: false, wayclip: false, display: false, xsel: false, xclip: false, termux: false, tmux_session: false, tmux: false }
}

#[test]
fn emacs_types_characters() {
    let mut m = Emacs::new();
    let cmd = m.handle_key(key(KeyCode::Char('x'))).unwrap();
    assert!(matches!(cmd.verb(), Some(VerbCmd(1, Verb::InsertChar('x')))));
    let cmd = m.handle_key(key(KeyCode::Backspace)).unwrap();
    assert!(matches!(cmd.verb(), Some(VerbCmd(_, Verb::Delete))));
    assert!(matches!(m.report_mode(), ModeReport::Emacs));
    assert!(!m.clamp_cursor());
}

#[test]
fn common_keys_move() {
    let cmd = common_cmds(key(KeyCode::Left)).unwrap();
    assert!(matches!(cmd.motion(), Some(MotionCmd(1, Motion::BackwardChar))));
    let cmd = common_cmds(key(KeyCode::End)).unwrap();
    assert!(matches!(cmd.motion(), Some(MotionCmd(1, Motion::EndOfLine))));
    assert!(common_cmds(key(KeyCode::Char('x'))).is_none());
}

#[test]
fn a_simple_editor_edits() {
    let mut e = SimpleEditor::new(None);
    for c in "hello".chars() {
        e.handle_key(key(KeyCode::Char(c)), VIEW, &[]);
    }
    assert_eq!(e.buf.joined(), "hello");
    e.handle_key(key(KeyCode::Backspace), VIEW, &[]);
    assert_eq!(e.buf.joined(), "hell");
}

#[test]
fn ex_commands_are_parsed() {
    assert!(matches!(parse_ex_input("d", &Expansion::AsTyped).unwrap().unwrap().verb, Some(VerbCmd(1, Verb::Delete))));
    assert!(parse_ex_input("nonsense!", &Expansion::AsTyped).is_err());
    assert!(ex_command_name_is_valid("write"));
    assert!(!ex_command_name_is_valid("wrote"));
    assert_eq!(unescape_shell_cmd(&['a', '\\', '"']), "a\"");
    let mut t = CharTracker::new("a b/rest");
    assert_eq!(parse_pattern(&mut t, '/').unwrap(), "a b");
    assert_eq!(t.peek(), Some('r'));
    let m = failure_message("zz", None);
    assert!(m.contains("zz"));
}

#[test]
fn vi_ex_commands_are_parsed() {
    let cmd = parse_ex_cmd("s/a/b/g", None).unwrap().unwrap();
    assert!(matches!(cmd.verb(), Some(VerbCmd(_, Verb::Substitute(a, b, f))) if a == "a" && b == "b" && f.global), "{cmd:?}");
    assert!(parse_ex_cmd("zz", None).is_err());
    assert_eq!(get_path("~/x", Some("/home/ann")), "/home/ann/x");
    assert_eq!(get_path("/x", None), "/x");
}

#[test]
fn verbatim_takes_the_next_key() {
    let mut v = ViVerbatim::new();
    let cmd = v.handle_key(key(KeyCode::Verbatim("\t".to_string()))).unwrap();
    assert!(matches!(cmd.verb(), Some(VerbCmd(_, Verb::Insert(s))) if s == "\t"));
    assert!(v.is_repeatable());
}

#[test]
fn modes_change() {
    let mut c = EditorCore::headless("abc", VIEW, traits());
    c.set_mode(ModeReport::Insert);
    let out = c.exec_cmd(verb(Verb::NormalMode), false, None, VIEW, &[], None);
    assert!(matches!(out, CoreOut::Fired(_)), "{out:?}");
    assert!(matches!(c.mode.report, ModeReport::Normal));
    assert_eq!(c.text(), "abc");
    let old = c.swap_mode(Mode::new(ModeReport::Insert, 1));
    assert!(matches!(old.report, ModeReport::Normal));
}

#[test]
fn keys_reach_the_editor() {
    let mut c = EditorCore::headless("abc", VIEW, traits());
    assert!(c.feed_key(None, None, VIEW, &[], None).is_none());
    assert!(!c.needs_redraw);
    let mut delete = verb(Verb::Delete);
    delete.set_motion(MotionCmd(1, Motion::ForwardChar));
    assert!(matches!(c.feed_key(Some(delete), None, VIEW, &[], None), Some(CoreOut::Fired(_))));
    assert!(c.needs_redraw);
    assert!(!c.mode_changed);
    assert_eq!(c.text(), "bc");
    assert!(c.submit_cmdline().is_none());
    c.set_mode(ModeReport::Ex);
    assert!(matches!(c.submit_cmdline(), Some(KeyEvent(KeyCode::Enter, _))));
}

#[test]
fn a_command_on_a_selection_is_repeated_on_its_shape() {
    let mut c = EditorCore::headless("abc", VIEW, traits());
    c.exec_cmd(verb(Verb::VisualMode), false, None, VIEW, &[], None);
    assert!(matches!(c.mode.report, ModeReport::Visual));
    c.exec_cmd(verb(Verb::Delete), false, Some(Motion::WholeLine), VIEW, &[], None);
    assert!(matches!(c.mode.report, ModeReport::Normal));
    match c.repeat_action {
        Some(CmdReplay::Single(cmd)) => assert!(matches!(cmd.motion(), Some(MotionCmd(1, Motion::WholeLine)))),
        other => panic!("expected a command, got {other:?}"),
    }
}

#[test]
fn ex_parsers_leave_the_rest() {
    let mut t = CharTracker::new("s/a/b/gxi");
    assert!(parse_ex_command(&mut t, &Expansion::AsTyped).is_err());
    assert_eq!(t.peek(), Some('i'));
    let mut t = CharTracker::new("delete now");
    assert!(parse_ex_command(&mut t, &Expansion::AsTyped).is_ok());
    assert_eq!(t.pos(), 6);
    let mut t = CharTracker::new("  file ");
    assert!(parse_read(&mut t, &Expansion::AsTyped).is_ok());
    assert_eq!(t.peek(), None);
}

#[test]
fn commands_are_repeated() {
    let mut c = EditorCore::headless("abcdef", VIEW, traits());
    let mut delete = verb(Verb::Delete);
    delete.set_motion(MotionCmd(1, Motion::ForwardChar));
    c.exec_cmd(delete, false, None, VIEW, &[], None);
    let mut again = EditCmd::new();
    again.set_verb(VerbCmd(1, Verb::RepeatLast));
    assert!(c.can_exec(&again));
    let CoreOut::Replay(steps) = c.exec_cmd(again, false, None, VIEW, &[], None) else {
        panic!("expected steps");
    };
    assert_eq!(steps.len(), 1);
    for step in steps {
        c.replay_step(step, None, VIEW, &[], None);
    }
    assert_eq!(c.text(), "cdef");
    let mut leaving = verb(Verb::Undo);
    leaving.flags.exit_cur_mode = true;
    assert!(!c.can_exec(&leaving));
}

#[test]
fn replays_keep_their_commands() {
    assert!(matches!(CmdReplay::single(verb(Verb::Undo)), CmdReplay::Single(_)));
    assert!(matches!(CmdReplay::motion(Motion::LineUp), CmdReplay::Motion(_)));
}

#[test]
fn macros_are_recorded() {
    let mut m = MacroRecord::Idle;
    let mut regs = Registers::new();
    m.start_recording(RegisterName::new(Some('q'), None));
    assert!(m.is_recording());
    m.feed_key_event(key(KeyCode::Char('x')));
    assert!(m.status().is_some());
    m.commit_recording(&mut regs, "x");
    assert!(!m.is_recording());
    assert!(matches!(regs.read(Some('q'), None), Some(RegisterContent::Macro(k)) if k.len() == 1));
}

#[test]
fn registers_hold_what_was_written() {
    let mut regs = Registers::new();
    regs.write(Some('a'), RegisterContent::Span(shed::linebuf::lines::to_lines("one")));
    regs.append(Some('a'), RegisterContent::Span(shed::linebuf::lines::to_lines("two")), vec![], "");
    match regs.read(Some('a'), None) {
        Some(RegisterContent::Span(v)) => assert_eq!(v.len(), 2),
        other => panic!("expected a span, got {other:?}"),
    }
    assert!(matches!(regs.read(Some('b'), None), Some(RegisterContent::Empty)));
    assert!(regs.read(Some('!'), None).is_none());
    assert_eq!(Registers::resolve_key(Some('A')), Some('a'));
}

#[test]
fn clipboards_copy_and_paste() {
    let p = ClipboardProvider::detect(ClipboardTools { wayland: true, wl_copy: true, ..no_tools() });
    assert!(matches!(p, ClipboardProvider::WlCopy));
    assert!(p.copy_argv(Selection::Clipboard).is_some());
    assert!(p.paste_argv(Selection::Clipboard).is_some());
    let p = ClipboardProvider::detect(no_tools());
    assert!(matches!(p, ClipboardProvider::Osc52));
    assert!(p.copy_argv(Selection::Clipboard).is_none());
    assert!(matches!(Selection::from_char('*'), Some(Selection::Primary)));
    assert!(Selection::from_char('x').is_none());
}

#[test]
fn keys_go_where_they_belong() {
    assert!(matches!(dispatch_key(true, true, true, true), Route::Finder));
    assert!(matches!(dispatch_key(false, true, false, false), Route::Completer));
    assert!(matches!(dispatch_key(false, false, false, false), Route::Keymaps));
    assert!(matches!(keymap_step(0, false), KeymapStep::Drain));
    assert!(matches!(keymap_step(1, true), KeymapStep::Run));
    assert!(matches!(keymap_step(2, false), KeymapStep::Wait));
    assert!(curr_keymap_flags(ModeReport::Insert, false).insert);
    assert!(matches!(fix_editing_mode(false, ModeReport::Insert), Some(ModeReport::Emacs)));
    assert!(fix_editing_mode(true, ModeReport::Insert).is_none());
    assert_eq!(tab_direction(ModKeys::empty()), 1);
    assert_eq!(tab_direction(ModKeys::shift()), -1);
}

#[test]
fn tabs_expand_first() {
    let commands = vec!["make all".to_string()];
    let mut h = History::attach("shed_history", "main", 100);
    let mut b = LineBuf::new().with_initial("sudo !!", 7, VIEW);
    let tab = key(KeyCode::Tab);
    let r = start_tab(&mut b, &mut h, &tab, ModeReport::Insert, &commands, &vec![], VIEW);
    assert!(matches!(r, TabStart::Expanded));
    assert_eq!(b.joined(), "sudo make all");
    match start_tab(&mut b, &mut h, &tab, ModeReport::Insert, &commands, &vec![], VIEW) {
        TabStart::Complete(line, cursor, direction, ex) => {
            assert_eq!(line, "sudo make all");
            assert_eq!(cursor, 13);
            assert_eq!(direction, 1);
            assert!(!ex);
        }
        other => panic!("expected a completion, got {other:?}"),
    }
    let mut b = LineBuf::new().with_initial("!!", 2, VIEW);
    let r = start_tab(&mut b, &mut h, &KeyEvent(KeyCode::Tab, ModKeys::shift()), ModeReport::Ex, &commands, &vec![], VIEW);
    assert!(matches!(r, TabStart::Complete(_, 2, -1, true)));
    assert!(matches!(start_tab(&mut b, &mut h, &key(KeyCode::Enter), ModeReport::Ex, &commands, &vec![], VIEW), TabStart::Unrelated));
}

#[test]
fn lines_are_run() {
    let commands = vec!["make all".to_string()];
    let mut h = History::attach("shed_history", "main", 100);
    let mut run = |text: &str, depth: usize, goes_on: bool| {
        let mut b = LineBuf::new().with_initial(text, text.len(), VIEW);
        let r = submit_line(&mut b, &mut h, ModeReport::Insert, &commands, &vec![], depth, false, goes_on, true, VIEW);
        (r, b.joined())
    };
    assert!(matches!(run("!!", 0, true), (SubmitStep::Expanded, t) if t == "make all"));
    assert!(matches!(run(" ls ", 0, true), (SubmitStep::Line(l), t) if l == "ls" && t.is_empty()));
    assert!(matches!(run("if x", 1, true), (SubmitStep::GoesOn, t) if t == "if x"));
    assert!(matches!(run("if x", 1, false), (SubmitStep::Line(l), _) if l == "if x"));
    assert!(matches!(run("ls \\", 0, true), (SubmitStep::GoesOn, _)));
}

#[test]
fn macros_are_played() {
    let mut m = MacroRecord::Idle;
    let mut regs = Registers::new();
    assert!(!start_macro(&mut m, RegisterName::new(None, None), &mut regs));
    assert!(!m.is_recording());
    let q = || RegisterName::new(Some('q'), None);
    assert!(start_macro(&mut m, q(), &mut regs));
    assert!(m.is_recording());
    assert!(matches!(macro_to_play(q(), None, &regs, None), MacroPlay::Nothing));
    m.feed_key_event(key(KeyCode::Char('x')));
    m.commit_recording(&mut regs, "x");
    assert!(matches!(macro_to_play(q(), None, &regs, None), MacroPlay::Keys(k) if k.len() == 1));
    assert!(matches!(macro_to_play(RegisterName::new(None, None), Some(q()), &regs, None), MacroPlay::Keys(_)));
    assert!(matches!(macro_to_play(RegisterName::new(None, None), None, &regs, None), MacroPlay::Nothing));
    regs.write(Some('w'), RegisterContent::Span(shed::linebuf::lines::to_lines("dw")));
    assert!(matches!(macro_to_play(RegisterName::new(Some('w'), None), None, &regs, None), MacroPlay::Text(t) if t == "dw"));
}

#[test]
fn commands_end() {
    let mut h = History::attach("shed_history", "main", 100);
    h.constrain_entries(None);
    let mut c = EditorCore::headless("abc", VIEW, traits());
    let mut delete = verb(Verb::Delete);
    delete.set_motion(MotionCmd(1, Motion::ForwardChar));
    let at = c.editor.cursor.pos;
    c.exec_cmd(delete.clone(), false, None, VIEW, &[], None);
    let (what, n, refresh) = finish_cmd(&mut c, &mut h, &delete, "abc", at, 1, VIEW);
    assert!(matches!(what, AfterCmd::Changed));
    assert_eq!(n, 1);
    assert!(!refresh);
    assert!(h.mask_stale);
    assert!(!c.needs_redraw);
    let (what, _, _) = finish_cmd(&mut c, &mut h, &delete, "bc", at, 1, VIEW);
    assert!(matches!(what, AfterCmd::Bell));
    let mut scroll = EditCmd::new();
    scroll.set_motion(MotionCmd(1, Motion::HalfScreenDown));
    let at = c.editor.cursor.pos;
    let (what, n, _) = finish_cmd(&mut c, &mut h, &scroll, "bc", at, 2, VIEW);
    assert!(matches!(what, AfterCmd::Nothing));
    assert_eq!(n, 3);
    let (what, n, _) = finish_cmd(&mut c, &mut h, &scroll, "bc", at, 3, VIEW);
    assert!(matches!(what, AfterCmd::Warn));
    assert_eq!(n, 0);
}

#[test]
fn hints_are_asked_for_at_the_end() {
    let mut w = HintWorker::new();
    let mut b = LineBuf::new().with_initial("ls", 0, VIEW);
    assert!(w.try_comp_hint(&b).is_none());
    b.move_cursor_to_end();
    assert!(w.try_comp_hint(&b).is_some());
    assert!(w.try_comp_hint(&b).is_none());
    assert!(w.try_comp_hint(&LineBuf::new()).is_none());
}

#[test]
fn joining_ends_with_other_commands() {
    let mut h = History::attach("shed_history", "main", 100);
    h.take_loaded(vec![entry("one"), entry("two")]);
    h.constrain_entries(None);
    let mut b = LineBuf::new().with_initial("x", 1, VIEW);
    scroll_history_virtual(&mut b, &mut h, true, 1, false, VIEW);
    assert!(h.is_virtual_scrolling());
    leave_joining(&mut b, &mut h, &LineCmd::ScrollHistVirtual(EditCmd::new()));
    assert!(h.is_virtual_scrolling());
    leave_joining(&mut b, &mut h, &LineCmd::AppendHint);
    assert!(!h.is_virtual_scrolling());
    assert!(b.concat_points.is_empty());
}

#[test]
fn tabs_complete() {
    assert!(matches!(handle_tab(Completion::Failed), TabStep::Forget));
    assert!(matches!(handle_tab(Completion::Match), TabStep::Apply));
    let b = LineBuf::new().with_initial("ec", 2, VIEW);
    assert!(matches!(resolve_key(&b, ModeReport::Insert, false, &key(KeyCode::Tab)), KeyUse::Complete));
    let b = LineBuf::new().with_initial("", 0, VIEW);
    assert!(matches!(resolve_key(&b, ModeReport::Insert, false, &key(KeyCode::Char('x'))), KeyUse::Mode));
}

#[test]
fn open_blocks_are_not_submitted() {
    let b = LineBuf::new().with_initial("echo", 4, VIEW);
    assert!(should_submit(&b, ModeReport::Insert, 0, false));
    assert!(!should_submit(&b, ModeReport::Insert, 1, false));
}

#[test]
fn ignored_keys_ring() {
    let (what, n) = after_cmd(0, true, true, false, false, false);
    assert!(matches!(what, AfterCmd::Changed));
    assert_eq!(n, 0);
    let mut w = HintWorker::new();
    let first = w.dispatch_worker("ls", 2);
    assert!(first.is_some());
    assert!(w.dispatch_worker("ls", 2).is_none());
    assert!(w.dispatch_worker("ls ", 3) > first);
}

#[test]
fn opposites_undo_each_other() {
    let m = MotionCmd(1, Motion::CharSearch(Direction::Forward, shed::editcmd::Dest::On, shed::linebuf::line::Grapheme::from_char('x')));
    let back = m.invert_char_motion();
    assert!(matches!(&back.1, Motion::CharSearch(Direction::Backward, _, _)));
    assert!(matches!(back.invert_char_motion().1, Motion::CharSearch(Direction::Forward, _, _)));
}

fn history(commands: &[&str]) -> History {
    let mut h = History::attach("shed_history", "main", 100);
    let entries = commands
        .iter()
        .enumerate()
        .map(|(i, c)| HistEntry { runtime: 0, timestamp: i as i64, command: c.to_string(), cwd: String::new(), status: 0, token: format!("t{i}") })
        .collect();
    h.refresh_hist_entries(entries);
    h.constrain_entries(None);
    h
}

#[test]
fn candidates_are_taken_into_the_line() {
    let mut h = history(&[]);
    let mut b = LineBuf::new().with_initial("echo fo", 7, VIEW);
    let r = handle_completion_key(&mut b, &mut h, CompResponse::Accept(Candidate::from_text("foo")), "echo foo", 5, VIEW);
    assert!(matches!(r, CompStep::Chosen));
    assert_eq!(b.joined(), "echo foo");
    assert_eq!(b.cursor_to_flat(), 8);
    let r = handle_completion_key(&mut b, &mut h, CompResponse::Preview(Candidate::from_text("far")), "echo far", 5, VIEW);
    assert!(matches!(r, CompStep::Going));
    assert_eq!(b.joined(), "echo far");
    let r = handle_completion_key(&mut b, &mut h, CompResponse::DismissPassthrough, "", 0, VIEW);
    assert!(matches!(r, CompStep::ClosedUnused));
    assert_eq!(b.joined(), "echo far");
    let r = handle_completion_key(&mut b, &mut h, CompResponse::Passthrough, "", 0, VIEW);
    assert!(matches!(r, CompStep::Unused));
}

#[test]
fn a_search_opens() {
    let mut b = LineBuf::new().with_initial("gi", 2, VIEW);
    let mut h = history(&["git log", "ls", "git status"]);
    assert!(matches!(start_hist_search(&mut b, &mut h, VIEW), SearchStart::Open));
    assert_eq!(b.joined(), "gi");
    let kept = preview_first(&mut b, &h, VIEW).unwrap();
    assert_eq!(kept, ("gi".to_string(), 2));
    assert!(b.joined().starts_with("git"));
    let mut b = LineBuf::new().with_initial("", 0, VIEW);
    let mut h = history(&["only one"]);
    assert!(matches!(start_hist_search(&mut b, &mut h, VIEW), SearchStart::Chosen));
    assert_eq!(b.joined(), "only one");
    let mut h = history(&[]);
    assert!(matches!(start_hist_search(&mut b, &mut h, VIEW), SearchStart::Failed));
    assert!(preview_first(&mut b, &h, VIEW).is_none());
}

#[test]
fn key_maps_take_keys() {
    let mut pending = vec![];
    assert!(handle_keymap(&mut pending, key(KeyCode::Char('j')), 2, None).is_empty());
    assert_eq!(pending.len(), 1);
    let run = handle_keymap(&mut pending, key(KeyCode::Char('k')), 1, Some(vec![key(KeyCode::Esc)]));
    assert_eq!(run.len(), 1);
    assert!(matches!(run[0].0, KeyCode::Esc));
    assert!(pending.is_empty());
    handle_keymap(&mut pending, key(KeyCode::Char('j')), 2, None);
    let run = handle_keymap(&mut pending, key(KeyCode::Char('x')), 0, None);
    assert_eq!(run.len(), 2);
    handle_keymap(&mut pending, key(KeyCode::Char('j')), 2, None);
    assert_eq!(flush_pending_keymap(&mut pending, None).len(), 1);
    assert!(flush_pending_keymap(&mut pending, Some(vec![key(KeyCode::Esc)])).is_empty());
}

#[test]
fn what_is_given_up() {
    assert!(matches!(reset_active_widget(true, true), Widget::Completer));
    assert!(matches!(reset_active_widget(false, true), Widget::Finder));
    assert!(matches!(reset_active_widget(false, false), Widget::Line));
    assert!(matches!(LineCmd::switch_to_normal(), LineCmd::Execute(c) if matches!(c.verb(), Some(VerbCmd(1, Verb::NormalMode)))));
}

#[test]
fn ex_paths_are_expanded() {
    let words = Expansion::Words(vec!["/home/ann/a".to_string(), "b".to_string()]);
    assert_eq!(path_to_expand("r ~/a* "), Some("~/a*".to_string()));
    assert_eq!(path_to_expand("g/x/w out"), Some("out".to_string()));
    assert_eq!(path_to_expand("r !ls"), None);
    assert_eq!(path_to_expand("d"), None);
    let mut t = CharTracker::new(" ~/a*");
    assert!(matches!(parse_read(&mut t, &words), Ok(Some(Verb::Read(ReadSrc::File(p)))) if p == "/home/ann/a b"));
    let mut t = CharTracker::new(" >> ~/a*");
    assert!(matches!(parse_write(&mut t, &words), Ok(Some(Verb::Write(WriteDest::FileAppend(p)))) if p == "/home/ann/a b"));
    let mut t = CharTracker::new(" ~/a*");
    assert!(matches!(parse_write(&mut t, &words), Ok(Some(Verb::Write(WriteDest::File(p)))) if p == "/home/ann/a b"));
    let mut t = CharTracker::new(" ~/a*");
    assert!(matches!(parse_edit(&mut t, &words), Ok(Some(Verb::Edit(p))) if p == "/home/ann/a b"));
    let mut t = CharTracker::new("!ls");
    assert!(matches!(parse_read(&mut t, &words), Ok(Some(Verb::Read(ReadSrc::Cmd(c)))) if c == "ls"));
    let failed = Expansion::Failed("no match".to_string());
    match parse_ex_input("w x*", &failed) {
        Err(Some(m)) => assert_eq!(m, "Error expanding path: no match"),
        other => panic!("expected a failure, got {}", other.is_ok()),
    }
    assert!(parse_ex_input("d", &failed).is_ok());
}

#[test]
fn the_command_line_leads_back() {
    let mut c = EditorCore::headless("abc", VIEW, traits());
    c.exec_cmd(verb(Verb::ExMode), false, None, VIEW, &[], None);
    assert!(matches!(c.mode.report, ModeReport::Ex));
    assert!(matches!(&c.saved_mode, Some(m) if matches!(m.report, ModeReport::Normal)));
    assert_eq!(c.text(), "abc");
    let mut back = verb(Verb::NormalMode);
    back.flags.exit_cur_mode = true;
    c.exec_cmd(back.clone(), false, None, VIEW, &[], None);
    assert!(matches!(c.mode.report, ModeReport::Normal));
    assert!(c.saved_mode.is_none());
    c.exec_cmd(verb(Verb::VisualMode), false, None, VIEW, &[], None);
    c.exec_mode_transition(verb(Verb::ExMode), false, VIEW, &[], None);
    c.exec_mode_transition(back, false, VIEW, &[], None);
    assert!(matches!(c.mode.report, ModeReport::Normal));
    assert!(c.editor.select_mode.is_none());
}
