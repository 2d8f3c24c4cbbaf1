//! The command history and what is put aside.

use shed::browse::{browse, scroll_history, scroll_history_virtual};
use shed::history::{add_entry, cache_key, excess, ids_clause, is_recorded, is_stored, latest_time, merge_kind, merge_loaded, parse_i32, plan_delete, resolve_hist_token, retain_surviving, sort_by_time, HistEntry, History, MergeResult, Node};
use shed::linebuf::buffer::{LineBuf, Viewport};
use shed::stash::{check_stashed, list, stash_entry, stash_lookup, stash_ref, StashRef};

const VIEW: Viewport = Viewport { height: 10, scroll_offset: 2 };

fn entry(command: &str, timestamp: i64) -> HistEntry {
    HistEntry { runtime: 0, timestamp, command: command.to_string(), cwd: String::new(), status: 0, token: format!("t{timestamp}") }
}

fn commands(v: &[HistEntry]) -> Vec<&str> {
    v.iter().map(|e| e.command()).collect()
}

fn node(token: &str, parent: Option<&str>) -> Node {
    Node { token: token.to_string(), parent: parent.map(|s| s.to_string()), joint: None }
}

fn strings(v: &[&str]) -> Vec<String> {
    v.iter().map(|s| s.to_string()).collect()
}

fn loaded(v: &[&str]) -> History {
    let mut h = History::attach("shed_history", "main", 100);
    h.take_loaded(v.iter().enumerate().map(|(i, c)| entry(c, i as i64)).collect());
    h.constrain_entries(None);
    h
}

#[test]
fn an_added_entry_is_last_and_once() {
    let mut v = vec![entry("ls", 1), entry("cd", 2)];
    add_entry(&mut v, entry("ls", 3));
    assert_eq!(commands(&v), vec!["cd", "ls"]);
    let mut v = vec![entry("ls", 1)];
    merge_loaded(&mut v, vec![entry("pwd", 5)]);
    assert_eq!(v.len(), 2);
}

#[test]
fn deleted_entries_go() {
    let mut v = vec![entry("ls", 1), entry("cd", 2)];
    retain_surviving(&mut v, &strings(&["ls"]));
    assert_eq!(commands(&v), vec!["cd"]);
    assert_eq!(latest_time(&v, 0), 2);
    assert_eq!(latest_time(&vec![], 9), 9);
    let v = sort_by_time(vec![entry("b", 2), entry("a", 1)]);
    assert_eq!(commands(&v), vec!["a", "b"]);
}

#[test]
fn what_is_recorded() {
    assert!(is_recorded("ls", true));
    assert!(!is_recorded(" ls", true));
    assert!(is_recorded(" ls", false));
    assert!(!is_recorded("", false));
    assert!(is_stored("ls", false, None, true));
    assert!(!is_stored("ls", false, Some("ls"), true));
    assert_eq!(excess(12, Some(10)), Some(2));
    assert_eq!(excess(8, Some(10)), None);
    assert_eq!(excess(8, None), None);
    assert_eq!(ids_clause(3), "WHERE id IN (?1, ?2, ?3)");
    assert_eq!(cache_key("a", "b"), "a/b");
}

#[test]
fn branches_are_merged() {
    assert!(matches!(merge_kind(true, true, false), MergeResult::UpToDate));
    assert!(matches!(merge_kind(true, false, true), MergeResult::FastForward));
    assert!(matches!(merge_kind(true, false, false), MergeResult::Merged));
}

#[test]
fn references_survive_deletion() {
    let nodes = vec![node("a", None), node("b", Some("a")), node("c", Some("b"))];
    let branches = vec![("main".to_string(), "b".to_string())];
    let (remaps, heads) = plan_delete(&nodes, &strings(&["b"]), &branches);
    assert_eq!(remaps.len(), 1);
    assert_eq!(remaps[0].token, "c");
    assert_eq!(remaps[0].parent, Some("a".to_string()));
    assert_eq!(heads, vec![("main".to_string(), Some("a".to_string()))]);
}

#[test]
fn tokens_name_commands() {
    let v = strings(&["echo one", "ls -l", "echo two"]);
    assert_eq!(resolve_hist_token("1", &v), Some("echo one".to_string()));
    assert_eq!(resolve_hist_token("-1", &v), Some("echo two".to_string()));
    assert_eq!(resolve_hist_token("echo", &v), Some("echo two".to_string()));
    assert_eq!(resolve_hist_token("!!", &v), Some("echo two".to_string()));
    assert_eq!(resolve_hist_token("!$", &v), Some("two".to_string()));
    assert_eq!(resolve_hist_token("zzz", &v), None);
    assert_eq!(resolve_hist_token("99", &v), None);
    assert_eq!(parse_i32("-12"), Some(-12));
    assert_eq!(parse_i32("1x"), None);
}

#[test]
fn moving_back_returns() {
    let mut h = loaded(&["one", "two", "three"]);
    assert!(h.at_pending());
    assert_eq!(h.scroll(-1).unwrap().command(), "three");
    assert_eq!(h.scroll(-1).unwrap().command(), "two");
    assert_eq!(h.scroll(1).unwrap().command(), "three");
    assert!(h.scroll(1).is_none());
    assert!(h.at_pending());
    assert_eq!(h.scroll_to(0).unwrap().command(), "one");
    h.reset_to_pending();
    assert!(h.at_pending());
}

#[test]
fn only_matching_entries_are_walked() {
    let mut h = loaded(&["git status", "ls", "git log"]);
    h.constrain_entries(Some("git"));
    assert_eq!(h.search_mask_count(), 2);
    assert_eq!(h.scroll(-2).unwrap().command(), "git status");
}

#[test]
fn a_hint_comes_from_the_history() {
    let mut h = loaded(&["git status"]);
    h.update_pending_cmd("git", 3, VIEW);
    h.constrain_entries(Some("git"));
    assert_eq!(h.get_hint(), Some("git status".to_string()));
}

#[test]
fn browsing_swaps_the_buffer() {
    let mut h = loaded(&["one", "two"]);
    let mut b = LineBuf::new().with_initial("typed", 5, VIEW);
    h.update_pending_cmd("typed", 5, VIEW);
    h.constrain_entries(None);
    assert!(browse(&mut b, &mut h, -1, VIEW));
    assert_eq!(b.joined(), "two");
    assert!(browse(&mut b, &mut h, 1, VIEW));
    assert_eq!(b.joined(), "typed");
}

#[test]
fn scrolling_shows_what_begins_alike() {
    let mut h = loaded(&["git log", "ls", "git status"]);
    let mut b = LineBuf::new().with_initial("git", 3, VIEW);
    assert!(scroll_history(&mut b, &mut h, 1, false, VIEW));
    assert_eq!(b.joined(), "git");
    // the place was behind all three entries, and is now behind the two that are left
    assert!(scroll_history(&mut b, &mut h, -1, false, VIEW));
    assert_eq!(b.joined(), "git");
    assert!(!scroll_history(&mut b, &mut h, -1, false, VIEW));
    assert_eq!(b.joined(), "git status");
    assert!(!scroll_history(&mut b, &mut h, -1, false, VIEW));
    assert_eq!(b.joined(), "git log");
}

#[test]
fn entries_are_joined_and_taken_off() {
    let mut h = loaded(&["one", "two"]);
    let mut b = LineBuf::new().with_initial("three", 5, VIEW);
    scroll_history_virtual(&mut b, &mut h, true, 2, true, VIEW);
    assert_eq!(b.joined(), "one && two && three");
    scroll_history_virtual(&mut b, &mut h, false, 1, true, VIEW);
    assert_eq!(b.joined(), "two && three");
    scroll_history_virtual(&mut b, &mut h, false, 5, true, VIEW);
    assert_eq!(b.joined(), "");
    assert!(!h.is_virtual_scrolling());
}

#[test]
fn stashes_have_names_or_places() {
    assert!(matches!(stash_ref("2"), StashRef::Index(2)));
    assert!(matches!(stash_ref("work"), StashRef::Name(n) if n == "work"));
    assert!(matches!(stash_lookup("work"), StashRef::Name(_)));
    let e = stash_entry(Some("work"), "ls", (0, 2)).unwrap();
    assert_eq!(e.buffer, "ls");
    assert!(check_stashed(&e).is_ok());
    assert_eq!(e.cursor_pos, "0:2");
    assert!(stash_entry(Some("12"), "ls", (0, 0)).is_err());
    let shown = list(&strings(&["ls"]), &[("work".to_string(), "make".to_string())], false, false);
    assert!(shown.contains("ls"));
    assert!(shown.contains("make"));
    assert!(!list(&strings(&["pwd"]), &[], true, false).contains("pwd"));
}
