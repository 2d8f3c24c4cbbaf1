//! Completion: names, scores, candidates, cycling and escaping.

use shed::complete::boxed::BoxSelector;
use shed::complete::align::{fuzzy_align, fuzzy_match_score, match_positions};
use shed::complete::candidate::{sort_candidates, Candidate, CompResult, SelectorResponse};
use shed::complete::cells::{caret_notation, emphasize, one_line, truncate_to_width};
use shed::complete::clamped::ClampedUsize;
use shed::complete::compspec::{BashCompSpec, CompFlags, CompOpts, FoundKinds};
use shed::complete::escape::{ends_with_unescaped, escape_str};
use shed::complete::fuzzy::{fuzzy_best_match, fuzzy_best_match_with, FuzzyBuilder, FuzzyCompleter, FuzzySelector};
use shed::complete::grid::{column_escape, common_prefix_len, pack_columns, scroll_into_view, step_column, up_escape, GridCompleter, GridSelector};
use shed::complete::listwin::{candidate_height, ListWindow, QueryWindow};
use shed::complete::score::ScoredCandidate;
use shed::complete::simple::{comp_spec_result, ArgOutcome, CompContext, CompOptFlags, CompSpecResult, Fallback, SimpleCompleter};
use shed::complete::sources::{complete_aliases, complete_commands, complete_dirs, complete_entries, complete_jobs, complete_signals, complete_users, complete_vars, extract_var_name, path_to_complete, signal_candidates, split_typed_path, DirItem, JobInfo, Named};
use shed::keys::{KeyCode, KeyEvent, ModKeys};
use shed::linebuf::buffer::{LineBuf, Viewport};
use shed::term::width::WidthCalculator;

const VIEW: Viewport = Viewport { height: 10, scroll_offset: 2 };

fn chars(s: &str) -> Vec<char> {
    s.chars().collect()
}

fn texts(v: &[Candidate]) -> Vec<&str> {
    v.iter().map(|c| c.content()).collect()
}

fn candidates(v: &[&str]) -> Vec<Candidate> {
    v.iter().map(|s| Candidate::from_text(s)).collect()
}

fn key(k: KeyCode) -> KeyEvent {
    KeyEvent(k, ModKeys::empty())
}

fn named(name: &str, about: &str) -> Named {
    Named { name: name.to_string(), about: about.to_string() }
}

fn no_kinds() -> FoundKinds {
    FoundKinds {
        files: vec![],
        dirs: vec![],
        commands: vec![],
        vars: vec![],
        users: vec![],
        jobs: vec![],
        aliases: vec![],
        signals: vec![],
    }
}

#[test]
fn candidates_give_their_bytes() {
    assert_eq!(Candidate::from_text("a\u{e9}").as_bytes(), &[0x61, 0xc3, 0xa9]);
    assert!(Candidate::from_text("").as_bytes().is_empty());
}

#[test]
fn extract_var_simple() {
    let (name, start, end) = extract_var_name("$HOME").unwrap();
    assert_eq!(name, "HOME");
    assert_eq!(start, 1);
    assert_eq!(end, 5);
}

#[test]
fn extract_var_braced() {
    let (name, start, end) = extract_var_name("${PATH}").unwrap();
    assert_eq!(name, "PATH");
    // `${` covers bytes 0..2; the name starts at byte 2 and ends at byte 6.
    assert_eq!(start, 2);
    assert_eq!(end, 6);
}

#[test]
fn extract_var_partial() {
    let (name, start, _end) = extract_var_name("$HO").unwrap();
    assert_eq!(name, "HO");
    assert_eq!(start, 1);
}

#[test]
fn extract_var_none() {
    assert!(extract_var_name("hello").is_none());
}


#[test]
fn fuzzy_exact_match() {
    let mut c = ScoredCandidate::new(Candidate::from_text("hello"));
    let score = c.fuzzy_score("hello");
    assert!(score > 0);
}

#[test]
fn fuzzy_prefix_match() {
    let mut c = ScoredCandidate::new(Candidate::from_text("hello_world"));
    let score = c.fuzzy_score("hello");
    assert!(score > 0);
}

#[test]
fn fuzzy_no_match() {
    let mut c = ScoredCandidate::new(Candidate::from_text("abc"));
    let score = c.fuzzy_score("xyz");
    assert_eq!(score, i32::MIN);
}

#[test]
fn fuzzy_empty_query() {
    let mut c = ScoredCandidate::new(Candidate::from_text("anything"));
    let score = c.fuzzy_score("");
    assert_eq!(score, 0);
}

#[test]
fn fuzzy_boundary_bonus() {
    let mut a = ScoredCandidate::new(Candidate::from_text("foo_bar"));
    let mut b = ScoredCandidate::new(Candidate::from_text("fxxxbxr"));
    let score_a = a.fuzzy_score("fbr");
    let score_b = b.fuzzy_score("fbr");
    // word-boundary match should score higher
    assert!(score_a > score_b);
}


#[test]
fn comp_result_no_match() {
    let result = CompResult::from_candidates(vec![]);
    assert!(matches!(result, CompResult::NoMatch));
}

#[test]
fn comp_result_single() {
    let result = CompResult::from_candidates(vec![Candidate::from_text("foo")]);
    assert!(matches!(result, CompResult::Single { .. }));
}

#[test]
fn comp_result_many() {
    let result = CompResult::from_candidates(vec![Candidate::from_text("foo"), Candidate::from_text("bar")]);
    assert!(matches!(result, CompResult::Many { .. }));
}


#[test]
fn complete_signals_int() {
    let results = complete_signals("INT", false);
    assert!(results.iter().any(|c| c.content() == "INT"));
}

#[test]
fn complete_signals_empty() {
    let results = complete_signals("", false);
    assert!(!results.is_empty());
}

#[test]
fn complete_signals_no_match() {
    let results = complete_signals("ZZZZZZZ", false);
    assert!(results.is_empty());
}

// ===================== SimpleCompleter cycling =====================

#[test]
fn cycle_wraps_forward() {
    let mut comp = SimpleCompleter {
        candidates: vec![Candidate::from_text("aaa"), Candidate::from_text("bbb"), Candidate::from_text("ccc")],
        selected_idx: 2,
        original_input: String::from(""),
        token_span: (0, 0),
        active: true,
        dirs_only: false,
        add_space: false,
        cursor_pos: 0,
        escape_candidates: true,
        graft_pos: None,
    };
    comp.cycle_completion(1, false);
    assert_eq!(comp.selected_idx, 0);
}

#[test]
fn cycle_wraps_backward() {
    let mut comp = SimpleCompleter {
        candidates: vec![Candidate::from_text("aaa"), Candidate::from_text("bbb"), Candidate::from_text("ccc")],
        selected_idx: 0,
        original_input: String::from(""),
        token_span: (0, 0),
        active: true,
        dirs_only: false,
        add_space: false,
        cursor_pos: 0,
        escape_candidates: true,
        graft_pos: None,
    };
    comp.cycle_completion(-1, false);
    assert_eq!(comp.selected_idx, 2);
}


#[test]
fn escape_str_special_chars() {
    let escaped = escape_str("hello world");
    assert_eq!(escaped, "hello\\ world");
}

#[test]
fn escape_str_multiple_specials() {
    let escaped = escape_str("a&b|c");
    assert_eq!(escaped, "a\\&b\\|c");
}

#[test]
fn escape_str_no_specials() {
    let escaped = escape_str("hello");
    assert_eq!(escaped, "hello");
}

#[test]
fn escape_str_all_shell_metacharacters() {
    for ch in [
        '\'', '"', '\\', '|', '&', ';', '(', ')', '<', '>', '$', '*', '!', '`', '{', '?', '[', '#',
        ' ', '\t', '\n',
    ] {
        let input = format!("a{ch}b");
        let escaped = escape_str(&input);
        let expected = format!("a\\{ch}b");
        assert_eq!(escaped, expected, "failed to escape {:?}", ch);
    }
}

#[test]
fn escape_str_kitchen_sink() {
    let input = "f$le (with) 'spaces' & {braces} | pipes; #hash ~tilde `backtick` !bang";
    let escaped = escape_str(input);
    assert_eq!(
        escaped,
        "f\\$le\\ \\(with\\)\\ \\'spaces\\'\\ \\&\\ \\{braces}\\ \\|\\ pipes\\;\\ \\#hash\\ ~tilde\\ \\`backtick\\`\\ \\!bang"
    );
}

#[test]
fn completed_line_only_escapes_new_text() {
    // Simulate: user typed "echo hel", completion candidate is "hello world"
    let comp = SimpleCompleter {
        candidates: vec![Candidate::from_text("hello world")],
        selected_idx: 0,
        original_input: String::from("echo hel"),
        token_span: (5, 8), // "hel" spans bytes 5..8
        active: true,
        dirs_only: false,
        add_space: false,
        cursor_pos: 0,
        escape_candidates: true,
        graft_pos: None,
    };
    let result = comp.get_completed_line(false);
    // "hel" is the user's text (not escaped), "lo world" is new (escaped)
    assert_eq!(result, "echo hello\\ world");
}

#[test]
fn completed_line_no_new_text() {
    // User typed the full token, nothing new to escape
    let comp = SimpleCompleter {
        candidates: vec![Candidate::from_text("hello")],
        selected_idx: 0,
        original_input: String::from("echo hello"),
        token_span: (5, 10),
        active: true,
        dirs_only: false,
        add_space: false,
        cursor_pos: 0,
        escape_candidates: true,
        graft_pos: None,
    };
    let result = comp.get_completed_line(false);
    assert_eq!(result, "echo hello");
}

#[test]
fn completed_line_appends_suffix_with_escape() {
    // User typed "echo hel", candidate is "hello world" (from filesystem)
    // strip_prefix("hel") => "lo world", which gets escaped
    let comp = SimpleCompleter {
        candidates: vec![Candidate::from_text("hello world")],
        selected_idx: 0,
        original_input: String::from("echo hel"),
        token_span: (5, 8),
        active: true,
        dirs_only: false,
        add_space: false,
        cursor_pos: 0,
        escape_candidates: true,
        graft_pos: None,
    };
    let result = comp.get_completed_line(false);
    assert_eq!(result, "echo hello\\ world");
}

#[test]
fn completed_line_suffix_only_escapes_new_part() {
    // User typed "echo hello", candidate is "hello world&done"
    // strip_prefix("hello") => " world&done", only that gets escaped
    let comp = SimpleCompleter {
        candidates: vec![Candidate::from_text("hello world&done")],
        selected_idx: 0,
        original_input: String::from("echo hello"),
        token_span: (5, 10),
        active: true,
        dirs_only: false,
        add_space: false,
        cursor_pos: 0,
        escape_candidates: true,
        graft_pos: None,
    };
    let result = comp.get_completed_line(false);
    // "hello" is preserved as-is, " world&done" gets escaped
    assert_eq!(result, "echo hello\\ world\\&done");
}

#[test]
fn visualizes_newline_tab_cr_and_esc() {
    assert_eq!(caret_notation("a\nb"), "a^Jb");
    assert_eq!(caret_notation("a\rb"), "a^Mb");
    assert_eq!(caret_notation("a\tb"), "a^Ib");
    assert_eq!(caret_notation("a\x1bb"), "a^[b");
    assert_eq!(caret_notation("a\x7fb"), "a^?b");
}

#[test]
fn leaves_plain_text_untouched() {
    assert_eq!(caret_notation("~/projects/fern"), "~/projects/fern");
}

#[test]
fn scores_are_exact() {
    assert_eq!(fuzzy_match_score("ab", &chars("ab"), false), 23);
    assert_eq!(fuzzy_match_score("ab", &chars("x"), false), i32::MIN);
    assert_eq!(fuzzy_match_score("anything", &[], true), 0);
}

#[test]
fn alignments_name_their_places() {
    let (_, places) = fuzzy_align(&chars("foo_bar"), &chars("fb"), true).unwrap();
    assert_eq!(places, vec![0, 4]);
    assert!(fuzzy_align(&chars("abc"), &chars("cb"), true).is_none());
    assert_eq!(match_positions("foo_bar", "fb"), vec![0, 4]);
    // of places with the same score the first is taken
    assert_eq!(match_positions("xaxa", "a"), vec![1]);
    assert_eq!(match_positions("xaabb", "ab"), vec![2, 3]);
    assert!(match_positions("foo", "z").is_empty());
}

#[test]
fn longer_queries_find_fewer() {
    let mut c = ScoredCandidate::new(Candidate::from_text("commit"));
    assert_ne!(c.fuzzy_score("co"), i32::MIN);
    assert_eq!(c.fuzzy_score("cox"), i32::MIN);
    assert_eq!(c.fuzzy_score_with("q", |_, q, _| q.len() as i32 + 41), 42);
}

#[test]
fn the_best_match_is_found() {
    let entries = vec![("fxxxbxr".to_string(), 0), ("foo_bar".to_string(), 0), ("zzz".to_string(), 0)];
    assert_eq!(fuzzy_best_match("fbr", entries), Some("foo_bar".to_string()));
    assert_eq!(fuzzy_best_match("q", vec![("abc".to_string(), 0)]), None);
}

#[test]
fn case_is_kept_or_not() {
    let c = Candidate::from_text("Readme");
    assert!(c.is_match("Rea", false));
    assert!(!c.is_match("rea", false));
    assert!(c.is_match("rea", true));
    assert_eq!(c.strip_prefix("rea", true), Some("dme".to_string()));
    assert_eq!(c.strip_prefix("x", true), None);
    assert!(c.starts_with('R'));
}

#[test]
fn candidates_are_sorted_by_text() {
    let v = sort_candidates(candidates(&["pear", "apple", "fig"]));
    assert_eq!(texts(&v), vec!["apple", "fig", "pear"]);
}

#[test]
fn cycling_there_and_back() {
    let mut comp = SimpleCompleter::new();
    comp.candidates = candidates(&["a", "b", "c"]);
    comp.active = true;
    comp.cycle_completion(2, false);
    assert_eq!(comp.selected_idx, 2);
    comp.cycle_completion(-2, false);
    assert_eq!(comp.selected_idx, 0);
}

#[test]
fn completing_keeps_what_is_around() {
    let mut comp = SimpleCompleter::new();
    comp.token_span = (5, 7);
    let line = comp.start_completion("echo fo bar".to_string(), 7, CompResult::from_candidates(candidates(&["foo"])), false);
    assert_eq!(line, Some("echo foo bar".to_string()));
    let mut comp = SimpleCompleter::new();
    assert_eq!(comp.start_completion("echo ".to_string(), 5, CompResult::NoMatch, false), None);
}

#[test]
fn escaping_only_adds_backslashes() {
    assert!(ends_with_unescaped("a/", '/'));
    assert!(!ends_with_unescaped("a\\/", '/'));
    assert_eq!(escape_str(""), "");
    assert_eq!(escape_str("a b").replace('\\', ""), "a b");
}

#[test]
fn signals_lose_their_prefix() {
    let names = vec!["SIGHUP".to_string(), "SIGINT".to_string(), "SIGIO".to_string(), "RTMIN".to_string()];
    assert_eq!(texts(&signal_candidates(&names, "I", false)), vec!["INT", "IO"]);
    assert_eq!(texts(&signal_candidates(&names, "", false)), vec!["HUP", "INT", "IO", "RTMIN"]);
    let here = complete_signals("", false);
    assert!(here.iter().all(|c| !c.content().starts_with("SIG")));
    assert_eq!(here[0].content(), "HUP");
}

#[test]
fn aliases_are_described() {
    let v = complete_aliases(&vec![named("ll", "ls -l"), named("gs", "git status")], "l", false);
    assert_eq!(texts(&v), vec!["ll"]);
    assert_eq!(v[0].desc, Some("ls -l".to_string()));
}

#[test]
fn variables_are_completed() {
    let vars = vec![named("HOME", "/root"), named("HOST", "box"), named("PATH", "/bin")];
    assert_eq!(texts(&complete_vars(&vars, "$HO")), vec!["$HOME", "$HOST"]);
    assert_eq!(texts(&complete_vars(&vars, "${PA")), vec!["${PATH"]);
    assert!(complete_vars(&vars, "$ZZ").is_empty());
}

#[test]
fn users_are_completed() {
    let rows = vec!["root:x:0:0::/root:/bin/sh".to_string(), "bin:x:1:1::/bin:/bin/sh".to_string()];
    let v = complete_users(&rows, "ro", false);
    assert_eq!(texts(&v), vec!["root"]);
}

#[test]
fn jobs_are_completed() {
    let jobs = vec![
        JobInfo { name: Some("vim".to_string()), pgid: "41".to_string(), cmd_line: "vim x".to_string() },
        JobInfo { name: None, pgid: "42".to_string(), cmd_line: "sleep 9".to_string() },
    ];
    assert_eq!(texts(&complete_jobs(&jobs, "%v", false)), vec!["%vim"]);
    assert_eq!(texts(&complete_jobs(&jobs, "4", false)), vec!["41", "42"]);
}

#[test]
fn commands_and_directories() {
    let v = complete_commands(candidates(&["ls", "cat"]), candidates(&["lib/"]), true, "l", false);
    assert_eq!(texts(&v), vec!["lib/", "ls"]);
    let v = complete_commands(candidates(&["ls", "cat"]), candidates(&["lib/"]), false, "l", false);
    assert_eq!(texts(&v), vec!["ls"]);
}

#[test]
fn paths_are_taken_apart() {
    assert_eq!(split_typed_path("src/ma"), ("src".to_string(), "ma".to_string()));
    assert_eq!(split_typed_path("ma"), (".".to_string(), "ma".to_string()));
    assert_eq!(split_typed_path("src/"), ("src/".to_string(), "".to_string()));
    assert_eq!(split_typed_path("/us"), ("/".to_string(), "us".to_string()));
    assert_eq!(path_to_complete("ma", Some("src/")), "src/ma");
    assert_eq!(path_to_complete("ma", None), "ma");
}

#[test]
fn directory_entries_are_completed() {
    let item = |name: &str, is_dir: bool| DirItem { name: name.to_string(), is_dir, leads_to_dir: is_dir, desc: String::new() };
    let items = vec![item("main.rs", false), item("mods", true), item("lib.rs", false), item(".git", true)];
    assert_eq!(texts(&complete_entries(&items, "src/m", false, false)), vec!["src/main.rs", "src/mods/"]);
    assert_eq!(texts(&complete_entries(&items, "m", true, false)), vec!["mods/"]);
    assert_eq!(texts(&complete_entries(&items, ".", false, false)), vec![".git/"]);
    assert_eq!(texts(&complete_dirs(candidates(&["a", "b"]), &[false, true])), vec!["b"]);
}

#[test]
fn specifications_are_built() {
    let flags = CompFlags { files: false, dirs: false, cmds: false, users: false, vars: false, jobs: false, alias: false };
    let opts = CompOpts { func: Some("_git".to_string()), wordlist: Some(vec!["one".to_string(), "two".to_string()]), action: Some("signal".to_string()), flags, opt_flags: CompOptFlags { space: true, dirnames: false, default: false } };
    let spec = BashCompSpec::from_comp_opts(opts).with_source("complete -F _git git".to_string());
    assert!(!spec.signals);
    assert!(spec.get_flags().space);
    assert_eq!(spec.source(), "complete -F _git git");
    let ctx = CompContext { words: vec!["git".to_string(), "co".to_string()], cword: 1, line: "git co".to_string(), cursor_pos: 6 };
    let call = spec.exec_comp_func(&ctx).unwrap();
    assert_eq!(call.cword, "1");
    assert_eq!(call.point, "6");
    assert!(call.input.starts_with("_git"));
    assert!(BashCompSpec::new().exec_comp_func(&ctx).is_none());
}

#[test]
fn the_longest_come_first() {
    let spec = BashCompSpec::new().with_wordlist(vec!["co".to_string(), "commit".to_string(), "push".to_string()]);
    let v = spec.complete("co", "co", no_kinds(), &vec![], false);
    assert_eq!(texts(&v), vec!["commit", "co"]);
}

#[test]
fn no_candidates_are_no_match() {
    let flags = CompOptFlags { space: false, dirnames: true, default: false };
    assert!(matches!(comp_spec_result(vec![], flags), CompSpecResult::NoMatch { .. }));
    assert!(matches!(comp_spec_result(candidates(&["a"]), flags), CompSpecResult::Match { .. }));
    let mut comp = SimpleCompleter::new();
    assert!(matches!(comp.argument_outcome(CompSpecResult::NoMatch { flags }), ArgOutcome::Look(Fallback::Dirs)));
    assert!(matches!(comp.argument_outcome(CompSpecResult::NoMatch { flags: CompOptFlags::empty() }), ArgOutcome::Look(Fallback::Nothing)));
}

#[test]
fn clamped_numbers() {
    let mut c = ClampedUsize::new(2, 3, true);
    c.wrap_add(1);
    assert_eq!(c.get(), 0);
    c.wrap_sub(1);
    assert_eq!(c.get(), 2);
    c.add(5);
    assert_eq!(c.get(), 2);
    c.sub(9);
    assert_eq!(c.get(), 0);
    c.set(7);
    assert_eq!(c.get(), 2);
    c.set_max(1);
    assert_eq!(c.get(), 0);
}

#[test]
fn cells_hold_one_line() {
    let w = WidthCalculator::UnicodeWidth;
    assert!(!one_line("a\nb").contains('\n'));
    assert_eq!(emphasize("abc", &[false, false, false], "X"), "abc");
    assert_eq!(truncate_to_width(w, "abc", 9), "abc");
    assert!(truncate_to_width(w, "abcdef", 4).starts_with("abc"));
}

#[test]
fn columns_are_stepped() {
    assert_eq!(step_column(0, 25, 10, true, true), 10);
    assert_eq!(step_column(10, 25, 10, false, true), 0);
    assert_eq!(common_prefix_len("commit", "compare"), 3);
    assert_eq!(column_escape(4), "\x1b[4C");
    assert_eq!(up_escape(3), "\x1b[3A");
}

#[test]
fn a_grid_is_walked() {
    let w = WidthCalculator::UnicodeWidth;
    let mut g = GridSelector::new();
    let names: Vec<String> = (0..25).map(|i| format!("c{i:02}")).collect();
    g.activate(names.iter().map(|s| Candidate::from_text(s)).collect());
    assert!(g.selected_candidate().is_none());
    g.next_candidate();
    assert_eq!(g.selected_candidate().unwrap().content(), "c00");
    g.next_candidate();
    assert_eq!(g.selected_candidate().unwrap().content(), "c01");
    g.move_col(true);
    assert_eq!(g.selected_candidate().unwrap().content(), "c11");
    g.move_col(false);
    g.prev_candidate();
    assert_eq!(g.selected_candidate().unwrap().content(), "c00");
    assert_eq!(g.visible_window(w, 80).len(), 3);
    let (shown, rows) = g.draw(w, 80);
    assert!(rows >= 10);
    assert!(shown.contains("c24"));
}

#[test]
fn a_grid_completes() {
    let mut g = GridCompleter::new();
    g.completer.token_span = (0, 1);
    let one = g.complete("f".to_string(), 1, 1, CompResult::from_candidates(candidates(&["foo"])), false);
    assert_eq!(one, Some("foo".to_string()));
    assert_eq!(g.selected_candidate().unwrap().content(), "foo");
    let mut g = GridCompleter::new();
    g.completer.token_span = (0, 1);
    assert_eq!(g.complete("f".to_string(), 1, 1, CompResult::from_candidates(candidates(&["foo", "far"])), false), None);
    assert!(g.is_active());
    assert_eq!(g.all_candidates().len(), 2);
}

#[test]
fn the_best_come_first() {
    let w = WidthCalculator::UnicodeWidth;
    let mut f = FuzzySelector::new();
    f.activate(candidates(&["fxxxbxr", "foo_bar", "zzz"]));
    f.set_query("fbr", VIEW);
    assert_eq!(f.candidates_len(), 3);
    assert_eq!(f.filtered_len(), 2);
    assert_eq!(f.selected_candidate().unwrap().content(), "foo_bar");
    let r = f.handle_key(key(KeyCode::Enter), VIEW, w, 80);
    assert!(matches!(r, SelectorResponse::Accept(c) if c.content() == "foo_bar"));
    let r = f.handle_key(key(KeyCode::Esc), VIEW, w, 80);
    assert!(matches!(r, SelectorResponse::Dismiss));
}

#[test]
fn a_fuzzy_list_is_drawn() {
    let w = WidthCalculator::UnicodeWidth;
    let mut f = FuzzySelector::new();
    f.activate(candidates(&["alpha", "beta"]));
    let (shown, rows) = f.draw(w, 80, false);
    assert!(shown.contains("alpha"));
    assert!(shown.contains("beta"));
    assert!(rows > 0);
    assert!(FuzzyBuilder::new().selector().is_none());
    let built = FuzzyBuilder::new().with_entries(vec![("one".to_string(), 0)]).selector();
    assert_eq!(built.unwrap().candidates_len(), 1);
    assert_eq!(FuzzyBuilder::pick(&SelectorResponse::Dismiss), Some(None));
    assert_eq!(FuzzyBuilder::pick(&SelectorResponse::Consumed), None);
    assert_eq!(FuzzyBuilder::pick(&SelectorResponse::Accept(Candidate::from_text("x"))), Some(Some("x".to_string())));
}

#[test]
fn found_characters_are_marked() {
    let w = WidthCalculator::UnicodeWidth;
    let mut f = FuzzySelector::new();
    f.activate(candidates(&["foo_bar", "zzz"]));
    f.set_query("fb", VIEW);
    let (shown, rows) = f.draw(w, 80, false);
    let on = "\x1b[1;4;33m";
    let off = "\x1b[22;24;39m";
    assert!(shown.contains(&format!("{on}f{off}oo_{on}b{off}ar")), "{shown:?}");
    assert!(!shown.contains("zzz"));
    // The query, one name, and the count.
    assert_eq!(rows, 3);
    // The caller may say what is marked, or leave it.
    let (shown, _) = f.draw_with(w, 80, false, |name, query| {
        assert_eq!(query, "fb");
        if name == "foo_bar" { Some(vec![0, 1, 2]) } else { None }
    });
    assert!(shown.contains(&format!("{on}foo{off}_bar")), "{shown:?}");
    let (shown, _) = f.draw_with(w, 80, false, |_, _| None);
    assert!(shown.contains(&format!("{on}f{off}oo_{on}b{off}ar")), "{shown:?}");
    // Where nothing is found, it says so.
    f.set_query("qq", VIEW);
    let (shown, rows) = f.draw(w, 80, false);
    assert!(shown.contains("(no matches)"));
    assert_eq!(rows, 2);
}

#[test]
fn typing_on_misses_nothing() {
    let w = WidthCalculator::UnicodeWidth;
    let names = ["foo_bar", "fob", "bar", "xfxbx", "f", "Foo Bar"];
    let mut typed = FuzzySelector::new();
    typed.activate(candidates(&names));
    let mut query = String::new();
    for c in "fbr".chars() {
        query.push(c);
        typed.handle_key(key(KeyCode::Char(c)), VIEW, w, 80);
        let mut whole = FuzzySelector::new();
        whole.activate(candidates(&names));
        whole.set_query(&query, VIEW);
        let sorted = |f: &FuzzySelector| {
            let mut v: Vec<(String, Option<i32>)> =
                f.filtered().iter().map(|c| (c.candidate.content().to_string(), c.score)).collect();
            v.sort();
            v
        };
        assert_eq!(sorted(&typed), sorted(&whole), "{query}");
    }
    assert_eq!(typed.filtered_len(), 2);
}

#[test]
fn drawing_scrolls_to_the_cursor() {
    let w = WidthCalculator::UnicodeWidth;
    let mut f = FuzzySelector::new();
    let names: Vec<String> = (0..60).map(|i| format!("name{i:02}")).collect();
    f.activate(names.iter().map(|s| Candidate::from_text(s)).collect());
    // The last candidate is the best of equal ones.
    assert_eq!(f.selected_candidate().unwrap().content(), "name59");
    for _ in 0..45 {
        f.handle_key(key(KeyCode::Down), VIEW, w, 30);
    }
    assert_eq!(f.scroll_col, 0);
    let (shown, _) = f.draw(w, 30, false);
    assert!(f.scroll_col > 0);
    assert!(shown.contains("name14"));
    assert!(!shown.contains("name59"));
}

#[test]
fn callers_may_score() {
    let w = WidthCalculator::UnicodeWidth;
    // The last character counts, and what ends in a 'z' is not found.
    let last = |c: &str, q: &[char], _: bool| match c.chars().last() {
        Some('z') => i32::MIN,
        Some(x) => x as i32 + q.len() as i32,
        None => 0,
    };
    let mut f = FuzzySelector::new();
    f.activate_with(candidates(&["xa", "xc", "xb", "xz"]), last);
    let found: Vec<&str> = f.filtered().iter().map(|c| c.candidate.content()).collect();
    assert_eq!(found, vec!["xc", "xb", "xa"]);
    assert_eq!(f.filtered()[0].score, Some('c' as i32));
    f.handle_key_with(key(KeyCode::Char('q')), VIEW, w, 80, last);
    assert_eq!(f.filtered_len(), 3);
    assert_eq!(f.filtered()[0].score, Some('c' as i32 + 1));
    // A query turned into another is looked up in all candidates.
    f.score_candidates_with(|c, q, _| if c.ends_with(q) { 1 } else { i32::MIN }, Some("z".to_string()));
    assert_eq!(f.filtered_len(), 1);
    assert_eq!(f.selected_candidate().unwrap().content(), "xz");
    assert_eq!(f.effective_query, "z");
    assert_eq!(f.last_query, "q");
    f.set_query_with("ab", VIEW, last);
    assert_eq!(f.filtered()[0].score, Some('c' as i32 + 2));
    f.reset_query_with(last);
    assert_eq!(f.filtered()[0].score, Some('c' as i32));
    let built = FuzzyBuilder::new().with_entries(vec![("xa".to_string(), 0), ("xb".to_string(), 0)]).selector_with(last);
    assert_eq!(built.unwrap().selected_candidate().unwrap().content(), "xb");
}

#[test]
fn callers_may_score_and_turn_a_query() {
    let entries = || vec![("home".to_string(), 1), ("here".to_string(), 2)];
    let same = |c: &str, q: &[char], _: bool| if c.starts_with(q[0]) { q.len() as i32 } else { i32::MIN };
    // Of equal scores the larger weight wins.
    assert_eq!(fuzzy_best_match_with("x", entries(), same, |_| "h".to_string()), Some("here".to_string()));
    assert_eq!(fuzzy_best_match_with("h", entries(), same, |_| "x".to_string()), None);
    assert_eq!(fuzzy_best_match_with("$o", entries(), fuzzy_match_score, |q| q.replace('$', "h")), Some("home".to_string()));
}

#[test]
fn a_fuzzy_completer_draws() {
    let w = WidthCalculator::UnicodeWidth;
    let mut f = FuzzyCompleter::new();
    assert_eq!(f.query_cursor_col(w), Some(2));
    f.complete("f".to_string(), 1, 1, CompResult::from_candidates(candidates(&["foo", "far"])), false);
    let (shown, rows) = f.draw(w, 80, false);
    assert!(shown.contains("foo") && shown.contains("far"));
    assert_eq!(Some(rows), f.predicted_rows());
    f.handle_key(key(KeyCode::Char('o')), VIEW, w, 80);
    assert_eq!(f.query_cursor_col(w), Some(3));
    let (shown, _) = f.draw(w, 80, false);
    assert!(!shown.contains("far"));
    assert_eq!(f.clear(), "\x1b[1B\x1b[2K\x1b[1B\x1b[2K\x1b[1B\x1b[2K\x1b[3A\r");
}

#[test]
fn any_columns_are_scrolled() {
    // Columns of 4 items, each 10 wide, with gaps: two of them fit in 25.
    let ten = |s: usize, e: usize| {
        assert!(s < e && e <= 30);
        10
    };
    let shown = pack_columns(30, 0, 4, 25, ten).len();
    let scrolled = |cursor: usize, from: usize| {
        let mut s = from;
        scroll_into_view(cursor, &mut s, 30, 4, 25, ten);
        s
    };
    assert_eq!(shown, 2);
    // What is shown already stays.
    assert_eq!(scrolled(0, 0), 0);
    assert_eq!(scrolled(7, 0), 0);
    assert_eq!(scrolled(7, 1), 1);
    // Beyond the right the column of the cursor comes last, beyond the left first.
    assert_eq!(scrolled(8, 0), 1);
    assert_eq!(scrolled(29, 0), 6);
    assert_eq!(scrolled(9, 6), 2);
    let mut s = 5;
    scroll_into_view(3, &mut s, 0, 4, 25, ten);
    assert_eq!(s, 0);
}

#[test]
fn common_signals_are_offered() {
    for name in ["HUP", "INT", "KILL", "TERM", "USR1", "WINCH", "XFSZ"] {
        let found = complete_signals(name, false);
        assert!(texts(&found).contains(&name), "{name}");
    }
    assert_eq!(texts(&complete_signals("TERM", false)), vec!["TERM"]);
    assert_eq!(texts(&complete_signals("term", true)), vec!["TERM"]);
    assert!(complete_signals("term", false).is_empty());
}

#[test]
fn a_fuzzy_completer_starts() {
    let mut f = FuzzyCompleter::new();
    assert_eq!(f.complete("f".to_string(), 1, 1, CompResult::from_candidates(candidates(&["foo", "far"])), false), None);
    assert!(f.is_active());
    assert_eq!(f.original_input(), "f");
    f.reset();
    assert_eq!(f.original_input(), "");
}

#[test]
fn lists_show_the_cursor() {
    assert_eq!(candidate_height("one\ntwo"), 2);
    let mut l = ListWindow::new();
    l.max_height = 3;
    let heights = [1, 1, 1, 1, 1];
    l.update_scroll_offset(&heights, 4);
    assert_eq!(l.scroll_offset, 2);
    assert_eq!(l.get_window(&heights), (2, 5));
    let mut q = QueryWindow { scroll_offset: 0, available_width: 5 };
    q.update_scroll_offset(9, 12);
    let (from, to) = q.get_window(12);
    assert!(from <= 9 && 9 <= to);
}

#[test]
fn tabs_go_through_the_candidates() {
    let mut comp = SimpleCompleter::new();
    comp.token_span = (0, 1);
    comp.add_space = true;
    let found = || CompResult::from_candidates(candidates(&["foo", "far/"]));
    assert_eq!(comp.complete("f".to_string(), 1, 1, found(), false), Some("foo ".to_string()));
    assert!(comp.is_active());
    assert_eq!(texts(&comp.candidates), vec!["foo ", "far/"]);
    assert_eq!(comp.complete("f".to_string(), 1, 1, found(), false), Some("far/".to_string()));
    assert_eq!(comp.complete("f".to_string(), 1, -1, found(), false), Some("foo ".to_string()));
    let mut g = GridCompleter::new();
    g.completer.token_span = (0, 1);
    assert_eq!(g.complete("f".to_string(), 1, 1, found(), false), None);
    assert_eq!(g.complete("f".to_string(), 1, 1, found(), false), None);
    assert_eq!(g.completer.selected_idx, 1);
}

#[test]
fn columns_are_packed() {
    let wide = |s: usize, e: usize| {
        assert!(s < e && e <= 25);
        if s == 0 { 30 } else { e - s }
    };
    // Columns of 10, 10 and 5 items, 30, 10 and 5 wide.
    assert_eq!(pack_columns(25, 0, 10, 80, wide), vec![30, 10, 5]);
    assert_eq!(pack_columns(25, 0, 10, 48, wide), vec![30, 10]);
    assert_eq!(pack_columns(25, 0, 10, 49, wide), vec![30, 10, 5]);
    assert_eq!(pack_columns(25, 1, 10, 80, wide), vec![10, 5]);
    // The first is taken even where it is too wide.
    assert_eq!(pack_columns(25, 0, 10, 20, wide), vec![20]);
    // Beyond the end there are none.
    assert_eq!(pack_columns(25, 3, 10, 80, wide), Vec::<usize>::new());
    assert_eq!(pack_columns(25, usize::MAX, 10, 80, wide), Vec::<usize>::new());
    assert_eq!(pack_columns(0, 0, 10, 80, wide), Vec::<usize>::new());
}

#[test]
fn steps_undo_each_other() {
    for cursor in 0..25 {
        let right = step_column(cursor, 25, 10, true, true);
        assert_eq!(step_column(right, 25, 10, false, true), cursor);
        let left = step_column(cursor, 25, 10, false, true);
        assert_eq!(step_column(left, 25, 10, true, true), cursor);
    }
}

#[test]
fn stripping_keeps_the_case() {
    let c = Candidate::from_text("ReadMe.TXT");
    assert_eq!(c.strip_prefix("rEAD", true), Some("Me.TXT".to_string()));
    assert_eq!(c.strip_prefix("Read", false), Some("Me.TXT".to_string()));
    assert_eq!(c.strip_prefix("rEAD", false), None);
    assert_eq!(c.strip_prefix("", true), Some("ReadMe.TXT".to_string()));
    assert_eq!(c.strip_prefix("readme.txt2", true), None);
    assert!(!c.is_match("readme.txt2", true));
}

#[test]
fn length_counts_twice() {
    let q = chars("fb");
    let plain = fuzzy_match_score("foo_bar", &q, false);
    assert_eq!(fuzzy_match_score("foo_bar", &q, true), plain - 2 * 5);
    assert_eq!(fuzzy_match_score("foo", &q, true), i32::MIN);
}

#[test]
fn a_box_is_drawn() {
    let mut b = BoxSelector::new("Pick".to_string());
    b.filtered = candidates(&["one", "two\nlines", "a\tb"]);
    b.filtered[0].desc = Some("first".to_string());
    b.total = 12;
    b.number_candidates = true;
    b.cursor = 1;
    b.window.hovered = Some(2);
    let line = LineBuf::new().with_initial("q", 1, VIEW);
    let (text, rows) = b.draw(WidthCalculator::UnicodeWidth, 40, 5, &line);
    assert_eq!(rows, 8);
    assert_eq!(b.window.row_map, vec![None, Some(0), Some(1), Some(1), Some(2), None]);
    assert_eq!(b.window.top, 5);
    let shown: Vec<&str> = text.split('\n').collect();
    assert_eq!(shown[1], format!("\u{256d}\u{2500} \x1b[1mPick\x1b[0m {}\u{256e}", "\u{2500}".repeat(31)));
    assert_eq!(shown[2], format!("\u{2502} \x1b[1;36m>\x1b[0m q{}\u{2502}", " ".repeat(34)));
    assert_eq!(shown[3], format!("\u{251c}\u{2500}\u{2500}\x1b[33m3\x1b[0m/\x1b[33m12\x1b[0m{}\u{2524}", "\u{2500}".repeat(32)));
    let gray = "\x1b[90m\u{258c}\x1b[0m";
    let chosen = "\x1b[38;2;200;0;120m\u{258c}\x1b[1;39;48;5;237m";
    let hovered = "\x1b[90m\u{258c}\x1b[1;39;48;5;237m";
    assert_eq!(shown[4], format!("\u{2502} {gray}\x1b[33m1     \x1b[39mone\x1b[90m  first\x1b[0m\x1b[0m{}\u{2502}", " ".repeat(20)));
    assert_eq!(shown[5], format!("\u{2502} {chosen}\x1b[33m2     \x1b[39mtwo\x1b[0m{}\u{2502}", " ".repeat(27)));
    assert_eq!(shown[6], format!("\u{2502} {chosen}      lines\x1b[0m{}\u{2502}", " ".repeat(25)));
    assert_eq!(shown[7], format!("\u{2502} {hovered}\x1b[33m3     \x1b[39ma    b\x1b[0m{}\u{2502}", " ".repeat(24)));
    assert_eq!(shown[8], format!("\u{2570}{}\u{256f}\x1b[6A\r\x1b[5C", "\u{2500}".repeat(38)));
}

#[test]
fn a_box_cuts_and_scrolls() {
    let mut b = BoxSelector::new("T".to_string());
    b.filtered = candidates(&["0123456789abcdef", "1", "2", "3", "4", "5", "6", "7", "8", "9"]);
    b.total = 10;
    let line = LineBuf::new().with_initial("", 0, VIEW);
    let (text, rows) = b.draw(WidthCalculator::UnicodeWidth, 18, 0, &line);
    assert_eq!(rows, 12);
    // From fifteen columns on a row is cut, to nine bytes and dots.
    assert!(text.contains("012345678...\x1b[0m"));
    assert!(!text.contains("0123456789"));
    b.cursor = 9;
    b.draw(WidthCalculator::UnicodeWidth, 18, 0, &line);
    assert_eq!(b.window.scroll_offset, 2);
    let gone = b.clear(18);
    assert!(gone.starts_with("\x1b[10B"), "{gone:?}");
    assert_eq!(gone.matches("\x1b[2K\x1b[A").count(), 12);
    assert_eq!(b.clear(18), "");
}
