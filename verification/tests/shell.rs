//! The shell's environment.

use shed::shellenv::exec_ctx::{ExecCtx, ExecFlags, IoMask, Redir, RedirType, SavedIo};
use shed::shellenv::input::InputMan;
use shed::shellenv::logic::LogTab;
use shed::shellenv::meta::MetaTab;
use shed::shellenv::shenv::{IoStep, ShEnv};
use shed::shellenv::vars::{HostFacts, VarTab};
use shed::shellenv::{attach_tty, log_level, take_term, wait_fg, LogLevel, TtyPlan, WtStat};
use shed::shopt::{xtrace_line, ShOpts};

fn facts() -> HostFacts {
    HostFacts {
        inherited: vec![("EDITOR".to_string(), "vi".to_string())],
        on_tty: true,
        term: Some("xterm".to_string()),
        home: "/home/ann".to_string(),
        username: Some("ann".to_string()),
        uid: "1000".to_string(),
        hostname: "box".to_string(),
        ppid: "1".to_string(),
        cwd: "/tmp".to_string(),
        exe: "/bin/shed".to_string(),
    }
}

fn args(v: &[&str]) -> Vec<String> {
    v.iter().map(|s| s.to_string()).collect()
}

#[test]
fn the_last_status_counts() {
    assert_eq!(wait_fg(&[WtStat::Exited(0), WtStat::Exited(3)], 128).0, 3);
    assert_eq!(wait_fg(&[WtStat::Signaled(2, false)], 128).0, 130);
    assert_eq!(wait_fg(&[], 128).0, 0);
}

#[test]
fn levels_are_named() {
    assert!(matches!(log_level("warn"), LogLevel::Warn));
    assert!(matches!(log_level("nonsense"), LogLevel::Null));
}

#[test]
fn the_terminal_changes_hands() {
    assert!(matches!(attach_tty(false, 5, 5, 5), TtyPlan::Keep));
    assert!(matches!(attach_tty(true, 7, 5, 5), TtyPlan::Switch(_)));
    assert!(matches!(take_term(false, 5, 6), TtyPlan::Keep));
}

#[test]
fn set_variables_are_found() {
    let mut v = VarTab::new(args(&["shed", "one", "two"]), &facts());
    v.set_var("X", "1");
    assert_eq!(v.get_var("X"), "1");
    v.export("Y", "2");
    assert_eq!(v.get_var("Y"), "2");
    assert_eq!(v.get_var("HOME"), "/home/ann");
    assert_eq!(v.get_var("LANG"), "en_US.UTF-8");
    assert_eq!(v.get_var("EDITOR"), "vi");
    assert_eq!(v.get_var("missing"), "");
}

#[test]
fn arguments_come_and_go() {
    let mut v = VarTab::new(args(&["shed", "one", "two"]), &facts());
    v.bpush_arg("three");
    assert_eq!(v.bpop_arg(), Some("three".to_string()));
    v.fpush_arg("zero");
    assert_eq!(v.fpop_arg(), Some("zero".to_string()));
    v.set_param("#", "9");
    assert_eq!(v.get_param("#"), "9");
    v.unset_param("#");
    assert_eq!(v.get_param("#"), "");
}

#[test]
fn names_are_looked_up() {
    let mut l = LogTab::new();
    assert_eq!(l.get_alias("ll"), None);
    l.set_alias("ll", "ls -l");
    assert_eq!(l.get_alias("ll"), Some("ls -l"));
    l.set_function("f", "echo");
    assert_eq!(l.get_function("f"), Some("echo"));
    assert_eq!(l.get_function("ll"), None);
}

#[test]
fn commands_are_timed() {
    let mut m = MetaTab::new(5, args(&["ls"]));
    assert_eq!(m.get_runtime(), None);
    m.start_timer(10);
    m.stop_timer(35);
    assert_eq!(m.get_runtime(), Some(25));
    assert_eq!(m.path_cmds().len(), 1);
}

#[test]
fn unmasking_undoes_masking() {
    let mut m = IoMask::new(1);
    m.new_mask(7);
    assert_eq!(m.get_fd(), 7);
    m.unmask();
    assert_eq!(m.get_fd(), 1);
}

#[test]
fn each_redirection_has_one_place() {
    let mut c = ExecCtx::new();
    for (id, op) in [RedirType::Output, RedirType::Input, RedirType::Append, RedirType::HereDoc].into_iter().enumerate() {
        c.push_rdr(Redir { op, id });
    }
    let (inputs, outputs) = c.sort_redirs();
    assert_eq!(inputs.iter().map(|r| r.id).collect::<Vec<_>>(), vec![1, 3]);
    assert_eq!(outputs.iter().map(|r| r.id).collect::<Vec<_>>(), vec![0, 2]);
    assert_eq!(c.activate_rdrs().len(), 4);
    c.set_flag(ExecFlags { no_fork: true, in_func: false });
    assert!(c.flags().no_fork);
    c.unset_flag(ExecFlags { no_fork: true, in_func: false });
    assert!(!c.flags().no_fork);
}

#[test]
fn putting_aside_is_undone() {
    let mut m = InputMan::new();
    m.new_input("echo hello");
    let s = m.new_span(5, 10);
    assert_eq!(m.get_slice(s), Some("hello".to_string()));
    m.push_state();
    m.new_input("ls");
    m.pop_state();
    assert_eq!(m.get_input().map(|s| s.as_str()), Some("echo hello"));
    assert_eq!(m.get_slice(s), Some("hello".to_string()));
}

#[test]
fn spans_are_clamped() {
    let mut m = InputMan::new();
    m.new_input("abcdef");
    let s = m.new_span(2, 6);
    *m.get_input_mut().unwrap() = "abc".to_string();
    m.clamp_all();
    assert_eq!(m.get_slice(s), Some("c".to_string()));
}

#[test]
fn codes_come_back() {
    let mut e = ShEnv::new(args(&["shed"]), &facts(), 0, vec![]);
    e.set_code(42);
    assert_eq!(e.get_code(), 42);
    e.set_code(-7);
    assert_eq!(e.get_code(), -7);
    assert_eq!(e.vars().get_param("?"), "-7");
}

#[test]
fn descriptors_are_restored() {
    let mut e = ShEnv::new(args(&["shed"]), &facts(), 0, vec![]);
    assert!(e.reset_io().is_empty());
    let from = e.io_to_save();
    assert_eq!((from.stdin, from.stdout, from.stderr), (0, 1, 2));
    e.save_io(SavedIo { stdin: 10, stdout: 11, stderr: 12 });
    let steps = e.reset_io();
    assert!(steps.iter().any(|s| matches!(s, IoStep::Dup2(0, 10))));
    assert!(steps.iter().any(|s| matches!(s, IoStep::Close(12))));
    assert!(e.reset_io().is_empty());
}

#[test]
fn a_set_option_shows_and_leaves_the_others() {
    let mut o = ShOpts::default();
    let before = o.get("core.autocd").unwrap();
    o.set("core.dotglob", "true").unwrap();
    assert!(o.get("core.dotglob").unwrap().unwrap().contains("true"));
    assert_eq!(o.get("core.autocd").unwrap(), before);
    o.set("line.tab_width", "7").unwrap();
    assert!(o.get("line.tab_width").unwrap().unwrap().contains('7'));
    assert!(o.set("line.tab_width", "x").is_err());
    assert!(o.set("highlight.nothing", "x").is_err());
    assert!(o.set("set.nothing", "x").is_err());
    assert!(o.query("core.autocd=maybe").is_err());
}

#[test]
fn traced_lines() {
    assert_eq!(xtrace_line(&args(&["echo", "a b"]), 1), "++ echo a b");
}
