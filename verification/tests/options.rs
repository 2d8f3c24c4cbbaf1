//! Shell options.

use shed::shopt::{ShOptCore, ShOpts};

#[test]
fn all_core_fields_covered() {
    let ShOptCore {
        dotglob,
        autocd,
        hist_ignore_dupes,
        max_hist,
        interactive_comments,
        auto_hist,
        bell_enabled,
        max_recurse_depth,
        xpg_echo,
    } = ShOptCore::default();
    // If a field is added to the struct, this destructure fails to compile.
    let _ = (
        dotglob,
        autocd,
        hist_ignore_dupes,
        max_hist,
        interactive_comments,
        auto_hist,
        bell_enabled,
        max_recurse_depth,
        xpg_echo,
    );
}

#[test]
fn set_and_get_core_bool() {
    let mut opts = ShOpts::default();
    assert!(!opts.core.dotglob);

    opts.set("core.dotglob", "true").unwrap();
    assert!(opts.core.dotglob);

    opts.set("core.dotglob", "false").unwrap();
    assert!(!opts.core.dotglob);
}

#[test]
fn set_and_get_core_int() {
    let mut opts = ShOpts::default();
    assert_eq!(opts.core.max_hist, 10_000);

    opts.set("core.max_hist", "500").unwrap();
    assert_eq!(opts.core.max_hist, 500);

    opts.set("core.max_hist", "-1").unwrap();
    assert_eq!(opts.core.max_hist, -1);

    assert!(opts.set("core.max_hist", "-500").is_err());
}

#[test]
fn set_and_get_prompt_opts() {
    let mut opts = ShOpts::default();

    opts.set("prompt.comp_limit", "50").unwrap();
    assert_eq!(opts.prompt.comp_limit, 50);

    opts.set("prompt.leader", "space").unwrap();
    assert_eq!(opts.prompt.leader, "space");
}

#[test]
fn query_set_returns_none() {
    let mut opts = ShOpts::default();
    let result = opts.query("core.autocd=true").unwrap();
    assert!(result.is_none());
    assert!(opts.core.autocd);
}

#[test]
fn query_get_returns_some() {
    let opts = ShOpts::default();
    let result = opts.get("core.dotglob").unwrap();
    assert!(result.is_some());
    let text = result.unwrap();
    assert!(text.contains("false"));
}

#[test]
fn invalid_category_errors() {
    let mut opts = ShOpts::default();
    assert!(opts.set("bogus.dotglob", "true").is_err());
    assert!(opts.get("bogus.dotglob").is_err());
}

#[test]
fn invalid_option_errors() {
    let mut opts = ShOpts::default();
    assert!(opts.set("core.nonexistent", "true").is_err());
    assert!(opts.set("prompt.nonexistent", "true").is_err());
}

#[test]
fn invalid_value_errors() {
    let mut opts = ShOpts::default();
    assert!(opts.set("core.dotglob", "notabool").is_err());
    assert!(opts.set("core.max_hist", "notanint").is_err());
    assert!(opts.set("core.max_recurse_depth", "-5").is_err());
    assert!(opts.set("prompt.comp_limit", "abc").is_err());
}

#[test]
fn get_category_lists_all() {
    let opts = ShOpts::default();
    let core_output = opts.get("core").unwrap().unwrap();
    assert!(core_output.contains("dotglob"));
    assert!(core_output.contains("autocd"));
    assert!(core_output.contains("max_hist"));
    assert!(core_output.contains("bell_enabled"));

    let prompt_output = opts.get("prompt").unwrap().unwrap();
    assert!(prompt_output.contains("comp_limit"));

    let line_output = opts.get("line").unwrap().unwrap();
    assert!(line_output.contains("tab_width"));
}

#[test]
fn what_was_set_is_told() {
    let mut opts = ShOpts::default();
    for (opt, val) in [("core.dotglob", "true"), ("line.tab_width", "7"), ("set.vi", "true"), ("prompt.leader", "x"), ("highlight.string", "red")] {
        let other = opts.get("core.autocd").unwrap();
        opts.set(opt, val).unwrap();
        let told = opts.get(opt).unwrap().unwrap();
        assert!(told.ends_with(&format!("\n{val}")), "{told:?}");
        assert_eq!(opts.get("core.autocd").unwrap(), other);
    }
    assert!(opts.get("core.nothing").is_err());
    assert!(opts.get("nothing.vi").is_err());
}
