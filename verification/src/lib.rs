//! Line editing, completion and history logic of the shed shell.

pub mod browse;
pub mod complete;
pub mod context;
pub mod editcmd;
pub mod editmode;
pub mod editor;
pub mod editor_laws;
pub mod highlight;
pub mod highlight_laws;
pub mod history;
pub mod history_laws;
pub mod key_laws;
pub mod keys;
pub mod lineedit;
pub mod linebuf;
pub mod markers;
pub mod prompt;
pub mod register;
pub mod screen;
pub mod screen_laws;
pub mod shell_laws;
pub mod shellenv;
pub mod shopt;
pub mod stash;
pub mod styling;
pub mod term;
pub mod text;
pub mod unicode;
pub mod vimode;
