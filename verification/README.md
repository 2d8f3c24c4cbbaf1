# shed

The line editing, completion, history and environment logic of the shed shell,
written in Verus: every function of the library carries a contract that Verus
proves.

- `src/linebuf`: the edit buffer. Lines of graphemes, motions, text objects,
  verbs, undo, the kill ring, history expansion, indentation.
- `src/editor.rs`, `src/editmode`, `src/vimode`, `src/editcmd.rs`: commands, modes,
  and the command line of the editor.
- `src/lineedit.rs`, `src/browse.rs`: what the line editor does with keys, with
  completions, and with the history.
- `src/complete`: completion. Candidates, scores, strategies, escaping, and the
  lists, boxes and grids in which candidates are shown.
- `src/history.rs`, `src/stash.rs`, `src/register.rs`: commands that were run, lines
  that were put aside, text that was copied.
- `src/highlight.rs`, `src/styling.rs`, `src/screen.rs`, `src/prompt.rs`, `src/term`:
  what is shown, and the keys that are read.
- `src/shellenv`, `src/shopt.rs`: variables, redirections, job control, options.
- `src/text.rs`, `src/unicode.rs`: characters, bytes and graphemes.

`app/` holds what surrounds the library: the terminal, files, processes, the
clipboard and the database. `tests/` runs the library.
