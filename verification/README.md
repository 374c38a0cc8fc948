# dr.md

A Markdown note editor with a live preview. The editing logic is a library,
`dr_md`, written in Verus: its functions state their behaviour in `requires` /
`ensures` and Verus proves them. The window, the file system and the settings files
live in `app/`, an ordinary Rust program around the library.

The proofs rest on trusted wrappers, functions marked `#[verifier::external_body]`
whose contracts Verus believes: the calls into `ropey` (`src/editor/rope.rs`),
`regex` and `str::to_lowercase` (`src/editor/search.rs`), `url` and `urlencoding`
(`src/app/paths.rs`), and a few `char` and `str` conversions of std
(`src/text.rs`). Where a result takes more than a few lines to state, it is
named by a `pub uninterp spec fn` next to the wrapper, and the contracts speak
of that name.

## Layout

- `src/text.rs` — characters, lines, trimming, decimal numbers, UTF-8 widths.
- `src/editor/` — the document: rope-backed buffer, cursor, selection, undo
  history with word-by-word grouping, formatting helpers and tables, typing
  helpers (closing brackets, wrapping selections, Tab and Shift+Tab, with the
  proof that Shift+Tab takes back a Tab in `indent.rs`), find and
  replace, highlighting spans, cut/copy/paste.
- `src/markdown/` — wiki links (`[[note|label]]`) and the preview's task-box
  write-back.
- `src/app/` — heading anchors, link targets and link paths, what following a
  local link opens or creates, tab labels, and the decisions of the application
  state (focus after closing a tab, next and previous tab, swapping tabs,
  what the session remembers of the tabs, autosave, reusing a file's tab).
- `src/config/`, `src/keymap/`, `src/explorer/`, `src/workspace/` — settings
  types, the shortcut table, the explorer's rules (which entries are listed, their
  order, the selection rectangle's steps, names of copies, where the open file
  goes after a move), the vault.
- `tests/` — tests of the library.
- `app/` — the `eframe` application.

Laws the library proves are public proof functions named `law_*`, next to the
functions they speak about.
