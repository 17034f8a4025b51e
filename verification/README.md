# diffski

A live diff TUI you keep open next to a coding agent: it watches a git working tree
and shows everything that changed as one continuous diff, with the file list as its
table of contents.

The library under `src/` holds the program's rules, written in Verus: every function
states what it returns or changes, and the statements are proved. The program under
`app/` is ordinary Rust around it: it runs git and delta, reads the terminal's events,
and puts on the screen what the library drew.

## The model

`src/state.rs` describes the application as a mathematical value, `State`, and each
action as a function from one state to the next; `App` in `src/app.rs` is the executable
application, whose view is a `State`. Every method's contract says which action it
performs. Scroll offsets have 16 bits and stop at the largest of them. Functions named
`..._fits` say when an action stays within machine numbers (screen coordinates, totals);
`can_...` tests the same at run time.

## Modules

- `txt`, `table`: texts as sequences of characters, maps and sets keyed by text
- `search`, `filter`: searching inside the changes, filtering filenames
- `git`, `commits`: what git's answers mean
- `delta`, `rich`: rendered diffs as styled lines, and the cache of them
- `config`, `update`, `watch`, `clipboard`: settings, updates, polling, copies
- `sort`, `geometry`, `labels`: orders, screen arithmetic, shortened texts
- `state`, `app`, `listing`, `building`, `history`, `mouse`, `input`: the application
- `frame`, `list_pane`, `diff_pane`, `footer`, `picture`: what is drawn
- `pacing`: what the event loop does next
- `*_laws`, and the functions named `law_...` elsewhere: what holds across actions

## What is taken on trust

Layouts come from ratatui, styled lines from ansi-to-tui, and a few text functions
(lower case, upper case, lossy decoding, `String::push` and `pop`) from std. What the
proofs rely on of these stands in the contracts of `frame::split_rows`,
`frame::split_columns`, `delta::parse_ansi` and at the top of `txt`.
