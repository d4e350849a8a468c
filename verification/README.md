# tui_do_ui

The interface logic of tui-do, a local-first terminal client for Vikunja, written in Verus
so that what each piece does is stated in a contract and proved.

## Layout

- `src/` is the library. Every function in it is verified against its `requires` and
  `ensures`:
  - `keymap` — keys, bindings, chords and the help table;
  - `modal`, `label_forms` — the modal forms and how each answers a key;
  - `model`, `models` — focus, panes, toasts, the landing scope, and the tasks, labels and
    projects the interface reads;
  - `rows`, `grid`, `columns` — truncation, word wrapping, column widths, the cells of the
    task list, row heights and scrolling;
  - `sidebar` — the project tree flattened into rows;
  - `theme` — the palette at each colour depth;
  - `markdown`, `plain` — how descriptions are prepared for the preview, and HTML reduced
    to text;
  - `dates` — dates as a person reads them, in the reader's own zone;
  - `urls`, `server`, `guard` — links in tasks, server URLs, and the production guard;
  - `resolve` — projects and labels named by the user;
  - `update`, `actions`, `keys`, `messages`, `sync`, `quick` — the state machine: what a
    key press, a command, a form submission, a message from the store and a report from
    the sync engine do to the model, and the effects they ask for. Three submissions are
    handed back to the caller rather than carried out, because reading them needs the task
    store's quick-add parser: a task typed in quick-add syntax, and the texts of the edit
    and due-date forms. Given the parser's answer, the last two are carried out by
    `editing`;
  - `editing`, `label_flow`, `links`, `quickadd` — saving the task form and the due-date
    form, opening and saving the label form, following a link in a task, and filing a task
    from what the quick-add parser read;
  - `mutation` — the changes the interface makes and the change that takes each back;
  - `screen`, `drawing`, `listing` — what the header, the status line, the list's
    heading row and body, and the preview show, and the rectangles they are drawn into;
  - `runtime` — the sync scheduling decisions and the small texts the runtime prints;
  - `text` — characters, trimming, case folding and display width.
- The few calls into other crates (`unicode-width`, `fuzzy-matcher`, `chrono`, `comrak`,
  `url`, and some of `std`) sit behind small wrappers marked `#[verifier::external_body]`,
  each with a doc comment saying what its contract claims.
- Laws that relate several functions are public proof functions whose names begin with
  `law_`.
- `tests/` runs the library on concrete values.
- `app/` is the terminal program: arguments, the environment, the terminal, and drawing
  with `ratatui`. It has no task store and no sync engine, so the effects the library asks
  for are not performed and the list stays empty. `app/description.rs` is the `html2text`
  half of the library's Markdown renderer (`markdown`), with a decorator whose every style
  comes from the library. The preview draws a description as plain text, and nothing calls
  the renderer: it is offered, like the library's `markdown` module, for a pane that wants
  descriptions rendered rather than flattened.
