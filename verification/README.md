# ilar_tui

The logic behind the terminal view and the browser view of an agent's sessions,
written in Verus: every function states what it returns, and the statement is
proved.

- `src/` is the library.
  - `chars`, `words`, `numbers`, `measure`: text, as sequences of characters and as
    columns of a terminal.
  - `style`, `buffer`, `theme`: styled lines, screen cells, and the palettes that
    they are painted in.
  - `text`, `columns`, `format`: wrapping, truncation, the columns that a row counts
    for, and values as text.
  - `sidebar`, `todos`, `selection`: the panels beside the transcript, and what a
    selection copies.
  - `transcript`: the lines of a transcript, what the events of a turn do to them,
    the pages of Markdown that they ask for, and the rows that they are shown as,
    with a cache.
  - `session`: a session's log, and the transcript that is rebuilt from it.
  - `serve`: what the server answers: the gates, the listing, the pages, the
    stream, the watching of the store, and the turns that it runs.
  - `secret_cli`: the steps of the secret store's command line.
- `tests/` runs the library.
- `app/` is ordinary Rust around it: the terminal, files, HTTP, and the async
  loops that carry out what the library decides. The session store, the runtime
  and the secret store are traits there (`app/ports.rs`).

What the proofs rest on: the functions of other crates and of the standard library
that the library calls are declared next to their callers, each with what is
claimed of it (`measure.rs`, `sidebar.rs`, `chars.rs`, and `serve/stamp.rs`,
`serve/percent.rs`, `serve/auth.rs`, `serve/page.rs`).

Laws that span several functions are public proof functions whose names begin with
`law_`.
