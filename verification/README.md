# gitgui

A git GUI that runs inside a kitty-graphics terminal. This crate holds its
core as a library whose functions carry machine-checked contracts, and a
thin program around it.

- `src/` is the library:
  - `term/`: the input parser, the kitty graphics encoders, the capability
    probe's reply parser and report, the session state.
  - `git/`: commit graph layout, status lists, diff assembly, refs,
    rebase todo rewriting, patches, the worker's dispatch and messages,
    the AI tool's prompt and answer.
  - `render/`: the frame buffer and the pixel blending.
  - `agent.rs`, `cli.rs`, `split.rs`, `demo.rs`, `runtime.rs`, `shell.rs`:
    the agent API's decisions, argument parsing, terminal splits, the demo
    frame, terminal sequences, the clipboard.
  - `text.rs`, `seqs.rs`: string and sequence helpers and the few trusted
    calls into the standard library.
- `tests/`: tests of the library on concrete values.
- `app/`: the program: termios, sockets, processes, files, git2, and the
  loops that drive the library.
