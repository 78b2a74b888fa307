# goose

A library with the decisions behind delegates, terminals and sessions of the goose agent, written
in Rust and verified with Verus.

- `src/` is the library. Every function states in its contract what it returns, over mathematical
  models of its data; laws that relate several functions stand as public proof functions next to
  them. Calls into outside crates go through a few small functions whose doc comments say what is
  believed of the outside code.
- `app/` does the input and output: it runs processes, reads and writes progress files, draws the
  status block, serves the summon tools, and prompts on the terminal. What it needs of the program
  that it is built into stands as traits in `app/host.rs`.
- `tests/` holds the tests of the library.

| Topic | Modules |
| --- | --- |
| Delegates | `summon`, `correlation`, `json`, `progress`, `tailer`, `tailed_files` |
| Status block | `delegate_status`, `sanitize`, `renderer`, `renderer_handle` |
| Terminals | `terminal`, `terminal_buffer` |
| Sessions | `session`, `session_list`, `session_remove`, `session_export`, `session_select`, `markdown` |
| Foundations | `text`, `decimal`, `ordered_map`, `paths`, `clock` |
