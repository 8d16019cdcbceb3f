# fox_llm

A chat with a language model in the terminal, with memory, tasks and branches of a dialogue, and
servers of tools (GitHub reports, a calendar, Telegram, scheduled pipelines) beside it.

- `src/` is the library: parsing, state machines, rules and formats, with contracts that Verus
  proves. A function on text states over sequences of characters what it returns; a type with
  state has a view and, where it needs one, an invariant; laws that span several functions are
  public proof functions named `law_...`.
- `tests/` runs the library on concrete values.
- `app/` is the program around it: the terminal, HTTP, SQLite and the protocol of the servers.

Calls into other crates stand behind small functions marked `external_body` in `src/`
(`json.rs`, `display.rs`, `tools.rs`, `registry.rs`, `calendar.rs`, `time.rs`, `text.rs`,
`task_update.rs`). Each says in its doc comment what is taken for granted of the call.

Temperatures, metrics and shares are floating-point numbers: the library carries exact integers
or texts, and `app/` computes with the floating-point values.
