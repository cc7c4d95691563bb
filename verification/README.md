# Sediment

Sediment keeps notes that remember: conversations, meetings and tasks settle into a
folder of Markdown notes (a *formation*) and a graph of dated facts beside it.

This crate holds what Sediment decides and computes, written in Verus: each function
states in its contract what it returns or changes, and Verus proves it.

- `src/` is the library. A module is named after what it is about: `audit` (the log and
  how a turn is undone), `diff_gen` (facts written into notes), `staging` (proposals,
  and how they are kept or taken back), `chat`, `distillation` and `turn_flow` (turns
  with an engine), `claude_code` and `copilot` (what is said to an engine and how its
  answers are read), `formation_tools` (the tools an engine is offered), `indexer`,
  `daily_note`, `tasks`, `settings`, and so on. Proof functions named `law_…` state what
  holds of several functions together.
- What is believed without proof stands behind small wrappers in `text`, `datetime`,
  `ids`, `json` and `cancel`; each says what it claims of the function it calls.
- `tests/` runs the library on concrete values.
- `app/` is the program around it: files, processes, sockets, sound and the command
  line. The graph store, the watcher of the notes and the formats of meeting and task
  notes are services of their own, which `app/` reaches through three traits
  (`app/store.rs`). Samples and voice
  vectors are floating-point numbers and stay there too. Three variables of the
  environment are read: `SEDIMENT_VENDOR`, which must name the vendor of the cold
  engine, `SEDIMENT_PROMPT`, the file of the persona, and `SEDIMENT_OLLAMA_URL`, which
  overrides the configured endpoint of Ollama.
