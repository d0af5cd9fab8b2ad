# kiwix_chat

A terminal chat client in which a local LLM agent answers questions from an
offline Kiwix (Wikipedia) library. The library under `src/` holds the logic,
each function with a contract proved by Verus:

- `text` — character-level string operations (trimming, splitting, searching,
  decimal numerals) with their specifications.
- `kiwix` — request URLs for `kiwix-serve`, the search and catalog XML
  readers, article pagination and line search (`grep_lines`).
- `llm` — chat messages, backend URL normalization, model choice, the
  event-stream line splitter, the per-chunk stream state and the streamed
  tool-call accumulator.
- `config` — command-line settings and backend autodetection as a step
  machine (the first candidate that reports a model is used).
- `agent` — the decisions of an agent turn (`turn`) and of a research
  sub-agent (`research`) as step machines, and the tools' definitions,
  arguments and results (`tools`).
- `tui` — the chat session state (`app`), math and markdown handling,
  word wrapping, tables, and the layout of the transcript and the status
  line (`render`).

`app/` is the program around it: command-line parsing, HTTP clients, the
loops that perform the agent's steps, and the terminal event loop.
