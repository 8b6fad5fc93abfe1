# Chump

Chump is a tool-using chat agent for an OpenAI-compatible model, reachable from Discord or
the command line. It has long-term memory, a task queue, alarms, an inner state, an
episode log, a Markdown wiki ("brain"), repo file tools, GitHub tools and a shell tool.

## Layout

- `src/` — the library, with its contracts and proofs. It holds the tools' logic:
  how tool inputs are read and checked, which paths and commands are allowed, what the
  tools answer, keyword recall, the retry schedule and circuit breaker of the model
  provider, the per-channel rate limiter, the system prompt, how replies are cleaned and
  cut for Discord, and the rows the SQLite tables are read into.
  - `text.rs`, `json.rs`, `order.rs`: characters, UTF-8 lengths, words, a JSON model and
    a total order on strings.
  - one module per tool or concern (`memory`, `cli`, `repo_tools`, `brain`, `task`,
    `schedule`, `state`, `episode`, `github`, `gh`, `tavily`, `delegate`, `calc`,
    `notify`, `diff_review`, `provider`, `turn`, `soul`, `health`, `log`, `limits`,
    `paths`, `memory_db`, `rfc3339`).
- `app/` — the program around it: `main`, the Discord gateway and the order in which it
  applies the library's checks to a message, HTTP and process calls, the SQLite store,
  embeddings and their floating-point ranking.
- `tests/` — tests of the library on concrete values.
