# callout

An ambient voice interface for coding agents: a daemon that speaks when an
agent needs a decision, listens on a push-to-talk hotkey, and routes the spoken
answer back over a local HTTP API.

## Layout

- `src/` — the library, verified with Verus. Public functions state in their
  `ensures` what they return or change; where a result rests on the clock, a
  random source or the other end of a channel, the contract states what holds
  of every outcome; `AskRouter::take_answer` states the response for a waiting
  question and the channel it belongs to, and sending it is left to the caller. The `law_*` proof functions state
  properties that span several calls (a deregistered agent is forgotten, a
  question is answered at most once, a spoken reply only reaches an agent whose
  question is waiting, an ask always cleans up after itself, ...).
  - `agents` — the registry of connected agents, sorted listing, stale pruning.
  - `router` — questions waiting for an answer, and how a transcript selects a
    choice (first mentioned choice, then fuzzy Jaro–Winkler match).
  - `api` — validation and state changes behind each HTTP endpoint.
  - `ptt` — hotkey parsing and the push-to-talk decisions (which question a
    recording answers, routing by agent name).
  - `hook` — the permission question, the hook decision JSON, and the steps
    that find a session's agent id.
  - `glossary`, `voices`, `model`, `logs`, `install`, `settings`, `tray`,
    `config`, `cli` — the smaller pieces; `text` and `keyed` are the string and
    keyed-vector primitives the rest is stated with.
- `tests/` — tests of the library on concrete values.
- `app/` — the program around the library: HTTP server (axum), HTTP client
  (ureq), files under `~/.callout`, audio capture, the global hotkey and the
  macOS menu-bar item.
