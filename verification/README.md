# agoralume

The server behind AgoraLume, a group chat in which a user talks with a cast of
AI personas. This crate is written in Verus: the rules of the chat are
executable Rust whose behaviour is stated in `requires` / `ensures` contracts
and proved.

## Layout

- `src/` — the verified library.
  - `workspace.rs` — organizations, departments, personas, groups, memories
    and their invariants (unique names, at most one user persona, cascading
    deletes, prompt-version labels).
  - `chat_log.rs`, `models.rs` — messages, read receipts, the turn record and
    the conversation window.
  - `agent/` — the multi-agent turn: events and their urgency, the decision
    a brain returns, the retry rule and backoff, the rate limiter, the tools,
    prompt assembly and the rule-based brain.
  - `auth.rs` — access/refresh tokens with rotation and a grace window, the
    login throttle, boot passwords, Argon2 hashing.
  - `routes.rs`, `api_error.rs`, `contract.rs` — request validation, the
    problem+json errors, and the document-wide passes over the published API
    description (bearer scheme, 401/403, relaxed `PATCH` bodies, problem
    documents), run on a plain-value model of the document.
  - `config.rs`, `llm_settings.rs`, `persist.rs`, `usage.rs`, `suggest.rs`,
    `sim.rs` — configuration, model settings, the on-disk layout, usage
    accounting, reply suggestions and the placeholder turn.
- `tests/` — tests of the library, run against the real outside crates.
- `app/` — the program around the library: the axum server, async turn
  loop, file storage, serde wire types, the model client, and the API
  document (`--dump-openapi`), converted to and from the library's model.

Outside crates are reached only through a few trusted items (clock, UUIDs,
SHA-256, Argon2, chrono's local time, `http` status reasons); each
states in its doc comment what is assumed of it.
