# One Slot

A gateway that compresses long texts through a language model, and the worker that talks to the
model. One program runs either of them:

- `one_slot gateway`: public HTTP and web UI on `$PORT`
- `one_slot worker`: private local process on `127.0.0.1:$WORKER_PORT`, a pool of model accounts
  behind it. It takes its port from `PORT`, so what starts it hands `WORKER_PORT` over:
  `PORT=$WORKER_PORT one_slot worker`.

The library under `src/` holds the rules: what is cut, cached, relayed, refused, listed and sent.
Verus checks it. `app/` holds the HTTP servers and clients, the clocks, the environment, and the
JSON forms of some of the library's types.

| Module | What it decides |
| --- | --- |
| `gateway::chunking` | how a text is cut into chunks that end with a sentence or a paragraph |
| `gateway::relay` | what is posted to the worker, passed on to the client and kept |
| `gateway::cache` | which compressed texts still count |
| `gateway::compress` | whether a request is refused, answered from the cache or relayed |
| `gateway::api_keys`, `gateway::access` | which keys there are and who is let in |
| `gateway::admin`, `gateway::dashboard`, `gateway::routes` | administration and settings |
| `worker::accounts`, `worker::status` | lists of accounts and how they are told |
| `worker::requests`, `worker::streams`, `worker::settings` | requests, streams and settings |
| `sse`, `json`, `text`, `offsets`, `number`, `order`, `digest`, `clock`, `error` | what both sides share |

Outside crates (`dashmap`, `sha2`, `hex`, `uuid`, `serde_json`, and the HTTP types of `axum`) are
called through functions marked `external_body`. The doc comment above each says what is taken on
trust.

The proof functions whose names begin with `law_` state what holds of the library as a whole: that a
chunked text loses nothing visible, that a repeated request gets what the first one was sent, that a
kept key lets its client in and a forgotten one does not.

## Environment

The gateway reads `PORT`, `WORKER_URL`, `WORKER_CHAT_COMPLETIONS_URL`, `WORKER_MODELS_URL`,
`WORKER_ADMIN_ACCOUNTS_URL`, `ADMIN_TOKEN`, `REQUIRE_API_KEY` and `API_KEYS`, and serves
`static/dashboard.html` at `/`.

The worker reads `PORT`, `ACCOUNTS` (one to a line, as in `email|password`), `UPSTREAM_BASE_URL`,
`WASM_URL`, `USER_AGENT`, `MAX_CONCURRENT_PER_ACCOUNT`, `PROXY_URL`, `COMPRESSION_MODEL` and
`COMPRESSION_PROMPT`.
