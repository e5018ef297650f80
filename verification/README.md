# cli_switch

The verified core of CC Switch's browser mode (`cli-switch`): a headless
server that serves the UI over HTTP and bridges it to the app's IPC commands
and events.

- `src/` — the library, verified with Verus:
  - `options` — the command line (`--port`, `--host`, `--no-open`, `--token`,
    `--help`), with its grammar as a spec and laws (`--flag value` and
    `--flag=value` agree; a parsed token is never blank);
  - `ip` — IP addresses: the text grammar `--host` accepts, and display text;
  - `auth` — the optional bearer token: constant-time comparison and the
    admission decision for `/api/*`;
  - `bridge` — which commands are refused in browser mode, and how dispatch
    outcomes are answered;
  - `sse` — which events reach the browser (distinct, wire-safe names);
  - `server` — the startup URL, banner and warning, and where the frontend is
    served from;
  - `runtime` — startup decisions (usage errors, log level, proxy recovery,
    crash recovery);
  - `lexical`, `text` — digits, numbers, field splitting, string building.
- `tests/` — tests run against the compiled library.
- `app/` — the HTTP routes (axum), the event stream and IPC dispatch (Tauri's
  mock runtime), the listener and the command line around the library.
