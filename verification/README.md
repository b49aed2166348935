# proxy_m365_write

A governed Microsoft 365 write path that can only create Outlook drafts. The
proxy authenticates an inter-VM bearer capability by its SHA-256 digest,
permits nothing but `POST /v1.0/me/messages` with a JSON body of at most
64 KiB, validates the draft against a strict schema, re-encodes it and
forwards it to Microsoft Graph.

Layout:

- `src/` — the library, verified with Verus:
  - `text.rs`: Unicode white space, trimming, splitting at a separator;
  - `vars.rs`: the variable map (later assignments win);
  - `config.rs`: `.env` parsing, environment lookup, digest decoding, `Config::load`;
  - `auth.rs`: constant-time comparison and bearer authentication (SHA-256 from `openssl`);
  - `draft.rs`: the draft types, email-address rule and schema limits;
  - `routes.rs`: Graph paths, the JSON content-type rule, the upstream URL;
  - `handler.rs`: the per-request state machine and its laws.
- `app/` — the server: reads the environment and `.env`, runs the hyper
  server, decodes and encodes JSON with serde, and calls Graph with reqwest.
- `tests/` — tests of the library on concrete values.
