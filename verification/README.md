# lean_ctx (verified core)

The decision logic of lean-ctx's addon sandbox, admin-port hardening, signed
evidence export, team savings roll-up and gain views, written in Verus with
contracts proved against mathematical models.

- `src/` — the verified library: `sandbox` (mode parsing, plans, launcher
  argv), `security` (CSP, cache rules, per-IP failed-auth throttle),
  `evidence` (row digest, Ed25519 seal, offline verification), `hex`,
  `savings` (store file and line selection, saturating roll-up, stable
  ranking), `gain` (the data of the graph and daily views), `text`.
- `app/` — the I/O around it: PATH probing, the axum middleware and a
  clocked, locked throttle, the serde form of exports and the Postgres totals
  query, and the savings-store reader with its USD arithmetic.
- `tests/` — executable tests of the library.

Design notes:

- The throttle keeps its windows in a vector with one entry per client
  address (at most `MAX_TRACKED_IPS`), searched linearly. A client address is
  an IPv4 or an IPv6 value kept apart; vstd's `HashMap` specifications hold
  for integer keys only, and folding both families into one integer key would
  merge an IPv4 client with its IPv4-mapped IPv6 form.
- The per-model savings totals keep models in order of first appearance, so
  models with equal totals are ranked in that order.
- The text rendering of the gain views (colour theme, number and USD
  formatting, loading the stats store, the "no data" messages, float rates),
  the keystore-backed signing of evidence exports, the database export that
  feeds them and the JSON dump of the stats store are not part of this crate;
  the library provides the data those views and exports are built from.
