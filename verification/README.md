# ttl_legacy

The rules of a dead-man's-switch vault service, written in Verus and proved
against their contracts.

- `src/` — the verified library.  `models`, `store` and `handlers` hold the
  backend's records, stores, search, exports and compliance reports;
  `templates` the vault templates and localized e-mails; `reminders` the
  reminder preferences and scheduling rule; `websocket` the live stream's
  decisions (tokens, event scoping, heartbeat, back-off); `insurance` the
  stored form of TTL insurance policies; `caps`, `floors`, `matching`,
  `ranking`, `vesting` and `zk_verifier` the contract rules.  `outside` holds
  the few trusted calls into chrono, uuid, serde_json, csv and the Soroban
  host (SHA-256).
- `app/` — the service around the library: HTTP routes, SQLite storage, the
  scheduler loop, the WebSocket stream and the Soroban contract glue.
- `tests/` — tests of the library on concrete values.
