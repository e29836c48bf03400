# iotd

An MQTT v3.1.1 broker whose core is verified with Verus.

- `src/` is the verified library: the packet codec (`protocol`), topic
  matching and validation (`topic`), the subscription table and routing
  (`router`), the per-session protocol state machine (`session`), the
  in-memory store and the reading of stored database rows (`storage`), the
  TLS certificate and key material (`tls`), password-file and ACL-file access rules
  (`auth`), configuration defaults (`config`), listen-address parsing
  (`transport`) and the listener plan (`server`). `buf` and `text` hold the
  byte-buffer and string helpers the rest is built on; the few calls into the
  `bytes` crate and std that Verus cannot see are wrapped there with stated
  contracts. Calls into `chrono` (RFC 3339 timestamps) and `rustls-pemfile`
  (PEM files) are wrapped the same way in `storage::rows` and `tls`.
- `tests/` exercises the library on concrete values.
- `app/` is the daemon around it: command line, TOML configuration, the
  SQL queries of the SQLite store, TCP/TLS listeners and the tokio tasks that read packets, run
  timers and hand each event to the verified session state machine.

The subscription table (`router`) and the in-memory store (`storage`) hold
their entries in vectors under a unique-key invariant (one subscription per
session and filter, one session per client id, one retained message per
topic) rather than in std `HashMap`s and `HashSet`s; the std map forms were
not tried. With
vectors the contents and their order are fully specified, so deliveries go out
in table order.
