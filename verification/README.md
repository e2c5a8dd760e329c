# SidePulse Bridge

Message passing over HTTPS and Server-Sent Events, with push notifications. One
side listens on a channel, the other posts plain text to it. While nobody
listens, the latest five messages wait for up to five minutes. A post to
`apns_<device token>` becomes a push notification, and a copy of it can be
fetched from `/queued` for as long.

- `src/` is the library, verified with Verus: channels and their queues, the
  rate limiter, the counters, what a push says, who may see the admin page, and
  what every endpoint answers. The modules that end in `_laws` prove what these
  promise together: that no message is lost between a poster and a listener,
  that no client gets past its limits, that the counters tell the truth.
- `app/` is the server around it: `axum` routes, TLS, the push service, files
  and the environment.
- `tests/` runs the library, with the crates it calls, on concrete values.

What is taken on trust of the outside crates stands in `src/tables.rs`
(`dashmap`), `src/channel.rs` (`tokio`), `src/json.rs` (`serde_json`),
`src/push.rs` (`a2`), `src/auth.rs` (`base64`) and `src/clock.rs` (`std`), each
item with what it claims.
