# buzz_relay

The decisions of a Nostr relay, verified with Verus.

- `src/` is the library: the negotiation of `permessage-deflate` and the upgrade
  behind it, the routes and the root of the relay, what is recorded of a request,
  and the team catalog. Every function is stated in a contract and proved.
- `src/deflate_laws.rs` and `src/catalog_laws.rs` state what holds of every
  negotiation and of every catalog; `root.rs`, `router.rs`, `routes.rs`,
  `metrics.rs`, `measure.rs` and `message.rs` hold the laws of their own subjects.
- `app/` is the ordinary Rust around it: the sockets, the routers, the recorder,
  the proxy and the serialized forms.
- `tests/` runs the library on concrete values.

What is believed and not proved speaks of four functions of other code: how
`String::push` extends a text, which texts `HeaderValue::from_str` takes, that
`derive_accept_key` of `tungstenite` is a function of the key whose result may
stand in a header, and that `Event::verify` of `nostr` is a function of the
event's values.
