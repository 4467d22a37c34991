# meow

The decision logic of a rule-based proxy client, written in Verus: the
functions in `src/` carry contracts that Verus proves, except the small
trusted wrappers around other crates (marked `external_body`), whose
contracts are believed, not proved.

- `src/common` — addresses and prefixes, credentials, errors, adapter kinds.
- `src/config` — the `authentication`, `geodata` and `proxy-providers`
  blocks, subscriptions, and the YAML tree they are read from.
- `src/dns` — the server's wire format (questions, answers, empty and
  NXDOMAIN responses), the sharded LRU answer cache, nameserver URLs.
- `src/proxy` — outbounds (DIRECT, AnyTLS, Hysteria 2 codec, simple-obfs
  HTTP and TLS framing, v2ray-plugin options), proxy groups (fallback,
  selector with its persisted choices, url-test) and transport chains.
- `src/bench` — the byte and integer logic of the benchmark harness.
- `src/api.rs` — log levels and streamed log messages.

Calls into other crates (`regex`, `ipnet`, `subtle`, `base64`, `rand`, `lru`,
`serde_json`, `serde_yaml`, `time`, `rustls`) and a few std functions go
through those wrappers; their contracts state what the crates' sources and
documentation show, and nothing checks them but reading.

`app/` holds what cannot be verified: sockets, files and processes, the
async stream adapters that drive the library's state machines, tracing and
TLS configuration, and floating-point reporting. `tests/` exercises the
library on concrete values.
