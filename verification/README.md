# kono

A global id generator. Each id holds a counter in its high bits and a shard
number in its low bits; the counter lives in a key-value storage, so that ids
keep increasing across restarts.

Layout:

- `src/storage.rs`: the `Storage` trait that the generator keeps its counter in.
- `src/id_gen.rs`: the `IdGen` trait of id generators.
- `src/generator.rs`: `KonoIdGenerator`, the spec of the ids it hands out, and
  the laws about them (ids are unique, increase, batches equal single calls,
  restarts continue from the stored counter).
- `src/codec.rs`: big-endian encoding of stored counters.
- `src/decimal.rs`, `src/query.rs`: reading the query string of a request.
- `src/response.rs`, `src/service.rs`, `src/config.rs`: the answers of the HTTP
  service, the decisions of its request loop and router, and its settings.
- `app/`: the HTTP server (hyper, tokio), the RocksDB storage and the
  configuration file, around the library.
