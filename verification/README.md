# cache_rs

A small key-value cache, verified with Verus.

- `src/frame.rs`: the 8-byte big-endian frame header and framed messages.
- `src/uc.rs`: the cache requests and responses carried in frames, and how
  the server answers them.
- `src/protocol.rs`: the named-map TCP protocol: request parsing, replies,
  and `MapServer`, which decides what to do with the bytes of a connection.
- `src/storage/`: the `Storage` trait with in-memory, LMDB and sled
  backends, a map service of named LMDB databases, and `WalStorage`, which
  logs every write before applying it (record framing in `wal.rs`).
- `src/kv.rs`: a standalone LMDB store.
- `src/wal.rs`: bookkeeping of the indexed log (big-endian framing, latest
  index, truncation, index assignment).
- `src/items.rs`, `src/time.rs`: shirt items, clocks.
- `src/lmdb_env.rs`: the calls into the `lmdb` crate.
- `app/`: the server and client programs, socket and file I/O, protobuf and
  bincode encodings.
