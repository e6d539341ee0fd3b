# disk_cache

Verified building blocks for block-device image formats, written in Verus:

* `async_lru_cache`: a least-recently-used cache whose entries are loaded and flushed by an I/O
  back end. Caches can depend on each other, so that one is flushed before another.
* `on_disk_struct`: integers and structures in binary format, with a fixed endianness and fixed
  field offsets.

`src/` is the library.  It does not wait for anything: each operation on the cache is a state
machine that asks for one piece of outside work at a time (a lock, a flush, a load) and is told the
outcome.  `laws.rs`, `eviction_laws.rs`, `history.rs`, `held.rs`, `graph_laws.rs` and `locks.rs`
state and prove what the operations promise together.

Every function in `src/` is verified but four, which each make one call of the standard library and
whose contracts are trusted: `strong_count`, `weak_count` and `try_unwrap` in
`async_lru_cache/entry.rs` (`Arc::strong_count`, `Arc::weak_count`, `Arc::try_unwrap`), and
`to_ne_bytes` in `on_disk_struct/bytes.rs` (`u16::to_ne_bytes`).

`app/` is ordinary Rust around the library: the asynchronous cache, which runs the state machines
with tokio's locks, and a macro that defines structures on disk as Rust types.

Keys must have an `Eq` and a `Hash` that agree with each other and with the identity of the value,
as derived ones do.
