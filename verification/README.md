# kv_store

A replicated key-value store built on a write-ahead log, verified with Verus.

- `src/wal/frame.rs`: the log's frame format (length, CRC-32, payload), the
  scan that walks frames, and the laws that encoding and scanning obey.
- `src/wal/writer.rs`: the log as the bytes of its file plus an index from
  logical offset to byte position; a read after an append gives back the
  appended payload.
- `src/store/`: the key-value store and its trait.
- `src/replication/`: messages, node roles, the leader's and the follower's
  handlers, the node's dispatch, message framing, and the controller's
  failover decision.
- `app/`: the program around the library: files, sockets, channels, the
  tokio event loops, and the serde forms of the messages.

Design notes:

- The store's table is a list of key-value pairs with no key twice, viewed
  as a map. vstd specifies `HashMap` only under `obeys_key_model::<Key>()`,
  which it provides for integer keys but not for `String`, so no contract over
  a `String`-keyed `HashMap` could be proved without an assumption. The log's
  index, keyed by `u64`, and the leader's acknowledgements, keyed by `u128`,
  are `HashMap`s.
- Messages from nodes to the controller have no variants yet; Verus refuses
  an enum without variants, so that type lives in `app/`.
- The CRC-32 is `crc32fast`'s; the library names its result and does not
  restate the algorithm.
- `KvStore::put` and `delete` take the change's serialized entry (serde
  lives in `app/`), write it to the log first and then change the data.
- The store's table is verified code rather than a `HashMap` behind trusted
  wrappers: the map laws are then proved, not assumed.
