# microcache

A key/value cache server that speaks a plain text protocol and the Redis
protocol (RESP), with entries that may expire, a background cleaner and
snapshots on disk.

- `src/` is the library, verified with Verus:
  - `texte.rs`: Unicode white space, splitting a line into words, trimming;
  - `nombres.rs`: reading and writing decimal integers;
  - `protocole.rs`: the command language (`PING`, `GET`, `SET … [EX n]`, `DEL`,
    `KEYS`, `TTL`, `FLUSH`);
  - `resp.rs`: RESP replies, reading a request line by line, turning a request
    into a command line;
  - `lecteur.rs`: the reader that takes a RESP value from a stream one line or
    run of bytes at a time, and the law that encoded replies read back whole;
  - `store.rs`: the store, its expiry rules and its laws;
  - `persistance.rs`: snapshot entries, saving and loading, and the law that
    loading a snapshot, at any later time, gives back exactly the saved
    entries that have not expired by then;
  - `serveur.rs`: carrying out a request and writing the reply.
- `app/` is the program around it: the TCP server on port 6379 (tokio), the
  cleaner thread, the shared lock, and the snapshot file (bincode).
- `tests/` runs the library on concrete values.
