# trent

A small peer-to-peer file hosting tool. A server hosts the files its YAML
configuration lists (optionally zstd-compressed), split into chunks; a client
lists a server's files or downloads one chunk by chunk. Known peers are kept
in a SQLite database.

## Layout

- `src/` — the library, verified with Verus:
  - `wire.rs` — big-endian framing of protocol words;
  - `util.rs` — the 256-byte NUL-padded UTF-8 string fields;
  - `cfile.rs` — a hosted file and its chunk geometry (with the proof that
    the chunks reassemble the file), zstd compression; a server hosts each
    file in 40 chunks, compressed at zstd level 6 when configured so;
  - `server/` — the hosted set and its listing, request routing, the
    liveness answer, and the download side of the server;
  - `client/` — request headers, reading listings, the liveness check, and
    the download side of the client (with the proofs that a listing, a
    download request and a file header are read back as they were written);
  - `peers.rs` — peer kinds, address preference by requester view,
    `host:port` validation, peer identifiers, the store changes of the
    peer commands and a model of what they do to the store (with the proof
    that a peer added with a valid address is listed with it, and that a
    peer list exported from one store and merged into another stores every
    exported address). The model states what the app's SQL is meant to do;
    nothing checks the SQL against it, but the tests run the changes on an
    in-memory SQLite store;
  - `session.rs` — the client/server session state machine, including the
    move to `Dead` when either side waits in vain;
  - `handler.rs`, `cli.rs` — connection contexts and the command line.
- `app/` — the program: argument parsing, TCP connections (tokio), file
  access, the SQLite peer store and JSON exchange of peer lists.
- `tests/` — tests of the library.

## Wire format

Every integer is a big-endian `u32`. A request starts with the protocol
version (0) and an action (0 download, 1 file listing, 2 liveness check).
A download request is the file name in a 256-byte field; the server answers
with version, flags (1 when compressed), number of chunks, chunk size and
last chunk size, then serves each chunk the client asks for by index.
