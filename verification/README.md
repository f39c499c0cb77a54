# fake_redis_rs

A small server that speaks the Redis wire protocol and understands `SET`,
`GET`, `HSET`, `HGET`, `HDEL`, `DEL` and `COMMAND`, with values kept in memory
only. It can be tried with `redis-cli` or any Redis client library.

Layout:

- `src/` is the library, written in Verus and verified:
  - `client.rs` cuts the bytes read from a connection into packages of lines
    (`get_complete_package`, with `frame` as its model: a header `*n`, then
    for each word a length line `$len` and the word's `len` bytes, which may
    arrive over several reads) and decides what the writer of a connection does
    with each parsed message;
  - `parser/` and `config.rs` turn the lines of a package into a `Message`;
  - `storage/` holds the string values (which may expire, `SET ... EX|PX`),
    the hash values and the database that runs commands on them at a given
    moment (`Inner::handle`, with `handle_model` as its model); its maps are
    `KeyedMap`s, hash maps that also list their keys so that they can be
    copied;
  - `serve.rs` numbers the connections;
  - `text.rs` renders replies and wraps the few std string conversions used.
  Proof functions named `law_*` state the properties the library keeps, such
  as a `GET` giving back what a `SET` stored, a well-formed package being
  framed into its lines, or a package read in batches giving what one read of
  it gives.
- `app/main.rs` is the program: the tokio listener, the connection tasks,
  the clock and the lock around the shared database.
- `tests/` runs the library on concrete commands and packages.
