# rustio

Buffered writing with a verified core. A `Writer` stages bytes in a buffer that the
caller lends, and turns to the sink behind it only when the buffer cannot hold what is
written.

- `src/` is the library, verified with Verus. `Writer` and its buffer are in `writer.rs`
  and `storage.rs`, the `Sink` trait and the way any `Write` becomes a sink in `sink.rs`,
  `WriteDrain` in `sinks.rs`, the hashing sink in `hashing.rs`, `StackBuffer` and
  `WritableStream` in `stream.rs`. `bytes.rs` says what a gathered write stands for, and
  `laws.rs` what holds of the library as a whole.
- `tests/` runs the library.
- `app/` is a demonstration. Its `IoWriter` makes a writer of anything that implements
  `std::io::Write`.

A `Write` says what it has written in the specification functions of the trait, whether
it can fail, and whether it gets on. The contracts of `Writer` are stated over these: what
is written and flushed arrives at the sink in order, nothing is lost and nothing arrives
twice, whatever the buffer's size.

SHA-256 is that of the `sha2` crate and is trusted to be what it says.
