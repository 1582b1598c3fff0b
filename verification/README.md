# RekaSerdoba server

The protocol core of the RekaSerdoba tunnel server, written in Verus: what the server
computes and decides is stated in contracts and proved.

- `src/` is the library. Each module states its data as plain values (`...Model`), what an
  operation does as a function on these values, and proves that the executable code does
  exactly that. Laws that span several operations stand as public proof functions.
- `src/crypto.rs` holds the calls into the cryptographic crates. Their results have names,
  and the contracts of the library speak of these names. `src/base64url.rs` and
  `src/carrier.rs` hold the calls into `base64` and `bytes`.
- `tests/` runs the library, with a client of its own on the other side of the handshake.
- `app/` is the programs around the library: the server, the helper that owns the network
  interface, a bridge from local messages to WebTransport, and a small HTTP/3 client. The
  name under which the program is started selects one of them.

Times are handed to the library: nanoseconds of a clock that does not go back, or Unix
seconds. Random numbers are drawn in the library; beside each function that draws some
stands one that takes them as arguments.
