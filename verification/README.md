# phantom-rust

A UDP proxy that makes a remote Bedrock server show up on the local network.

- `src/` is the verified library: the discovery messages (`proto`, `text`), the
  table of clients (`table`, `clientmap`), and the decisions of the proxies
  (`proxy::kernel`, `proxy::fallback`). `outside` holds what is relied on of other
  crates and of std.
- `app/` is the program: arguments, sockets, timers and tasks. It hands the
  library what happens and does what the library decides.
- `tests/` runs the library on concrete values.

Points in time and spans of time are `u128` numbers of nanoseconds.
