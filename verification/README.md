# xfer

The core of a download engine for HTTP, HLS playlists and BitTorrent, written and verified
in Verus.

- `src/` is the library. It holds the state of the engine and decides what happens next:
  how a file is cut into ranges and who fetches which, how playlists are read and resumed,
  how tasks wait, run and end, what a session keeps, and how both RPC protocols are read
  and answered. Every function states in its contract what it returns or changes; laws that
  span functions are public proof functions named `law_*`.
- `src/outside.rs` holds the calls into other crates, with what is taken from their
  documentation.
- `app/` is the engine around it: files, network, clocks and the RPC transport. It carries
  out what the library decides and hands back what came of it.
- `tests/` runs the library on concrete values.

Times are nanoseconds of one monotonic clock unless a name says otherwise. The library
never reads a clock, a file or a socket: what it needs of them comes in as an argument, and
what it wants done goes out as an `Effect`.
