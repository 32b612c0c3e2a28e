# proxy_core

The core of a caching HTTP proxy for macOS, written and verified in Verus.

- `src/cache`: fingerprints, file names, the index of entries, ranges of large files and
  how they are put together, cache policies, and eviction.
- `src/proxy`: what is decided for a request and for its response, the headers that are
  kept, and what the proxy knows of itself.
- `src/dashboard`: the answers of the dashboard.
- `src/macos`: the proxy settings and the certificate commands of the system.
- `src/outside`: the calls into other crates. Their contracts are believed, not proved;
  each says which function it calls and what it claims of it.
- `src/text.rs`, `number.rs`, `order.rs`, `path.rs`, `like.rs`, `size.rs`: text, numbers,
  sorting, paths, search patterns and sizes.

What holds of several functions together is stated in the public proof functions whose
names begin with `law_`.

`app` is the program around the library: the command line, the network, the database and
the files. `tests` holds the tests of the library.
