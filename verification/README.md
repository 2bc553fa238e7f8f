# tectonic_wasm

Incremental-compilation support for a TeX engine compiled to WebAssembly,
written in Verus. The functions in `src/` carry contracts that Verus
proves, except a handful of small trusted wrappers around outside code
(the hash and base64 functions, two Unicode character classes, collecting
characters into a string, and reserving memory), whose contracts are taken
on trust. Operations that record a time take it as an argument; `app/`
reads the clock.

## Layout

- `src/` — the verified library.
  - `encoding`, `digests`, `hashing`: the byte streams that the hashes are
    taken over, and the content and state hashes themselves. SipHash-1-3,
    SHA-256 and base64 come from the `siphasher`, `sha2` and `base64`
    crates, each behind one small trusted wrapper in `digests`.
  - `string_map`, `int_map`: sorted maps whose walking order is part of
    their contract, so that state hashes do not depend on insertion order.
  - `macros`, `registers`: change tracking for macro definitions and
    expansions and for TeX registers.
  - `dependency`, `cache`, `memo`: cache keys, the dependency graph, the
    bounded cache, and the memoization system with LRU eviction, lookups
    and invalidation.
  - `simd`: the integer kernels (random-table refill, block copy), the
    block allocator, the block pool and the glyph buffer.
  - `compile`, `bench`: the minimal compile pipeline and the state-capture
    benchmark helpers.
  - `laws`: proof functions for properties that span several calls.
- `tests/` — executable tests against the compiled library.
- `app/` — the WebAssembly bindings and everything that works on floating
  point (layout constraints, glyph metrics, timings); Verus does not see it.
