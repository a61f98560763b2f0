# hpack

Decoding of compressed HTTP/2 header blocks (HPACK), verified with Verus.

- `src/` is the library. `FastDecoder` decodes header blocks; `huffman` has the
  code for strings. Every function has a contract that says what it returns or
  changes, and on which inputs it refuses.
- `src/block.rs` says what a block means, `src/dyn_table.rs` what the dynamic table
  is, `src/headers.rs` what a header is, `src/huffman/code.rs` what a coded string
  stands for.
- `src/laws/` holds theorems on the library as a whole: that what was encoded is
  decoded again, that a table keeps to its limit, that a block which was cut short
  is answered with a demand for more, that fields which were entered can be
  referred to, that two blocks come to the same as both in one.
- `src/buffers.rs` and `src/http_types.rs` hold the calls into `bytes`, `http` and
  `std`, with what is taken on trust of each.
- `tests/` runs the library on concrete values.
- `app/` holds the debug output and a fuzz target.

The strings of a block are kept in one buffer, and referred to by offsets of 32
bits and lengths of 16. A longer string is cut; `arena::kept` says to what.
