# URMA transport lab

A library for a two-sided send/receive transport laboratory: the data messages and control frames,
the ownership of registered buffer slots, the routing of completions, the flow control between two
peers, the transfer of files in verified chunks, and the bookkeeping and reports of the benchmarks.

- `src/` is the library. Every function states what it returns or changes, and Verus proves it.
  Laws that relate several functions stand beside them as public proof functions.
- `tests/` runs the library on concrete values.
- `app/` is the program around it: sockets, files, clocks, threads and the transport provider.

CRC32 comes from `crc32fast` and SHA-256 from `sha2`; what is believed of their functions is stated
in `src/digest.rs` and `src/sha256.rs`.
