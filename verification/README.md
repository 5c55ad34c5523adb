# npp_buffer

Verified core of an editor's buffer subsystem, written in Verus.

- `src/types.rs` — shared enumerations (end-of-line type, Unicode mode,
  file status, language, saving status) and the change-flag bitmask.
- `src/encoding_mapper.rs` — the encoding table: menu index <-> Windows code
  page, and case-insensitive charset-alias look-up.
- `src/utf_convert.rs` — byte-order-mark detection, UTF-8 classification,
  UTF-16 -> UTF-8 and UTF-8 -> UTF-16 conversion, with both round trips proved.
- `src/buffer.rs` — per-document state (`BufferState`) and the collection of
  open buffers (`FileManager`).
- `app/lib.rs` — the C ABI (`extern "C"` functions over raw pointers) that
  the C++ editor calls; not verified.
- `tests/` — behavioural tests of the library.
