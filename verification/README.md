# cwpack

A MessagePack encoder and decoder in the style of CWPack: the caller owns a
fixed buffer, every call reports a `CWP_RC_*` return code, and context calls
keep the first error sticky. The library is written in Verus and proved
against its contracts.

- `src/format.rs` — the wire format: the exact bytes of every kind of item.
- `src/pack.rs` — `encode_*` into a buffer at a position, up to an end.
- `src/unpack.rs` — `unpack_next`, `skip_items`, `look_ahead`, each proved to
  follow a spec of the reader (including where an error stops it).
- `src/cw.rs` — `CwPackContext` / `CwUnpackContext` and the `cw_*` calls,
  specified as steps on an abstract context state.
- `src/typed.rs` — reading an item as an integer of a given range.
- `src/laws.rs` — what unpacking gives back of what packing wrote, how
  skipping and looking ahead agree with unpacking, and the sticky return code.
- `app/` — the C ABI (raw pointers and handler callbacks) and the
  floating-point conversions, outside the verified part.
