# dynzst

Metadata-only handles for zero-sized values behind a trait object, with
their behaviour proved by Verus.

A `&dyn Trait` is two words: a data address and the pointer metadata, a
reference to the vtable. For a zero-sized implementor the data address
carries nothing, so `DynZSTBox<dyn Trait>` keeps the metadata alone, one
word, and rebuilds the reference on demand at a synthetic address: the
alignment recorded in the vtable, which is non-null and aligned for the
erased type. `DynZSTVec` keeps many handles in order.

Layout:

- `src/metadata.rs`: `VTable` (the identity of a vtable and the size and
  alignment it records), `DynMetadata` (one word, a reference to a
  `VTable`), `DynRef` (a trait-object reference as address and metadata).
- `src/zst_box.rs`: `DynZSTLifetime` / `DynZSTBox`, the handle; `new`,
  `with_dyn`, `deref`.
- `src/vec.rs`: `DynZSTVec` and its iterators `Iter`, `IterMut` with
  `MutAccessor`.
- `src/same_size.rs`: `IsZeroSizedExt`, layout helpers for concrete types.
- `src/same_type.rs`: `SameType`, type equality checked by the compiler.
- `tests/`: runtime tests; `app/main.rs`: a small program printing what the
  handles rebuild.

The vtable of a type is not reachable from stable Rust, so a program builds
`VTable` values itself (for example with `IsZeroSizedExt::vtable`) and keeps
them for its whole run; the `id` of a vtable selects the methods it stands
for.
