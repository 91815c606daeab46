# rs_header

Executable-header parsers and loaders for PE32/PE64 images, written in Verus.
Parsing produces plain data structs from caller-owned file bytes; binding into
guest memory goes through a small backend trait (`pe::PeLoader`), so any
project can map, relocate and bind an image in its own address space.

Layout of `src/`:

- `pe/readers.rs` — total little-endian readers (bytes past the end read as
  zero) and NUL-terminated strings.
- `pe/pe32/` — the on-disk structures, address mapping through the section
  table, the PE32 image, its parser and its import binding.
- `pe/pe64/` — the PE32+ image: parser and accessors, base relocations, import
  and delay-load binding, resource lookup.
- `pe/names.rs` — `dll!function` names, case folding and prefix tests.
- `pe/shared.rs`, `pe/structures.rs`, `pe/loader.rs` — format detection,
  resource-directory structures, the `PeLoader` trait.
- `elf/` — ELF permissions, the `ElfLoader` trait and the error type.

Every function states its behaviour in `requires`/`ensures` over the file
bytes; the inputs on which parsing or relocation would overflow are excluded
by named predicates (`parse_ok`, `relocations_ok`, ...), each with a verified
checker a caller can run first (`parse_fits`, `relocations_fit`,
`tls_callbacks_fit`, `delay_load_binding_fits`, `locate_fits`,
`get_resource_fits`); import binding checks its table walks at run time
before it binds a descriptor.

The `PeLoader` trait keeps a specification-only call history (`calls`): each
method appends the call it received, with its answer. Relocation and binding
state exactly which calls they make, in order, and what they record for every
answer the loader may give (`iat_run64`, `delay_run64`, `desc_run32`, and the
per-import steps `step64` / `step32`); their decisions also stand as verified
functions (`relocation_patches`, the `*_slots` walkers, `binds_descriptor`,
`bind_resolved`, `bind_resolved32`). A verified implementor defines `calls`
as a ghost history; a plain-Rust implementor writes a body that is never run.
