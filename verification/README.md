# SaJIT

An executable-region slab allocator with its own relocators and a PE/COFF
linker. The bookkeeping, the layout decisions and the relocation arithmetic
are verified with Verus; mapping memory and flushing the instruction cache
are left to the thin platform crate under `app/`.

## Layout

- `src/bytes.rs` — little-endian reads and writes on byte sequences.
- `src/advanced/` — the slab (`MemoryExecutable`), transactions over it,
  size queries, and the size an object file needs (`sizecalc`).
- `src/relcar.rs`, `src/relocations.rs` — RELCAR, the single-pass relocator
  for code written into a slab.
- `src/coffr/` — the COFF linker: reading an object file through the
  `object` crate, resolving symbols, placing `.text`/`.rdata` sections with
  their trampoline pools, and the AArch64, x86-64 and i386 relocators; also
  the i686 loader and the linker's section cache.
- `src/memory/` — a growing pool of slabs.
- `tests/` — tests on concrete values, run against the compiled library.
- `app/` — memory mappings, copying written code into them, and cache flushes.
