# elf2tab

Conversion of ELF files to TBF (Tock Binary Format) binaries, verified with Verus.

- `src/` is the library. It parses an ELF file into plain values (`object`),
  decides what the TBF header has to say (`plan`), lays the segments out
  (`layout`), adds credentials and padding (`footer`), and lists the places where
  a loader has to fill in addresses of shared library functions (`relocs`).
  `convert` puts these together. `laws` states what holds of every conversion,
  and `tables` what holds of the relocation information. What the crates `elf`,
  `sha2` and `ring` compute is named in `object` and `crypto`.
- `tests/` runs the library on small ELF files that are built there.
- `app/` reads the files and prints what there is to say. The encoding of the TBF
  header is up to the caller.
