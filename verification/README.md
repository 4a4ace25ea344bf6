# telfhash-rs

ELF similarity hashing with telfhash: the exported function symbols of an ELF
file (or, for a file without a symbol table, the call destinations found by
disassembling its code) are joined and hashed with TLSH, and files whose
digests lie within a threshold of each other are grouped.

The library under `src/` is verified with Verus; `app/` is the `telfhash`
command around it.

## Layout

- `src/elf/` reads an ELF file (through `goblin`) into plain records, chooses
  the symbol table or the code region, disassembles the code (through
  `capstone`) and collects the call destinations.
- `src/exclusions.rs` names the symbols that never take part in a hash.
- `src/tlsh.rs` hashes symbol lists and compares digests (through `tlsh-rs`).
- `src/grouping/` holds the two grouping policies (the legacy-compatible
  heuristic and connected components) and the laws they obey
  (`grouping/laws.rs`).
- `src/service.rs` and `src/engine.rs` hash files and group the results.
- `src/legacy.rs`, `src/sarif.rs`, `src/output.rs` and `src/debug_report.rs`
  compute what is written: the listing in its four formats, the diagnostics
  and the groups.
- `src/cli_mapper.rs` turns a command line into an analysis and an output
  request.

Calls into the outside crates go through small trusted wrappers whose
contracts name their results; everything around them is proved.

Reading files, expanding glob patterns, walking directories, JSON
serialisation and printing happen in `app/`, which hands the library file
contents and prints what it returns.
