# pe-info

Inspect PE/COFF binaries (Windows `.exe`/`.dll`): headers, sections, imports and exports.

- `src/` is the library, verified with Verus. `pe.rs` holds the image types and the
  parser, whose result is stated by `spec_parse`; `imports.rs` and `exports.rs` walk the
  import and export directories (`spec_imports`, `spec_exports`); `rva.rs` maps
  addresses to file offsets; `read.rs` and `text.rs` read integers and names from the
  bytes; `flags.rs` names the header flag bits.
- `app/` is the command-line tool: `pe-info headers|sections|imports|exports FILE [--json]`.
- `tests/` runs the library on small images built byte by byte.
