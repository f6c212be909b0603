# altium_format

Reading, editing and writing Altium Designer files (SchDoc, PcbDoc, SchLib
streams, PcbLib streams, IntLib), with every function of the library proved
against its contract by Verus.

Layout:

- `src/documents/`: the document formats. `container.rs` opens and saves the
  compound file (through the `cfb` crate) that holds a SchDoc, a PcbDoc or an
  IntLib; the other files parse and write the streams inside it.
- `src/embedded_object.rs`: the zlib-compressed embedded object envelopes.
- `src/edit/`: the editing model (placement, routing, netlists, sessions).
- `src/footprint/`, `src/import/`: footprint building and import parsing.
- `app/lib.rs`: opening and saving documents by file path.
- `tests/`: the tests, run against the compiled library.
