# rbook

A library for EPUB publications whose behaviour is stated in `requires` / `ensures`
contracts and proved with Verus.

- `src/` is the verified library: the data model of a publication (package, metadata,
  manifest, spine, tables of contents), the views over it and the editing operations
  with what they cascade to, the rules applied while reading a publication and the
  steps of reading its package and navigation documents (`reading.rs`), the
  arrangement of metadata refinements, location handling, resource kinds by media type
  (`resource.rs`), a whole publication (`epub.rs`), and the laws that hold across
  operations (`laws.rs`, `properties.rs`, and the `law_` proof functions beside the code
  they speak of).
- `tests/` runs the library on concrete values.
- `app/` is the command line program around it: argument handling and access to
  archives on disk or in zip files.
