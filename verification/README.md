# photo_catalog

A catalog of photos: the images of each physical file, the metadata that was found for
them, their organization, and what was imported from another catalog. Everything that was
found is kept as it was found; what is shown and exported is derived from it, and every
choice between differing values is recorded.

The library in `src/` is verified with Verus. Its contracts are stated over models of its
tables; each public function says what it returns and what it changes, and each refusal with
the inputs on which it comes. The laws of the library are public proof functions whose names
begin with `law_`.

- `catalog`, `tables`, `lookups`, `copies`: the state of a catalog and how rows are found.
- `catalog_images`: images and variants, the refreshing of shared metadata and that no image
  misses a change of it, organization and the index of collection orders.
- `catalog_metadata`: the observation of sources, their retention, the documents that are
  kept of them, the views of them, edits and how they take effect, exports, and the discovery
  of sidecars.
- `catalog_metadata_write`: receipts of attempts, saved export plans, evidence documents.
- `catalog_migration`: the import from a captured catalog: retained records and the proofs
  over them, custody of captured files and their descriptors, pages of evidence, projected
  images and file metadata, the run of an import step by step and the repair of what it decided.
- `outside`: the functions of other crates that the library calls, with what is relied on.

`app/` holds what needs a disk: the store in SQLite, reading and writing files, and documents
that other programs hand over. `tests/` runs the library on concrete catalogs.
