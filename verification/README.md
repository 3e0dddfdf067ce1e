# horologium

A local-first time tracker built from independent events. Each start and
stop is a file of its own (an Eridanus document) in the directory of its
day; tags and projects are files too. A per-device clock file in each
directory counts the writes, so a compiler can tell which directories
changed and rebuild a SQLite cache of the event log from the files alone.

## Layout

- `src/` — the verified library (Verus):
  - `types`, `eri`, `documents`: records, tags and projects, and their
    documents in both directions, with proofs that a written document reads
    back as what was written.
  - `fingerprints`, `compile`, `rows`: what compilation does — which files
    and directories changed, the actions on the cache, and the cache rows.
  - `actions`, `ids`: where each action writes, the document it writes and the
    clock it bumps; record identifiers are version 7 UUIDs, tag and project
    identifiers random URL-safe ones.
  - `resolve`: typed tag and project names, bodies and listing ranges.
  - `display`, `table`, `listing`, `align`: durations, colours, padded cells,
    framed tables and the listings, with a proof that the rows of a table
    line up with its border.
  - `paths`, `text`, `numbers`, `time`: paths as texts, trimming, decimal
    numbers, and chrono's date formats.
- `app/` — the command line and the background service (`horologium serve`):
  argument parsing, the file system, the SQLite statements, the editor, the
  clock and the Eridanus text format (`constellation_eridanus`). The SQL of
  the cache is read from `queries/` and `schema/` beside `app/`.
- `tests/` — tests of the library on concrete values.

## Where records go

Two layers of the program disagree on records, and the library follows each
where it acts:

- Starting, stopping and rewriting a record write a document with the schema
  `horologium:event` into the bare day directory `BASE/YYYY/MM/DD`, next to
  that directory's clock file (`actions`, `documents`).
- Compilation reads records with the schema `horologium:record` from
  `BASE/Records/YYYY/MM/DD` (`compile`); a document of any other schema is
  an invalid schema there.

So a record written by the command line is not picked up by compilation until
it is moved under `Records/` with its schema renamed. Reading a document back
(`Record::try_from_eri`) accepts either schema: it does not look at it.
