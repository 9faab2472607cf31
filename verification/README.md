# taggenator

A tag database for the files under a folder: it keeps a record of each file
with the tags given to it, finds records by searches that combine filters and
orderings, recommends tags from a file's location, and keeps the database in
step with the files on disk.

## Layout

- `src/` — the library, verified with Verus.
  - `text`, `flags`, `lists`, `sorting`: strings, command-line flags, removing
    repeats, stable orderings.
  - `models`, `errors`: records and the tables of the database.
  - `filtering`, `searcher`: the filters of a search, their SQL, and how query
    rows become records.
  - `update`: what a scan of the file system asks of the database.
  - `tagging`, `taggenator`: settings and what a tag line does to a record.
  - `recommender`: tag recommendations.
  - `db`: the queue of writes and its batches.
  - `commands`, `dates`, `paths`: the commands' arguments and plans.
  - `file_server`, `page_order`: the pages of comic archives.
  - `cmd`, `gui`: the values and requests of the window.
- `tests/` — tests of the library.
- `app/` — the program: the database file and its writer thread, the
  file-system scan, the commands, the file server, and the window's requests
  (read as JSON lines).

## Collections

The library keeps its collections in `Vec`s, whose contents Verus reasons
about as sequences:

- a record's tags are a `Vec<String>` in which each tag stands once; the
  functions that build or change records keep it so;
- the recommender's table from a key to the tags known under it is a `Vec`
  of pairs;
- the files a scan already knows, grouped by name, are a `Vec<KnownFile>`.
