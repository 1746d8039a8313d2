# find_server

The indexing and search core of a file-search server, written in Verus:
every function of the library in `src/` is verified against its
contract. The few that only open a database file, hand out a session's
connection or turn a binding error into the library's error state nothing
beyond their types, since what they return depends on the file system or
on SQLite alone.

A source is a SQLite database of files, their lines and a full-text
index. The library decides what is written when a client sends a batch
of files (deletes, renames, each file with its lines, error and scan
bookkeeping, the activity log), how lines are packed into archive chunks,
how a query is parsed and run in each search mode (fuzzy, exact, regex,
document, file names) and how results are ranked, grouped and paged, and
what the HTTP side answers for raw files, ranges and archive members.

Calls into SQLite, the image and TIFF decoders, the fuzzy matcher, the
regex engine and the URL and MIME helpers go through small trusted
wrappers whose contracts say what the outside crate does; database
contracts state which statement, with which values, ran or was answered.
Writes go through a session that keeps the history of the statements
handed to it, so the contracts of a file's rewrite and of a whole request
also fix the order of their statements.

Layout:

- `src/` — the verified library (`lib.rs` lists the modules).
- `tests/` — tests of the library on concrete values, with a SQLite
  database in memory where the database is involved.
- `app/` — the command-line program around the library: reading requests
  and archives from disk, the inbox worker loop, and printing.
