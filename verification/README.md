# rotating_file

A rotating log file, verified with Verus.

Log data go to one file until it is too big or too old. The completed file is compressed with gzip
in the background and the next one is opened; the oldest files are deleted when there are too many.
An export gathers everything into one file.

- `src/` holds the decisions: how files are named and listed, when a file is rotated, what a
  rotation, a compression, an export and the initialisation do next after each step on disk, and
  which error comes of which failure. All of it is verified; `src/history.rs` puts the pieces
  together and shows what an export holds. Calls to `chrono` (the clock, the spelling of a moment)
  and `flate2` (a gzip encoder, fed piece by piece) stand behind a few small functions whose
  contracts are trusted.
- `app/` performs the steps on disk, with threads and locks.
- `tests/` runs the library against a disk in memory, and its paths against those of `std`.

Paths are byte strings whose components are separated by `/`.
