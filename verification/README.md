# evezip

A file browser that opens archives as if they were folders, backed by the
`7zz` binary of 7-Zip. The logic is a Verus library whose functions carry
contracts that Verus proves; a thin program around it does the I/O.

## Layout

- `src/` — the verified library.
  - `parse_list`, `parse_progress`: what `7zz` prints (the `-slt` listing,
    the progress tokens), each with a specification of what it means.
  - `ops`, `runner`: the command lines given to `7zz`, the checks made before
    running it (safe entry paths, options), and how its exit status and error
    output become a result.
  - `tree`, `row`, `browser`, `location`: the tree of an archive's entries,
    listings (directories first, then by name), navigation on disk and
    inside archives, and the cache of the last archive opened.
  - `ui`: the window's state and its reactions (reload, double click, going
    up); `format`: sizes for people; `cli`: the command line.
  - `jobs`, `cancel`, `engine_trait`: the queue of background jobs and the
    interface of an archive engine.
  - `config`, `file_url`, `pending`, `preview`: preferences, file URLs handed
    over by the system, and showing a single entry.
  - `text`: the string and sequence functions the rest is written with.
- `tests/` — tests run against the compiled library.
- `app/` — the program: finding and running `7zz`, threads for jobs, the
  preferences file, a text rendering of the window.

## Laws

Besides the contracts of each function, the library proves, among others:
that every ancestor of a node of an archive tree is a node (implicit
directories), that nodes nobody names are empty directories, that listing
an archive not yet cached gives what one listing by the engine gave (its
error, or the tree of its entries) while a cached archive or a directory
on disk leaves the engine alone, that a job's operation gets the job's own
progress callback and cancellation token, that opening a directory and going up returns to the
same place (disk paths compared by their components, as `Path`s are), that
a safe entry path cannot leave the directory it is extracted into, that
progress does not depend on how the output is cut into chunks, that a
listing printed with CRLF line ends reads like the same listing with LF,
and that a queue gives the ids 1, 2, 3, ... in order, none twice and none
that of a running job (until the ids wrap around).
