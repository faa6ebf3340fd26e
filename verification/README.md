# sever

Coerces hard links into files of their own: every path given whose file has
more than one link is copied aside, its link is removed and the copy is moved
into its place.

- `src/` — the verified library (Verus): error kinds and messages (`error`),
  joining text (`join`), dropping repeated arguments by hash (`dedup`), the
  directory walk and its depth limit (`walk`), what a whole walk yields on a
  directory tree (`tree`), temporary paths (`temp`), the
  steps of severing one path (`job`), the tally of a run (`report`), the
  usage and splash text (`splash`) and number formatting (`text`).
- `app/` — the program: argument handling, the file-system work, the tokio
  tasks, logging and the error report, following the library's decisions.
- `tests/` — tests of the library on concrete values.
