# jj_core

Verified core logic of a version-control command-line tool, written in Verus.

- `src/lock.rs`: acquiring an exclusive lock file, as a state machine over
  the outcomes of the `open`, `flock` and `fstat` calls, with laws on when a
  lock is reported held, contended or failed.
- `src/time_expression.rs`: time expressions ("2 hours ago", "3/25/23")
  resolved against a reference time, through `chrono_english`.
- `src/date_text.rs`: the texts that `chrono_english` parses without
  panicking, position by position, and a verified check for them.
- `src/untrack.rs`: the decisions and messages of `file untrack`.
- `src/working_copy.rs`: trees of files, snapshots, and checkouts into a
  reused working copy, with the law that no file leaks from one checkout
  into the next.
- `src/run_pool.rs`: the pool of working copies of `jj run`: parallelism,
  slot allocation, directory layout and job environment; where a run stops
  after a failure, and when it may rewrite immutable revisions.
- `src/decimal.rs`: decimal rendering of numbers for messages.

`app/` holds the file-system, time-zone and Lua edges around the library.
