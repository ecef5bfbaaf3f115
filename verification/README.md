# swapd

A verified library for switching between several accounts of command line tools: which
accounts there are, how much of each is used, which one comes next, and when to move.

Everything under `src/` is proved with Verus: the tables of slots and of measured usage,
the planning of polls, the ranking of candidates, the steps of a collection pass and of
a switch, the decisions of the unattended loop, and what each verb checks, changes and
says.

- `text`, `numfmt`, `split`, `timefmt`, `units`, `table`, `slot_map`, `json`, `order`,
  `errors`: texts, numbers, instants and maps.
- `contract`, `gating`, `poll_policy`, `usage_store`, `usage_laws`: usage windows, and
  the table that keeps what was measured.
- `slots`, `settings`, `config`, `history`, `unclaimed`, `files`: what is stored.
- `collect`, `fetch`, `pass`, `collect_view`, `rotation_laws`, `refresh`: a collection
  pass.
- `switch`, `switch_perform`, `switch_flow`: a switch.
- `auto`, `auto_bar`, `auto_rank`, `auto_schedule`, `auto_tick`, `auto_course`,
  `auto_report`, `events`: the loop.
- the rest: the other verbs.

Percentages and durations are whole numbers of millionths, and instants are
microseconds since the epoch, so that every comparison is exact. Jitter is handed in;
claims and the names of temporary files draw a random number of their own. A few
functions of the standard library, of `time` and of `rand` are called behind
declarations that say what is believed of them; each stands where it is used, with a
comment.

`app/` is the shell: files and their locks, threads, sockets and processes. A program
hands it its providers and its secret store. `tests/` runs the library on an in-memory
board.
