# git-barber

git-barber trims stale git branches: those that are already merged — squash
and rebase merges included — and those whose upstream is gone. It shows them
in a terminal UI with safe defaults and deletes the ones you confirm.

The library in `src/` is verified with Verus. It asks git through one trait,
`git::Git`, whose implementations carry a history of the commands asked and
the replies given. The contracts say which commands a function asks, in what
order, and what it makes of the replies; the functions named `law_…` state
what holds of all of them together, such as that nothing is deleted unless
its tip still is the one that was scanned.

- `scan` finds the candidates: the base, the branches that may be examined,
  the cached and the probed verdicts, the order of the listing. It asks git
  one question at a time, or in batches for whoever has several workers.
- `ops` deletes, compare-then-delete, and says how to undo it.
- `cache` keeps verdicts between runs, keyed on the three shas they depend on.
- `tui` is a pure state machine, the text of its screens, and the previews.
- `output`, `progress`, `config`, `cli`, `session` and `parallel` hold the
  reports, the counter, the settings, the flags, the course of a run, and the
  bookkeeping of the workers.
- `text` is what all of them know about strings.

`app/` is the program around it: subprocesses, threads, the terminal, the
cache file, the command line. `tests/` runs the library against a git that
answers from a table.
