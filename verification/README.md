# gomoku_eval

The evaluation side of a Gomoku bot lab: tournament plans and pairings,
match series statistics, CPU budget pooling, replay-analysis
classification rules, report sampling and replay selection, proof-frame
markers, fixture comparison, lethal-scenario normalisation, local threat
shapes, and the labels and HTML fragments the reports show.

- `src/` is the library, written in Verus: every public function carries
  a contract (a few private helpers are checked only through their
  callers), and the public proof functions named `law_*` state the
  properties that hold across calls.
- `tests/` runs the library on concrete cases.
- `app/` is the command-line program around it: argument parsing, JSON
  report reading, serialisation and the floating-point Elo ratings. The
  games themselves and the replay analysis run on the lab's engine crates,
  which this build does not include: `tournament` prints and checks the
  plan, and `analyze-report-replays` selects and labels the games.
