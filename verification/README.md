# pipevision

A terminal viewer for shell pipelines: it rewrites a pipeline so that an observer
(this same program, started with `--stage=<n> --run-id=<id> --quiet`) sits between each
pair of stages, runs it, and shows per stage the lines, bytes, throughput and captured
output.

- `src/` is the library, verified with Verus: reading pipeline files, building the
  observed command, the observer's counting and capture, reading the statistics files,
  the viewer's state machine (keys, runs, stage selection, file picker) and the texts
  it shows.
- `app/` is the program around it: the terminal (crossterm, ratatui), files, processes,
  the clock, and the floating-point rates and percentages.
- `tests/` runs the library on concrete inputs.
