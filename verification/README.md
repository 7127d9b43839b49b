# dev_monitor

The logic of the ingestion monitor, verified with Verus, and a small command
line around it.

- `src/` is the library. Verus checks all of it; every public function
  carries a `requires`/`ensures` contract that Verus proves:
  - `text`: the string toolkit everything else builds on (trimming, splitting,
    searching, decimal numbers), each operation stated over `Seq<char>`.
  - `steps`, `marker_syntax`, `markers`: the configurable step catalogue, the
    marker tokens, and what one line of script output means.
  - `scripts`, `state`, `stepper`, `process`: script declarations read from
    their header comments, the per-script run state (stage clocks, choices,
    logs), what the workflow stepper draws, and how a run's lines and exit
    are recorded.
  - `updates`, `probe`: choosing a release to offer, and the monitoring probe's
    command line and answers.
  - `model`, `format`, `fleet_view`: the monitoring data, its display text, and
    the fleet screens (queue, stalled walks, references, dead letters, stage
    timing, the home summary).
  - `trace_view`, `trace_steps`, `trace_card`, `trace_panels`, `trace_logs`,
    `trace_tree`, `transit`: everything the trace of one document shows.
  - `ui`, `icons`: the small display decisions shared by the screens, and
    the icon names a step can use.

  The public `law_*` proof functions state the properties that span several
  calls. Calls into `chrono`, and a few std string functions that Verus has
  no specification for, sit behind `external_body` wrappers whose doc
  comments say what is assumed of them.
- `tests/` runs the library on concrete values.
- `app/` is the command line: argument handling, files, processes, the
  network, and the serde copies of the library's types.
