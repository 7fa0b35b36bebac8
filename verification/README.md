# turbolog

Local-first log triage: pipe logs through `turbolog watch` or `turbolog scan`
and see which lines are far from the "normal" templates learned at startup.

The decisions and formats of the tool are written in Verus and proved
against their contracts; the parts that talk to the outside world are plain
Rust around them.

- `src/` — the verified library:
  - `ingest` template ids (FNV-1a), parsed lines, the LRU template cache;
  - `pipeline` calibration triggers (64 templates, or 500 lines with at
    least 3; at least 8 at end of input) and the one-time fit;
  - `watch`, `scan` what each line prints, the report, the ranking of
    anomalies, the anomaly rate;
  - `cli` exit codes, `--since` durations, dates and columns of `history`;
  - `llm`, `embedded`, `history`, `diagnose` client settings, prompts,
    replies and messages;
  - `wal`, `chunks`, `engine`, `http`, `metrics` the server's record
    format, hour-directory layout and retention, recovery merge, request
    admission and Prometheus text;
  - `tui` the dashboard's bounded windows, keys and texts;
  - `text` the string building blocks.
- `app/` — the binary: argument parsing, stdin, SQLite, HTTP calls to the
  local LLM, ONNX embedding, Drain parsing, the k-means detector and the
  terminal dashboard.
- `tests/` — tests of the library on concrete values.
