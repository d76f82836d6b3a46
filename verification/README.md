# LogLens

LogLens searches, queries and watches log files: plain text, JSON, Nginx access
logs and logfmt.

The library in `src/` decides what is found and how it is shown. It is written in
Verus, and every function states in its contract what it does:

- `discover`, `discover_laws`, `paths`: which files are searched, and in what order
- `query`: whether a line answers a query and is recent enough
- `search`, `search_laws`: matches, the context around them and the limit on them
- `report`, `paint`: how results are laid out and coloured
- `stats`, `tally`, `order`: counts, totals and rankings
- `watch`: following files as they grow
- `fields`: the fields of structured entries and their kinds
- `compress`: the steps of compressing a file
- `json`, `text`: values and texts, with the calls into `serde_json`,
  `loglens_core` and `std` that the contracts rest on

The program around it is in `app/`: the command line, the file system, threads and
the clock. Tests are in `tests/`.

A function marked `external_body` calls another crate; its doc comment says what
its contract takes for granted of that crate.
