# wdttg — Where Did The Time Go?

A terminal time tracker for freelancers. Time entries live in one GFM markdown
table per month (`<data_dir>/YYYY-MM.md`); clients, projects and activities in
`<data_dir>/clients.toml`; preferences in `~/.config/wdttg/config.toml`. A TUI
shows an endless timeline, reports and the client configuration; an MCP server
lets AI agents list, create, update and delete entries.

## Layout

- `src/` — the library, verified with Verus: dates and times, the monthly file
  format (parsing and writing, with a proved round trip for every entry whose
  texts hold no line break and no whitespace at either end, whose years have
  four digits, with a client and with optional fields absent or not empty; a pipe in a cell is
  written `\|` and read back as a pipe), validation against the
  configuration, overlap detection, the steps of creating, updating (also across months, with
  the old entry put back where the move is refused) and deleting an entry,
  available slots, report aggregation (with
  totals proved to add up), the month cache, the screen states of the TUI and
  the changes the MCP tools make to the configuration. Calls into `chrono`,
  `lru`, `tui-textarea` and `std` go through small trusted wrappers whose contracts say what the
  outside function does.
- `tests/` — tests of the library.
- `app/` — the program around it: the command line, files and locks, TOML and
  JSON, the MCP transport, terminal input, drawing, and the arithmetic on
  floating-point rates and percentages.
