# avoid-compaction

A command-line tool that splits long agent work into a *saga* of focused
steps, with a deliberate handoff between sessions: each session ends with
`complete` (summary, next prompt, context files, planned steps) and the next
one starts with `next`.

The crate is written in Verus.

- `src/` is the verified library: the saga and step records, the step
  lifecycle, step directory names, the decisions of `complete`, `begin` and
  `abort`, the reports of `next`, `status`, `list`, `history` and
  `transcript`, installing the session-start hook into the settings object,
  reading conversations out of session logs, and snapshot bookkeeping. Every
  public function states what it returns in its contract; the laws that tie
  functions together (a completed step stays completed, installing the hook
  twice changes nothing the second time, `next` always exits with the code of
  the saga's phase, appending a snapshot's missing lines a second time adds
  nothing, a snapshot that holds the first lines of its source catches up
  with it when no source line ends in a carriage return, ...) are public
  proof functions.
- `app/` is the program around it: argument parsing, reading and writing the
  `.avoid-compaction/` directory, TOML and JSON (de)serialisation, and finding
  session logs on disk.
- `tests/` runs the library on concrete values.
