# remini

The front-end logic of the `remini` command-line assistant, written in Verus.

- `src/` is the verified library:
  - `slash_command`: `/help`, `/model set <name>`, ... and their replies;
  - `bang_command`: `!command` lines and the meaning of a command's outcome;
  - `at_command`: `@path` references, where they are looked for, and the
    text they expand to (a step function driven by the caller's reads);
  - `plan_mode`, `paths`: entering and leaving plan mode, with lexical path
    normalization and the containment check for approved plans, and the
    order files are listed and selected in;
  - `config`, `run`, `cli`: approval modes, settings, run mode, argument
    checks, routing of headless input, exit statuses and the JSON/stream-JSON
    renderings;
  - `session`: session names, session files, listing and latest session,
    and reading back the records appended to a session file;
  - `tool_registry`, `tools`, `glob`: the built-in tools' descriptions and
    requests, and their text processing (replacement, line search, listing
    order, wildcard matching);
  - `text`: character-level helpers (whitespace, words, trimming, decimal,
    text order and sorting by text keys).
- `app/` is the program around it: argument parsing, the file system, the
  shell and JSON (de)serialization of session records.
- `tests/` exercises the library on concrete inputs.
