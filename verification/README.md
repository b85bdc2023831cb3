# lynceus

Settings of a directory watcher that reports new, settled files to a webhook:
what to watch, when a file counts as settled, and where to report it, with
their defaults and the one-line descriptions logged at start-up.

- `src/` is verified with Verus: `header` reads `Key: Value` HTTP headers,
  `json` holds the payload template as compact JSON text, `duration` holds
  spans of time, `args` holds the settings and writes their descriptions,
  `text` has the character-level helpers (trimming, searching, decimals).
- `app/` is the command line: it parses the arguments with clap and prints
  the description of the settings.
- `tests/` runs the library on concrete values.
