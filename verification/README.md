# weave-cli

A scaffolding engine for full-stack monorepos. A template's manifest lists
the options of eight categories (platforms, backends, auth, database, cloud,
microservices, infrastructure, extras); the user picks options in a terminal
wizard; the project is copied from the template and its configuration is
rewritten to match.

Layout:

- `src/` — the library, verified with Verus: the manifest and its
  collections (`manifest`), the selections (`selections`), the JSON model and
  the rewriting of package.json, .env and docker-compose.yml (from their text
  to their text, through serde_json and serde_yaml) together with the order
  of the scaffolding steps (`json`, `generator`), the template source
  decisions (`downloader`, `constants`), the wizard's state machine (`app`),
  what the screens compute (`screens`), the command decisions (`init`,
  `cli`), text and map primitives (`text`, `strmap`), and properties that span
  functions (`laws`).
- `app/` — the program: command-line parsing, the terminal, the network, the
  file system, and the manifest and weave.toml formats (serde on the
  library's types).
- `tests/` — tests of the library.
