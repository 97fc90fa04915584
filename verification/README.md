# okf

A read-only server for Open Knowledge Format (OKF) bundles — directory trees of
Markdown files with YAML front matter — whose logic is a Verus-verified library.

## Layout

- `src/` — the verified library:
  - `front_matter`, `yaml`, `date`, `concept` — splitting front matter from a
    file, the parsed YAML model, and the concept model (trust tier, staleness,
    directory, summary) read from it;
  - `render` — link rewriting and Markdown rendering;
  - `bundle`, `ranking` — the bundle index and its listings, keyword search and
    directory tree, and which paths a file change affects;
  - `search` — keyword ranking, the grouping step of reciprocal rank fusion and
    the text a semantic index embeds;
  - `dto` — the REST API's responses;
  - `json`, `live` — the live-reload WebSocket protocol and page reactions;
  - `client`, `view` — what the web UI requests and shows;
  - `cli`, `launcher`, `skills` — the command lines (described as plain values,
    parsed by `clap`) and the bundled agent skills;
  - `text` — the string operations the rest is built from.
- `tests/` — tests of the library.
- `app/` — the `okf` binary: reading the arguments, the bundle on
  disk and its watcher, the axum REST API and WebSocket loop, and the
  floating-point parts of search.

The web UI (Leptos) and the embedding model of semantic search are not part of
this build; their decisions are in `client`, `view`, `live` and `search`.
