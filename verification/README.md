# shrank

The server of Shrank, a private, local-first archive of paper mail: a photo
of a letter goes in, a local LLM transcribes it and extracts its metadata,
and the archive can be searched and browsed from the phone and the web UI.

## Layout

- `src/` — the verified library (Verus). Every public function carries a
  contract; the laws of the library are public proof functions.
  - `extraction` — recovering the JSON object from an LLM answer (fences,
    preamble, truncation) and reading the extracted fields.
  - `processing` — the two-pass processing of a document as a state machine.
  - `relationships` — the steps of the relationship pass.
  - `search` — query intent, FTS5 and structured SQL, rank fusion.
  - `facets`, `graph`, `sync`, `documents`, `schema`, `upload` — tag
    facets, the related-documents graph, delta sync pages, list and update
    statements, migrations, the upload form.
  - `storage`, `config`, `prompt`, `inference`, `auth`, `errors`, `stats`,
    `json` — file paths, configuration, prompts, sidecar helpers, the API
    key check, error answers, counts, the JSON model.
- `app/` — the program around it: the Axum routes, SQLite through
  `deadpool-sqlite`, the inference HTTP client, image files and thumbnails,
  and the background processor that runs the state machine.
- `tests/` — tests of the library on concrete values.
