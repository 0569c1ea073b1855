# pipeline

The deterministic core of a research pipeline that authors fetch recipes
with a language model, applies them to fetched bytes, and promotes the
resulting claims into records. The functions under `src/` are verified
with Verus against contracts stated over sequences, sets and the
library's own types; the exceptions are the trusted wrappers in
`parsers.rs`, `stamps.rs` and `strings.rs` (and two small formatting
wrappers), whose contracts describe the outside crates or std functions
they call and are taken on trust.

Layout:

- `src/` — the verified library, one module per stage:
  `index_page_detector` (article/index classification of fetched HTML),
  `recipe_author` and `propose_source_url` (prompt rendering, fence
  sanitising, validation of the model's structured output),
  `recipe_apply` (the extraction modes, structural validation of a
  recipe against fetched bytes, the scalar and iterator runtimes with
  their inner extractions and dedup keys, scalar bounds, numeric text
  normalisation, PDF table detection),
  `content` (the JSON value a record's content is assembled in, plan
  pointers, dotted-path insertion, and the record draft a binding
  produces: a fresh UUIDv7, the fetch time, and its provenance),
  `promote` (fingerprints, consensus grouping, quorum, outcome tallies),
  `reextract`, `relation_synth`, `relation_vocab`, `normalize` and
  `recipes_store` (routing, report tallies and per-plan filters).
  `parsers` and `stamps` hold the trusted wrappers around the JSONPath,
  CSS, CSV, regex, URL, UUID and SHA-256 crates and the clock.
- `tests/` — behavioural tests of the library.
- `app/` — serde copies of the wire types, the conversions between
  serde_json values and the library's JSON value, the floating-point
  parse of extracted scalars, and the PDF text reader (whose panics it
  catches).
