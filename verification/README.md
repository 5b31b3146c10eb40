# narrative_loom

The logic of a novel-analysis desktop tool, verified with Verus: importing books
(text decoding, chapter segmentation, EPUB tables of contents and covers), chunking
chapters for embedding, building the context handed to the analysis agents,
accepting and merging the knowledge cards they produce into the story bible,
searching entities, aggregating style observations, and exporting bibles, style
prompts and technique libraries.

Layout:

- `src/` — the verified library. Each module states its results as spec
  functions over `Seq`, `Map` and plain values; `src/laws.rs` holds the
  properties that relate several functions (round trips, idempotence, bounds).
  Calls into `regex`, `uuid`, `chrono`, `urlencoding` and `base64` stand behind
  small trusted wrappers whose contracts say what those crates document.
- `tests/` — tests run against the compiled library.
- `app/` — the unverified shell: file reading, EPUB parsing with the `epub`
  crate, serde copies of library types, fuzzy name matching with `strsim`, and
  the score arithmetic done in floating point.
