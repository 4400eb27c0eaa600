# entropia_nlp_ocr

The text-processing core of the EntropIA desktop application, written in
Verus: every function in `src/` carries a contract that Verus proves.

## Layout

- `src/` — the verified library.
  - Text primitives: `chars` (Unicode classes, named after std), `text`
    (trimming, splitting, joining), `search`, `lines`, `sort` (stable sort by
    integer keys).
  - Named entities: `ner_types`, `ner_rules` (regular-expression engine),
    `ner_basic`, `ner_merge`, `ner_hybrid` (routing by entity type and
    de-duplication), `ner_llm` and `ner_spacy` (turning decoded model replies
    into entities), `ner_laws` (properties of the whole pipeline).
  - Search and embeddings: `fts` (safe full-text queries), `embeddings`
    (provider settings, model status, download progress, backfill reports),
    `text_sources`, `triples`, `nlp_queue` (pending-job bookkeeping and the
    worker's per-job decisions).
  - OCR: `ocr_types`, `postprocess` (columns, hyphenation, paragraphs),
    `ocr_pipeline`, `layout_labels`, `paddle_vl`, `glm` (the GLM-OCR reply as
    text and layout), `glm_upload` (the upload data URL and error messages),
    `runtime_status`.
  - Calls into `regex`, `image` and `base64`, and into std's Unicode tables,
    go through small wrappers whose contracts name what those calls return.
- `tests/` — tests of the library.
- `app/` — ordinary Rust around the library: JSON decoding of model, script
  and service replies, serialisable copies of the payloads, and the
  floating-point geometry (reading order, box conversion) and vector helpers.
