//! Text-processing core of the EntropIA desktop NLP and OCR pipelines:
//! entity normalisation, merging and de-duplication, query sanitising,
//! OCR post-processing and the small decision procedures around them.

pub mod chars;
pub mod text;
pub mod search;
pub mod lines;
pub mod fts;
pub mod embeddings;
pub mod text_sources;
pub mod ner_types;
pub mod sort;
pub mod ner_merge;
pub mod ner_hybrid;
pub mod ner_llm;
pub mod ner_spacy;
pub mod ner_laws;
pub mod ocr_types;
pub mod postprocess;
pub mod pattern;
pub mod ner_rules;
pub mod ner_basic;
pub mod triples;
pub mod nlp_queue;
pub mod runtime_status;
pub mod ocr_pipeline;
pub mod paddle_vl;
pub mod layout_labels;
pub mod glm;
pub mod glm_upload;

use vstd::prelude::*;

verus! {

} // verus!
