use entropia_nlp_ocr::embeddings::{embedding_degradation_log, rolling_hash64};
use entropia_nlp_ocr::fts::{fts_match_query, sanitize_fts5_query};
use entropia_nlp_ocr::ner_hybrid::BERT_FIRST_TYPES;
use entropia_nlp_ocr::ner_llm::build_ner_prompt;
use entropia_nlp_ocr::ner_types::{sanitize_entity_value, EntityType};
use entropia_nlp_ocr::triples::{extract_triples, triples_best_effort, triples_retired_error, Triple};

#[test]
fn triples_retired_error_points_callers_to_gemma() {
    let message = triples_retired_error("item 'item-7'");

    assert!(message.contains("retired"));
    assert!(message.contains("Gemma LLM triples commands"));
}

#[test]
fn floats_to_blob_round_trips_for_similarity_search() {
    let original = vec![0.5_f32, -0.3_f32, 0.8_f32, 1.0_f32];
    let blob: Vec<u8> = original.iter().flat_map(|f| f.to_le_bytes()).collect();
    let recovered: Vec<f32> = blob
        .chunks_exact(4)
        .map(|b| f32::from_le_bytes(b.try_into().unwrap()))
        .collect();
    assert_eq!(recovered, original, "blob round-trip should preserve values");
}

#[test]
fn embedding_degradation_log_includes_item_id_and_reason() {
    let message = embedding_degradation_log("item-42", "No embedding engine configured");
    assert!(
        message.contains("item-42"),
        "log message must include item id for operational diagnosis"
    );
    assert!(
        message.contains("No embedding engine configured"),
        "log message must include degradation reason"
    );
}

#[test]
fn embedding_degradation_log_keeps_expected_prefix_for_grepability() {
    let message = embedding_degradation_log("item-99", "OpenRouter embedding failed");
    assert!(
        message.starts_with("[nlp/embeddings] Skipping embedding for "),
        "log message prefix should remain stable for observability tooling"
    );
}

#[test]
fn rolling_hash64_is_stable_for_same_input() {
    let a = rolling_hash64(b"hola");
    let b = rolling_hash64(b"hola");
    let c = rolling_hash64(b"adios");
    assert_eq!(a, b);
    assert_ne!(a, c);
}

#[test]
fn sanitize_fts5_query_cases() {
    let cases = vec![
        ("buenos aires", "\"buenos\" \"aires\""),
        ("foo AND bar", "\"foo\" \"bar\""),
        ("foo OR bar", "\"foo\" \"bar\""),
        ("foo NOT bar", "\"foo\" \"bar\""),
        ("foo NEAR bar", "\"foo\" \"bar\""),
        ("histo*", "\"histo\""),
        (r#""exact phrase""#, "\"exact\" \"phrase\""),
        ("(foo OR bar)", "\"foo\" \"bar\""),
        ("foo-bar", "\"foo\" \"bar\""),
        ("foo^bar", "\"foobar\""),
        ("acta:cabildo,1810.", "\"acta\" \"cabildo\" \"1810\""),
        ("acta AND (cabildo):*", "\"acta\" \"cabildo\""),
        ("  foo   bar  ", "\"foo\" \"bar\""),
        ("foo and bar", "\"foo\" \"bar\""),
        ("AND OR NOT", ""),
        ("", ""),
    ];

    for (input, expected) in cases {
        assert_eq!(sanitize_fts5_query(input), expected, "input={input}");
    }
}

#[test]
fn hybrid_routing_prefers_onnx_for_core_types() {
    assert!(BERT_FIRST_TYPES.contains(&EntityType::Person));
    assert!(BERT_FIRST_TYPES.contains(&EntityType::Organization));
    assert!(BERT_FIRST_TYPES.contains(&EntityType::Place));
    assert!(!BERT_FIRST_TYPES.contains(&EntityType::Date));
    assert!(!BERT_FIRST_TYPES.contains(&EntityType::Institution));
    assert!(!BERT_FIRST_TYPES.contains(&EntityType::Misc));
}

#[test]
fn openrouter_ner_prompt_requests_only_supported_categories() {
    let prompt = build_ner_prompt("Juan llegó a Rosario.");

    assert!(prompt.contains("PER"));
    assert!(prompt.contains("LOC"));
    assert!(prompt.contains("ORG"));
    assert!(prompt.contains("DATE"));
    assert!(prompt.contains("MISC"));
    assert!(prompt.contains("JSON"));
    assert!(prompt.contains("no uses spaCy"));
}

#[test]
fn institution_serializes_as_organization() {
    assert_eq!(EntityType::Institution.as_str(), "organization");
}

#[test]
fn sanitize_entity_value_trims_edge_symbols() {
    assert_eq!(
        sanitize_entity_value("\"Conservas Baltar S.A.I.C.\""),
        "Conservas Baltar S.A.I.C"
    );
    assert_eq!(sanitize_entity_value("REBELION JUVENIL. —"), "REBELION JUVENIL");
    assert_eq!(sanitize_entity_value("  - M. I. A. -  "), "M. I. A");
}

#[test]
fn extract_triples_returns_matches_for_rule_based_sentences() {
    let text = "Belgrano creó la Bandera. San Martín fue gobernador de Cuyo.";

    let triples = extract_triples(text);

    assert_eq!(triples.len(), 2);
    assert_eq!(triples[0].subject, "Belgrano");
    assert_eq!(triples[0].predicate.to_lowercase(), "creó");
    assert_eq!(triples[0].object, "la Bandera");
}

#[test]
fn extract_triples_returns_empty_for_empty_text() {
    let triples = extract_triples("");
    assert!(triples.is_empty());
}

#[test]
fn extract_triples_returns_empty_when_no_patterns_match() {
    let text = "Texto descriptivo sin predicado rule-based reconocido";
    let triples = extract_triples(text);
    assert!(triples.is_empty());
}

#[test]
fn triples_fall_back_to_the_sentence_pattern() {

    let text = "Belgrano fundó la escuela.";
    let pattern = extract_triples(text);
    let none_found = triples_best_effort(text, Ok(Vec::new()));
    assert_eq!(none_found, pattern);
    let failed = triples_best_effort(text, Err("spaCy unavailable".to_string()));
    assert_eq!(failed, pattern);
    let from_spacy = vec![Triple {
        subject: "A".to_string(),
        predicate: "b".to_string(),
        object: "C".to_string(),
    }];
    assert_eq!(triples_best_effort(text, Ok(from_spacy.clone())), from_spacy);
}

#[test]
fn blank_or_operator_only_queries_match_nothing() {
    assert_eq!(fts_match_query("   "), None);
    assert_eq!(fts_match_query("AND OR NOT"), None);
    assert_eq!(fts_match_query("*()"), None);
    assert_eq!(fts_match_query("memoria histórica"), Some(sanitize_fts5_query("memoria histórica")));
}

#[test]
fn fts_search_empty_query_returns_empty() {
    assert!(fts_match_query("").is_none());
}

#[test]
fn fts_search_only_operators_short_circuits() {
    assert!(fts_match_query("  (AND) : * , .  ").is_none());
}
