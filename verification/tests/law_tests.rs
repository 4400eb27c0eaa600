use entropia_nlp_ocr::fts::sanitize_fts5_query;
use entropia_nlp_ocr::glm_upload::{glm_api_error, GlmApiError, GlmApiErrorEnvelope};
use entropia_nlp_ocr::ner_hybrid::{dedup_entities, route_hybrid_entities, HybridNerEngine};
use entropia_nlp_ocr::ner_llm::extract_review_payload;
use entropia_nlp_ocr::ner_rules::RuleBasedNerEngine;
use entropia_nlp_ocr::ner_types::{sanitize_entity_value, Entity, EntitySource, EntityType, NerEngine};
use entropia_nlp_ocr::triples::extract_triples;

fn entity(t: EntityType, value: &str, start: usize, end: usize, source: EntitySource) -> Entity {
    Entity {
        entity_type: t,
        value: value.to_string(),
        start_offset: start,
        end_offset: end,
        confidence: 9000,
        source,
        model_name: None,
    }
}

#[test]
fn safe_query_terms_are_quoted_plain_words() {
    for raw in [
        "acta AND (cabildo):* \"virrey\" -- near NEAR",
        "foo^bar baz.qux, (x OR y)",
        "  \"\"\"  ",
    ] {
        let q = sanitize_fts5_query(raw);
        if q.is_empty() {
            continue;
        }
        let mut previous: Option<&str> = None;
        for term in q.split(' ') {
            assert!(term.len() >= 3 && term.starts_with('"') && term.ends_with('"'), "{q}");
            let inner = &term[1..term.len() - 1];
            assert!(!inner.is_empty());
            assert!(inner
                .chars()
                .all(|c| !c.is_whitespace() && !"\"()*^-:,.".contains(c)));
            let upper = inner.to_ascii_uppercase();
            assert!(!matches!(upper.as_str(), "AND" | "OR" | "NOT" | "NEAR"));
            assert_ne!(previous, Some(inner), "consecutive repeats collapse");
            previous = Some(inner);
        }
    }
    assert_eq!(sanitize_fts5_query("a a b a"), "\"a\" \"b\" \"a\"");
}

#[test]
fn dedup_only_returns_input_entities_with_sanitized_values() {
    let input = vec![
        entity(EntityType::Place, "Mar del Plata.", 0, 14, EntitySource::Onnx),
        entity(EntityType::Place, "MAR DEL PLATA", 100, 113, EntitySource::Spacy),
        entity(EntityType::Person, "Juan", 20, 24, EntitySource::RuleBased),
    ];
    let out = dedup_entities(input);
    assert_eq!(out.len(), 2);
    assert_eq!(out[0].value, "Mar del Plata");
    assert_eq!(out[0].source, EntitySource::Onnx);
    assert_eq!(out[1].value, "Juan");
    assert_eq!((out[1].start_offset, out[1].end_offset), (20, 24));
}

#[test]
fn routed_dates_come_from_rules_even_when_models_report_dates() {
    let rule = vec![entity(EntityType::Date, "25 de mayo de 1810", 3, 21, EntitySource::RuleBased)];
    let onnx = vec![
        entity(EntityType::Date, "1810", 17, 21, EntitySource::Onnx),
        entity(EntityType::Person, "Belgrano", 30, 38, EntitySource::Onnx),
    ];
    let spacy = vec![entity(EntityType::Date, "mayo", 9, 13, EntitySource::Spacy)];
    let out = route_hybrid_entities(rule, onnx, spacy);
    let dates: Vec<&Entity> = out.iter().filter(|e| e.entity_type == EntityType::Date).collect();
    assert_eq!(dates.len(), 1);
    assert_eq!(dates[0].source, EntitySource::RuleBased);
    assert_eq!(dates[0].value, "25 de mayo de 1810");
    for w in out.windows(2) {
        assert!(w[0].start_offset <= w[1].start_offset);
    }
}

#[test]
fn hybrid_engine_output_is_ordered_and_rule_based_without_models() {
    let rb = RuleBasedNerEngine::new();
    let engine = HybridNerEngine::new(&rb, None, None);
    let text = "El Cabildo de Buenos Aires, el 25/05/1810, recibió a Don Manuel Belgrano.";
    let out = engine.extract(text).expect("patterns compile");
    assert!(!out.is_empty());
    for w in out.windows(2) {
        assert!(w[0].start_offset <= w[1].start_offset);
    }
    assert!(out.iter().all(|e| e.source == EntitySource::RuleBased));
}

#[test]
fn review_payload_uses_review_messages() {
    assert_eq!(
        extract_review_payload("ok: [{\"value\":\"x\"}] fin"),
        Ok("[{\"value\":\"x\"}]".to_string())
    );
    assert_eq!(
        extract_review_payload("sin json"),
        Err("LLM entity review did not return JSON content".to_string())
    );
    assert_eq!(
        extract_review_payload("[abierto"),
        Err("LLM entity review did not return a closed JSON payload".to_string())
    );
}

#[test]
fn glm_api_error_prefers_nested_error_then_msg_then_body() {
    let nested = GlmApiErrorEnvelope {
        error: Some(GlmApiError {
            code: Some("1211".to_string()),
            message: Some("Modelo inexistente".to_string()),
        }),
        msg: Some("otro".to_string()),
        message: None,
    };
    assert_eq!(
        glm_api_error("400 Bad Request", Some(nested), "{}"),
        "GLM-OCR API error (400 Bad Request): 1211: Modelo inexistente"
    );

    let code_only = GlmApiErrorEnvelope {
        error: Some(GlmApiError {
            code: Some("1301".to_string()),
            message: None,
        }),
        msg: None,
        message: None,
    };
    assert_eq!(
        glm_api_error("429 Too Many Requests", Some(code_only), ""),
        "GLM-OCR API error (429 Too Many Requests): 1301"
    );

    let msg = GlmApiErrorEnvelope {
        error: None,
        msg: None,
        message: Some("Unauthorized".to_string()),
    };
    assert_eq!(
        glm_api_error("401 Unauthorized", Some(msg), "{\"message\":\"Unauthorized\"}"),
        "GLM-OCR API error (401 Unauthorized): Unauthorized"
    );

    assert_eq!(
        glm_api_error("502 Bad Gateway", None, "  upstream down \n"),
        "GLM-OCR API error (502 Bad Gateway): upstream down"
    );
}

#[test]
fn sanitizing_twice_changes_nothing() {
    for v in ["  «Buenos Aires».  ", "—(Cabildo)—", " \"\" ", "Juan", "¡Viva!"] {
        let once = sanitize_entity_value(v);
        assert_eq!(sanitize_entity_value(&once), once);
        assert!(v.contains(once.as_str()));
    }
    for q in ["acta AND (cabildo):*", "a a b", "  \"x\" \"y\" ", "foo-bar.baz"] {
        let once = sanitize_fts5_query(q);
        assert_eq!(sanitize_fts5_query(&once), once);
    }
}

#[test]
fn triples_of_joined_texts_are_concatenated() {
    let a = "Belgrano fundó la escuela";
    let b = "Moreno era secretario";
    for sep in ['.', ';', '\n'] {
        let joined = format!("{a}{sep}{b}");
        let mut expected = extract_triples(a);
        expected.extend(extract_triples(b));
        assert_eq!(extract_triples(&joined), expected);
    }
}
