use entropia_nlp_ocr::ner_basic;
use entropia_nlp_ocr::ner_hybrid::{dedup_entities, HybridNerEngine};
use entropia_nlp_ocr::ner_merge::merge_entities;
use entropia_nlp_ocr::ner_rules::RuleBasedNerEngine;
use entropia_nlp_ocr::ner_llm::{extract_json_payload, openrouter_entities_from_records, strip_markdown_fences, LlmEntityRecord};
use entropia_nlp_ocr::ner_spacy::{extract_sentinel_json, spacy_entities_from_records, DEFAULT_SPACY_MODEL};
use entropia_nlp_ocr::ner_types::{Entity, EntitySource, EntityType, NerEngine};

const FIXTURE_COLONIAL: &str = r#"
En la ciudad de Buenos Aires, a 15 de mayo de 1810, Don Manuel Belgrano,
secretario de la Real Audiencia, y Doña Juana Azurduy, representante de la
villa de Potosí, se reunieron en el Cabildo para tratar el asunto.
El Convento San Francisco y la Universidad de Córdoba enviaron delegados.
La fecha límite era el 25/05/1810.
"#;

const FIXTURE_ECCLESIASTICAL: &str = r#"
Fray Bartolomé de las Casas presentó su informe ante la Iglesia Catedral
de la ciudad de Sevilla el 3 de junio de 1542.
El Dr. Juan de Zumárraga, obispo de la sierra Nevada, firmó el documento.
"#;

const FIXTURE_ADMINISTRATIVE: &str = r#"
El Cabildo de la villa de Montevideo registró, el 12 de octubre de 1820,
el acuerdo firmado por Don José Artigas y el representante de la provincia de
Entre Ríos. La Audiencia Real emitió su resolución el 01/11/1820.
"#;

/// Confidence on the library's integer scale (10000 is 1.0).
fn entity(
    entity_type: EntityType,
    value: &str,
    start: usize,
    end: usize,
    confidence: u32,
    source: EntitySource,
) -> Entity {
    Entity {
        entity_type,
        value: value.to_string(),
        start_offset: start,
        end_offset: end,
        confidence,
        source,
        model_name: None,
    }
}

fn rule_based_entities(text: &str) -> Vec<Entity> {
    RuleBasedNerEngine::new().extract(text).expect("rule-based NER should work")
}

#[test]
fn rule_based_fixture_colonial_detects_person() {
    let entities = rule_based_entities(FIXTURE_COLONIAL);
    let persons: Vec<_> = entities
        .iter()
        .filter(|e| e.entity_type == EntityType::Person)
        .collect();
    assert!(!persons.is_empty(), "Expected at least one PERSON in colonial fixture");
    let values: Vec<&str> = persons.iter().map(|e| e.value.as_str()).collect();
    assert!(
        values.iter().any(|v| v.contains("Manuel Belgrano")),
        "Expected 'Don Manuel Belgrano' to be detected"
    );
}

#[test]
fn rule_based_fixture_colonial_detects_place() {
    let entities = rule_based_entities(FIXTURE_COLONIAL);
    let places: Vec<_> = entities
        .iter()
        .filter(|e| e.entity_type == EntityType::Place)
        .collect();
    assert!(!places.is_empty(), "Expected at least one PLACE in colonial fixture");

    let values: Vec<&str> = places.iter().map(|e| e.value.as_str()).collect();
    assert!(
        values.iter().any(|v| *v == "ciudad de Buenos Aires"),
        "Expected 'ciudad de Buenos Aires' to be detected"
    );
    assert!(
        values.iter().any(|v| *v == "villa de Potosí"),
        "Expected 'villa de Potosí' to be detected"
    );
}

#[test]
fn rule_based_fixture_colonial_detects_date_written() {
    let entities = rule_based_entities(FIXTURE_COLONIAL);
    let dates: Vec<_> = entities
        .iter()
        .filter(|e| e.entity_type == EntityType::Date)
        .collect();
    assert!(!dates.is_empty(), "Expected at least one DATE in colonial fixture");
    let values: Vec<&str> = dates.iter().map(|e| e.value.as_str()).collect();
    assert!(
        values.iter().any(|v| v.contains("15 de mayo de 1810")),
        "Expected '15 de mayo de 1810' to be detected"
    );
}

#[test]
fn rule_based_fixture_colonial_detects_date_numeric() {
    let entities = rule_based_entities(FIXTURE_COLONIAL);
    let dates: Vec<_> = entities
        .iter()
        .filter(|e| e.entity_type == EntityType::Date)
        .collect();
    let values: Vec<&str> = dates.iter().map(|e| e.value.as_str()).collect();
    assert!(
        values.iter().any(|v| *v == "25/05/1810"),
        "Expected '25/05/1810' to be detected as numeric date"
    );
}

#[test]
fn rule_based_fixture_colonial_detects_institution() {
    let entities = rule_based_entities(FIXTURE_COLONIAL);
    let institutions: Vec<_> = entities
        .iter()
        .filter(|e| e.entity_type == EntityType::Institution)
        .collect();
    assert!(
        !institutions.is_empty(),
        "Expected at least one INSTITUTION in colonial fixture"
    );
}

#[test]
fn rule_based_fixture_colonial_detects_all_four_entity_types() {
    let entities = rule_based_entities(FIXTURE_COLONIAL);
    let has_person = entities.iter().any(|e| e.entity_type == EntityType::Person);
    let has_place = entities.iter().any(|e| e.entity_type == EntityType::Place);
    let has_date = entities.iter().any(|e| e.entity_type == EntityType::Date);
    let has_institution = entities.iter().any(|e| e.entity_type == EntityType::Institution);
    assert!(has_person, "Missing PERSON entities");
    assert!(has_place, "Missing PLACE entities");
    assert!(has_date, "Missing DATE entities");
    assert!(has_institution, "Missing INSTITUTION entities");
}

#[test]
fn rule_based_fixture_ecclesiastical_detects_fray_and_doctor() {
    let entities = rule_based_entities(FIXTURE_ECCLESIASTICAL);
    let persons: Vec<_> = entities
        .iter()
        .filter(|e| e.entity_type == EntityType::Person)
        .collect();
    assert!(persons.len() >= 2, "Expected ≥2 persons in ecclesiastical fixture");
    let values: Vec<&str> = persons.iter().map(|e| e.value.as_str()).collect();
    assert!(
        values.iter().any(|v| v.contains("Bartolomé")),
        "Expected Fray Bartolomé to be detected"
    );
}

#[test]
fn rule_based_fixture_administrative_detects_multiple_dates() {
    let entities = rule_based_entities(FIXTURE_ADMINISTRATIVE);
    let dates: Vec<_> = entities
        .iter()
        .filter(|e| e.entity_type == EntityType::Date)
        .collect();
    assert!(
        dates.len() >= 2,
        "Expected ≥2 dates in administrative fixture, got {}",
        dates.len()
    );
}

#[test]
fn rule_based_empty_text_returns_no_entities() {
    let entities = rule_based_entities("");
    assert!(entities.is_empty());
}

#[test]
fn rule_based_entities_sorted_by_start_offset() {
    let entities = rule_based_entities(FIXTURE_COLONIAL);
    for i in 1..entities.len() {
        assert!(
            entities[i].start_offset >= entities[i - 1].start_offset,
            "Entities not sorted by start_offset at index {i}"
        );
    }
}

#[test]
fn rule_based_detects_colonial_prepositional_place_forms() {
    let text = "En la ciudad de Buenos Aires y la villa de Potosí, con visitas de la provincia de Entre Ríos.";
    let places: Vec<String> = rule_based_entities(text)
        .into_iter()
        .filter(|e| e.entity_type == EntityType::Place)
        .map(|e| e.value)
        .collect();

    assert!(places.iter().any(|v| v == "ciudad de Buenos Aires"));
    assert!(places.iter().any(|v| v == "villa de Potosí"));
    assert!(places.iter().any(|v| v == "provincia de Entre Ríos"));
}

#[test]
fn rule_based_avoids_false_positive_for_non_toponym_phrase() {
    let text = "El pueblo de los vecinos solicitó audiencia.";
    let places: Vec<String> = rule_based_entities(text)
        .into_iter()
        .filter(|e| e.entity_type == EntityType::Place)
        .map(|e| e.value)
        .collect();

    assert!(places.is_empty(), "unexpected PLACE entities: {places:?}");
}

#[test]
fn ner_fixture_colonial_detects_person() {
    let entities = ner_basic::extract_entities(FIXTURE_COLONIAL);
    let persons: Vec<_> = entities
        .iter()
        .filter(|e| e.entity_type == ner_basic::EntityType::Person)
        .collect();
    assert!(!persons.is_empty(), "Expected at least one PERSON in colonial fixture");
    let values: Vec<&str> = persons.iter().map(|e| e.value.as_str()).collect();
    assert!(
        values.iter().any(|v| v.contains("Manuel Belgrano")),
        "Expected 'Don Manuel Belgrano' to be detected"
    );
}

#[test]
fn ner_fixture_colonial_detects_place() {
    let entities = ner_basic::extract_entities(FIXTURE_COLONIAL);
    let places: Vec<_> = entities
        .iter()
        .filter(|e| e.entity_type == ner_basic::EntityType::Place)
        .collect();
    assert!(!places.is_empty(), "Expected at least one PLACE in colonial fixture");

    let values: Vec<&str> = places.iter().map(|e| e.value.as_str()).collect();
    assert!(
        values.iter().any(|v| *v == "ciudad de Buenos Aires"),
        "Expected 'ciudad de Buenos Aires' to be detected"
    );
    assert!(
        values.iter().any(|v| *v == "villa de Potosí"),
        "Expected 'villa de Potosí' to be detected"
    );
}

#[test]
fn ner_fixture_colonial_detects_date_written() {
    let entities = ner_basic::extract_entities(FIXTURE_COLONIAL);
    let dates: Vec<_> = entities
        .iter()
        .filter(|e| e.entity_type == ner_basic::EntityType::Date)
        .collect();
    assert!(!dates.is_empty(), "Expected at least one DATE in colonial fixture");
    let values: Vec<&str> = dates.iter().map(|e| e.value.as_str()).collect();
    assert!(
        values.iter().any(|v| v.contains("15 de mayo de 1810")),
        "Expected '15 de mayo de 1810' to be detected"
    );
}

#[test]
fn ner_fixture_colonial_detects_date_numeric() {
    let entities = ner_basic::extract_entities(FIXTURE_COLONIAL);
    let dates: Vec<_> = entities
        .iter()
        .filter(|e| e.entity_type == ner_basic::EntityType::Date)
        .collect();
    let values: Vec<&str> = dates.iter().map(|e| e.value.as_str()).collect();
    assert!(
        values.iter().any(|v| *v == "25/05/1810"),
        "Expected '25/05/1810' to be detected as numeric date"
    );
}

#[test]
fn ner_fixture_colonial_detects_institution() {
    let entities = ner_basic::extract_entities(FIXTURE_COLONIAL);
    let institutions: Vec<_> = entities
        .iter()
        .filter(|e| e.entity_type == ner_basic::EntityType::Institution)
        .collect();
    assert!(
        !institutions.is_empty(),
        "Expected at least one INSTITUTION in colonial fixture"
    );
}

#[test]
fn ner_fixture_colonial_detects_all_four_entity_types() {
    let entities = ner_basic::extract_entities(FIXTURE_COLONIAL);
    let has_person = entities.iter().any(|e| e.entity_type == ner_basic::EntityType::Person);
    let has_place = entities.iter().any(|e| e.entity_type == ner_basic::EntityType::Place);
    let has_date = entities.iter().any(|e| e.entity_type == ner_basic::EntityType::Date);
    let has_institution = entities.iter().any(|e| e.entity_type == ner_basic::EntityType::Institution);
    assert!(has_person, "Missing PERSON entities");
    assert!(has_place, "Missing PLACE entities");
    assert!(has_date, "Missing DATE entities");
    assert!(has_institution, "Missing INSTITUTION entities");
}

#[test]
fn ner_fixture_ecclesiastical_detects_fray_and_doctor() {
    let entities = ner_basic::extract_entities(FIXTURE_ECCLESIASTICAL);
    let persons: Vec<_> = entities
        .iter()
        .filter(|e| e.entity_type == ner_basic::EntityType::Person)
        .collect();
    assert!(persons.len() >= 2, "Expected ≥2 persons in ecclesiastical fixture");
    let values: Vec<&str> = persons.iter().map(|e| e.value.as_str()).collect();
    assert!(
        values.iter().any(|v| v.contains("Bartolomé")),
        "Expected Fray Bartolomé to be detected"
    );
}

#[test]
fn ner_fixture_administrative_detects_multiple_dates() {
    let entities = ner_basic::extract_entities(FIXTURE_ADMINISTRATIVE);
    let dates: Vec<_> = entities
        .iter()
        .filter(|e| e.entity_type == ner_basic::EntityType::Date)
        .collect();
    assert!(
        dates.len() >= 2,
        "Expected ≥2 dates in administrative fixture, got {}",
        dates.len()
    );
}

#[test]
fn ner_empty_text_returns_no_entities() {
    let entities = ner_basic::extract_entities("");
    assert!(entities.is_empty());
}

#[test]
fn ner_entities_sorted_by_start_offset() {
    let entities = ner_basic::extract_entities(FIXTURE_COLONIAL);
    for i in 1..entities.len() {
        assert!(
            entities[i].start_offset >= entities[i - 1].start_offset,
            "Entities not sorted by start_offset at index {i}"
        );
    }
}

#[test]
fn ner_detects_colonial_prepositional_place_forms() {
    let text = "En la ciudad de Buenos Aires y la villa de Potosí, con visitas de la provincia de Entre Ríos.";
    let places: Vec<String> = ner_basic::extract_entities(text)
        .into_iter()
        .filter(|e| e.entity_type == ner_basic::EntityType::Place)
        .map(|e| e.value)
        .collect();

    assert!(places.iter().any(|v| v == "ciudad de Buenos Aires"));
    assert!(places.iter().any(|v| v == "villa de Potosí"));
    assert!(places.iter().any(|v| v == "provincia de Entre Ríos"));
}

#[test]
fn ner_avoids_false_positive_for_non_toponym_phrase() {
    let text = "El pueblo de los vecinos solicitó audiencia.";
    let places: Vec<String> = ner_basic::extract_entities(text)
        .into_iter()
        .filter(|e| e.entity_type == ner_basic::EntityType::Place)
        .map(|e| e.value)
        .collect();

    assert!(places.is_empty(), "unexpected PLACE entities: {places:?}");
}

#[test]
fn hybrid_extracts_dates_only_from_regex() {
    // This test runs without ML engines (both None),
    // so rule-based acts as fallback for core types.
    let rb = RuleBasedNerEngine::new();
    let engine = HybridNerEngine::new(&rb, None, None);
    let text = "Don Manuel Belgrano en la ciudad de Buenos Aires, a 15 de mayo de 1810.";
    let entities = engine.extract(text).expect("hybrid extract should work");

    // Dates come only from rule-based (RegEx)
    let dates: Vec<&Entity> = entities
        .iter()
        .filter(|e| e.entity_type == EntityType::Date)
        .collect();
    assert!(!dates.is_empty(), "Should detect dates from RegEx");
    for date in &dates {
        assert_eq!(
            date.source,
            EntitySource::RuleBased,
            "Dates must come from RegEx only, got {:?}",
            date.source
        );
    }
}

#[test]
fn hybrid_core_entities_use_regex_fallback_when_no_ml() {
    let rb = RuleBasedNerEngine::new();
    let engine = HybridNerEngine::new(&rb, None, None);
    let text = "Don Manuel Belgrano en la ciudad de Buenos Aires.";
    let entities = engine.extract(text).expect("hybrid extract should work");

    // Without ML engines, rule-based is the last-resort fallback for core types
    let persons: Vec<&Entity> = entities
        .iter()
        .filter(|e| e.entity_type == EntityType::Person)
        .collect();
    let places: Vec<&Entity> = entities
        .iter()
        .filter(|e| e.entity_type == EntityType::Place)
        .collect();

    assert!(
        !persons.is_empty(),
        "Should detect persons from rule-based fallback"
    );
    assert!(
        !places.is_empty(),
        "Should detect places from rule-based fallback"
    );

    for person in &persons {
        assert_eq!(
            person.source,
            EntitySource::RuleBased,
            "Without ML, core entities fall back to rule-based"
        );
    }
}

#[test]
fn hybrid_institution_merge_prefers_rule_based_institution() {
    // When both rule-based and ONNX detect an institution,
    // the merge should resolve overlaps
    let rb = RuleBasedNerEngine::new();
    let engine = HybridNerEngine::new(&rb, None, None);
    let text = "El Cabildo de Buenos Aires y la Real Audiencia.";
    let entities = engine.extract(text).expect("hybrid extract should work");

    let institutions: Vec<&Entity> = entities
        .iter()
        .filter(|e| e.entity_type == EntityType::Institution)
        .collect();
    assert!(
        !institutions.is_empty(),
        "Should detect institutions from rule-based (Cabildo, Real Audiencia)"
    );
}

#[test]
fn hybrid_date_entities_never_come_from_onnx() {
    // Even if we could add ONNX date entities, the routing
    // strictly filters them out — only RegEx dates survive
    let rb = RuleBasedNerEngine::new();
    let engine = HybridNerEngine::new(&rb, None, None);
    let text = "El 25 de mayo de 1810 fue una fecha importante.";
    let entities = engine.extract(text).expect("hybrid extract should work");

    let dates: Vec<&Entity> = entities
        .iter()
        .filter(|e| e.entity_type == EntityType::Date)
        .collect();
    for date in &dates {
        assert_eq!(
            date.source,
            EntitySource::RuleBased,
            "DATE entities must only come from RegEx, got {:?}",
            date.source
        );
    }
}

#[test]
fn dedup_entities_removes_overlapping_duplicates() {
    let deduped = dedup_entities(vec![
        entity(
            EntityType::Organization,
            "Gremio de la Construcción",
            10,
            40,
            9500,
            EntitySource::Onnx,
        ),
        entity(
            EntityType::Organization,
            "Gremio de la Construcción",
            10,
            40,
            9200,
            EntitySource::Spacy,
        ),
    ]);

    assert_eq!(
        deduped.len(),
        1,
        "Overlapping identical entities from different sources should deduplicate, got {:?}",
        deduped
    );
}

#[test]
fn dedup_entities_keeps_longer_entity_on_overlap() {
    let deduped = dedup_entities(vec![
        entity(
            EntityType::Place,
            "MAR DEL PL",
            0,
            10,
            8200,
            EntitySource::Onnx,
        ),
        entity(
            EntityType::Place,
            "Mar del Plata",
            0,
            13,
            9100,
            EntitySource::Onnx,
        ),
    ]);

    assert_eq!(deduped.len(), 1, "Should keep the more complete entity");
    assert!(
        deduped[0].value.contains("Mar del Plata"),
        "Expected more complete entity, got: {}",
        deduped[0].value
    );
}

#[test]
fn dedup_entities_collapses_case_and_punctuation_variants() {
    let deduped = dedup_entities(vec![
        entity(
            EntityType::Place,
            "MAR DEL PLATA",
            100,
            113,
            8600,
            EntitySource::Onnx,
        ),
        entity(
            EntityType::Place,
            "Mar del Plata",
            101,
            114,
            9300,
            EntitySource::Onnx,
        ),
        entity(
            EntityType::Place,
            "Mar del Plata.",
            101,
            115,
            9000,
            EntitySource::Spacy,
        ),
    ]);

    assert_eq!(
        deduped.len(),
        1,
        "Expected variant duplicates to collapse: {deduped:?}"
    );
    assert_eq!(deduped[0].value, "Mar del Plata");
}

#[test]
fn dedup_entities_collapses_repeated_mentions_globally() {
    let deduped = dedup_entities(vec![
        entity(
            EntityType::Place,
            "Mar del Plata",
            10,
            23,
            8800,
            EntitySource::Onnx,
        ),
        entity(
            EntityType::Place,
            "Mar del Plata",
            210,
            223,
            9300,
            EntitySource::Onnx,
        ),
        entity(
            EntityType::Place,
            "MAR DEL PLATA",
            410,
            423,
            8400,
            EntitySource::Spacy,
        ),
    ]);

    assert_eq!(
        deduped.len(),
        1,
        "Repeated mentions of the same entity should collapse globally: {deduped:?}"
    );
    assert_eq!(deduped[0].value, "Mar del Plata");
}

#[test]
fn dedup_entities_keeps_repeated_mentions_of_different_families() {
    let deduped = dedup_entities(vec![
        entity(
            EntityType::Place,
            "Córdoba",
            10,
            17,
            9200,
            EntitySource::Onnx,
        ),
        entity(
            EntityType::Organization,
            "Córdoba",
            200,
            207,
            9000,
            EntitySource::Onnx,
        ),
    ]);

    assert_eq!(deduped.len(), 2);
}

#[test]
fn dedup_entities_preserves_different_type_overlaps() {
    let deduped = dedup_entities(vec![
        entity(
            EntityType::Person,
            "O'Neill",
            50,
            57,
            9000,
            EntitySource::Onnx,
        ),
        entity(
            EntityType::Date,
            "21 de agosto de 1970",
            0,
            20,
            10000,
            EntitySource::RuleBased,
        ),
    ]);

    assert_eq!(
        deduped.len(),
        2,
        "Different types should not deduplicate against each other"
    );
}

#[test]
fn dedup_empty_list_is_noop() {
    let result = dedup_entities(vec![]);
    assert!(result.is_empty());
}

#[test]
fn rule_based_date_beats_onnx_overlap() {
    let merged = merge_entities(
        vec![entity(EntityType::Date, "25/05/1810", 10, 20, 10000, EntitySource::RuleBased)],
        vec![entity(EntityType::Date, "25/05/1810", 10, 20, 9200, EntitySource::Onnx)],
    );

    assert_eq!(merged.len(), 1);
    assert_eq!(merged[0].source, EntitySource::RuleBased);
}

#[test]
fn rule_based_institution_beats_onnx_organization() {
    let merged = merge_entities(
        vec![entity(
            EntityType::Institution,
            "Cabildo de Buenos Aires",
            0,
            24,
            10000,
            EntitySource::RuleBased,
        )],
        vec![entity(
            EntityType::Organization,
            "Cabildo de Buenos Aires",
            0,
            24,
            9300,
            EntitySource::Onnx,
        )],
    );

    assert_eq!(merged.len(), 1);
    assert_eq!(merged[0].entity_type, EntityType::Institution);
    assert_eq!(merged[0].source, EntitySource::RuleBased);
}

#[test]
fn onnx_person_can_beat_lower_confidence_rule_based_match() {
    let merged = merge_entities(
        vec![entity(
            EntityType::Person,
            "Don Manuel",
            0,
            10,
            7000,
            EntitySource::RuleBased,
        )],
        vec![entity(
            EntityType::Person,
            "Don Manuel Belgrano",
            0,
            20,
            9100,
            EntitySource::Onnx,
        )],
    );

    assert_eq!(merged.len(), 1);
    assert_eq!(merged[0].source, EntitySource::Onnx);
    assert_eq!(merged[0].value, "Don Manuel Belgrano");
}

#[test]
fn onnx_org_has_priority_over_rule_based_org_family() {
    let merged = merge_entities(
        vec![entity(
            EntityType::Institution,
            "Real Audiencia de Charcas",
            0,
            25,
            8000,
            EntitySource::RuleBased,
        )],
        vec![entity(
            EntityType::Organization,
            "Real Audiencia de Charcas",
            0,
            25,
            9100,
            EntitySource::Onnx,
        )],
    );

    assert_eq!(merged.len(), 1);
    assert_eq!(merged[0].source, EntitySource::Onnx);
}

#[test]
fn exactish_duplicates_collapse_even_without_overlap() {
    let merged = merge_entities(
        vec![entity(
            EntityType::Place,
            "ciudad de Buenos Aires",
            100,
            123,
            10000,
            EntitySource::RuleBased,
        )],
        vec![entity(
            EntityType::Place,
            "ciudad   de Buenos Aires",
            101,
            124,
            9500,
            EntitySource::Onnx,
        )],
    );

    assert_eq!(merged.len(), 1);
}

// ── Model replies ────────────────────────────────────────────────────────────

fn json_string(item: &serde_json::Value, keys: &[&str]) -> String {
    keys.iter()
        .find_map(|key| item.get(*key).and_then(|v| v.as_str()))
        .unwrap_or_default()
        .to_string()
}

fn json_offset(item: &serde_json::Value, key: &str) -> Option<usize> {
    item.get(key).and_then(|v| v.as_u64()).map(|v| v as usize)
}

fn json_confidence(item: &serde_json::Value) -> Option<u32> {
    item.get("confidence")
        .and_then(|v| v.as_f64())
        .map(|c| (c.clamp(0.0, 1.0) * 10000.0).round() as u32)
}

/// Decodes a model reply's JSON payload as the application does.
fn decode_records(json: &str, what: &str) -> Result<Vec<LlmEntityRecord>, String> {
    let payload: serde_json::Value = serde_json::from_str(json)
        .map_err(|error| format!("{what} failed to parse JSON: {error}."))?;
    let items = match &payload {
        serde_json::Value::Array(items) => items.clone(),
        serde_json::Value::Object(map) => map
            .get("entities")
            .and_then(|v| v.as_array())
            .cloned()
            .ok_or_else(|| format!("{what} failed to parse JSON: no entities."))?,
        _ => return Err(format!("{what} failed to parse JSON: unexpected value.")),
    };
    Ok(items
        .iter()
        .map(|item| LlmEntityRecord {
            value: json_string(item, &["value", "entity", "text"]),
            entity_type: json_string(item, &["type", "entity_type", "category", "label"]),
            start_offset: json_offset(item, "start_offset"),
            end_offset: json_offset(item, "end_offset"),
            confidence: json_confidence(item),
        })
        .collect())
}

fn parse_openrouter_entities(
    text: &str,
    protected: &Vec<Entity>,
    raw: &str,
    model_name: &str,
) -> Result<Vec<Entity>, String> {
    let content = strip_markdown_fences(raw);
    let json = extract_json_payload(&content)?;
    let records = decode_records(&json, "OpenRouter NER")?;
    Ok(openrouter_entities_from_records(text, protected, &records, model_name))
}

#[test]
fn openrouter_ner_strips_json_fences_and_normalizes_aliases() {
    let text = "Don Manuel Belgrano llegó a Buenos Aires con el Cabildo el 25 de mayo.";
    let raw = r#"```json
        [
          {"value":"Manuel Belgrano","type":"PER","confidence":0.97},
          {"entity":"Buenos Aires","category":"LOC"},
          {"text":"Cabildo","label":"ORG"},
          {"value":"25 de mayo","type":"DATE"}
        ]
        ```"#;

    let entities = parse_openrouter_entities(text, &vec![], raw, "google/gemma-3-4b-it")
        .expect("valid fenced JSON should parse");

    assert_eq!(entities.len(), 4);
    assert_eq!(entities[0].entity_type, EntityType::Person);
    assert_eq!(entities[0].value, "Manuel Belgrano");
    assert_eq!(entities[1].entity_type, EntityType::Place);
    assert_eq!(entities[2].entity_type, EntityType::Organization);
    assert_eq!(entities[3].entity_type, EntityType::Date);
    assert!(entities
        .iter()
        .all(|entity| entity.source == EntitySource::Llm));
}

#[test]
fn openrouter_ner_rejects_bad_json_without_spacy_fallback() {
    let error = parse_openrouter_entities("texto", &vec![], "not json", "google/gemma-3-4b-it")
        .expect_err("bad JSON should not silently fall back");

    assert!(error.contains("OpenRouter NER"));
    assert!(error.contains("failed to parse JSON"));
}

#[test]
fn openrouter_ner_preserves_manual_entity_protection() {
    let protected = vec![Entity {
        entity_type: EntityType::Person,
        value: "Manuel Belgrano".to_string(),
        start_offset: 4,
        end_offset: 20,
        confidence: 10000,
        source: EntitySource::RuleBased,
        model_name: None,
    }];
    let raw =
        r#"[{"value":"Manuel Belgrano","type":"PER"},{"value":"Buenos Aires","type":"LOC"}]"#;

    let entities = parse_openrouter_entities(
        "Don Manuel Belgrano viajó a Buenos Aires.",
        &protected,
        raw,
        "google/gemma-3-4b-it",
    )
    .expect("valid JSON should parse");

    assert_eq!(entities.len(), 1);
    assert_eq!(entities[0].value, "Buenos Aires");
    assert_eq!(entities[0].entity_type, EntityType::Place);
}

#[test]
fn parses_spacy_sentinel_json() {
    let raw = r#"noise
===SPACY_NER_JSON_BEGIN===
[{"value":"Buenos Aires","type":"place","start_offset":0,"end_offset":12,"confidence":0.91}]
===SPACY_NER_JSON_END===
"#;
    let json = extract_sentinel_json(raw).expect("sentinel markers present");
    let records = decode_records(&json, "spaCy NER").expect("valid spaCy JSON");
    let entities = spacy_entities_from_records(&vec![], &records);
    assert_eq!(entities.len(), 1);
    assert_eq!(entities[0].value, "Buenos Aires");
    assert_eq!(entities[0].entity_type, EntityType::Place);
    assert_eq!(entities[0].source, EntitySource::RuleBased);
    assert_eq!(entities[0].model_name.as_deref(), Some(DEFAULT_SPACY_MODEL));
}
