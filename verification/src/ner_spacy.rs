//! Entities reported by the spaCy subprocess: reading its sentinel-wrapped
//! JSON, mapping its type names, and keeping manual entities authoritative.

use vstd::prelude::*;
use crate::chars::{ascii_lower, chars_of, to_ascii_lower};
use crate::ner_hybrid::{sort_entities, sorted_by_start};
use crate::ner_llm::{
    LlmEntityRecord, LlmRecordView, dedup_key_of, has_key, is_suppressed_by_protected,
    record_views, suppressed_by,
};
use crate::ner_types::{
    CONFIDENCE_SCALE, Entity, EntitySource, EntityType, EntityView, entity_type_label,
    entity_views, normalize_entity_value, normalized_value, sanitize_entity_value, sanitized,
};
use crate::nlp_queue::same_text;
use crate::search::{find_chars, first_occurrence, occurs_at};
use crate::text::{CharClass, slice_chars, strip_bounds, trim, trim_chars};

verus! {

pub const SPACY_JSON_BEGIN: &'static str = "===SPACY_NER_JSON_BEGIN===";

pub const SPACY_JSON_END: &'static str = "===SPACY_NER_JSON_END===";

pub const NO_BEGIN_MARKER: &'static str = "spaCy NER no devolvió marcador JSON inicial";

pub const NO_END_MARKER: &'static str = "spaCy NER no devolvió marcador JSON final";

/// The JSON between the markers of the subprocess output, trimmed; an error
/// when a marker is missing.
pub open spec fn spacy_payload(out: Seq<char>) -> Result<Seq<char>, Seq<char>> {
    match first_occurrence(out, SPACY_JSON_BEGIN@) {
        None => Err(NO_BEGIN_MARKER@),
        Some(b) => {
            let rest = out.subrange(b + SPACY_JSON_BEGIN@.len(), out.len() as int);
            match first_occurrence(rest, SPACY_JSON_END@) {
                None => Err(NO_END_MARKER@),
                Some(e) => Ok(trim(rest.subrange(0, e))),
            }
        },
    }
}

/// The JSON payload of the subprocess output (see `spacy_payload`).
pub fn extract_sentinel_json(output: &str) -> (r: Result<String, String>)
    ensures
        match r {
            Ok(s) => spacy_payload(output@) == Ok::<Seq<char>, Seq<char>>(s@),
            Err(e) => spacy_payload(output@) == Err::<Seq<char>, Seq<char>>(e@),
        },
{
    let v = chars_of(output);
    let vb = chars_of(SPACY_JSON_BEGIN);
    let ve = chars_of(SPACY_JSON_END);
    let vlen = v.len();
    match find_chars(&v, &vb) {
        None => Err(String::from_str(NO_BEGIN_MARKER)),
        Some(b) => {
            proof {
                crate::search::lemma_contains_seq(v@, vb@);
                assert(occurs_at(v@, vb@, b as int));
            }
            let rest = slice_chars(&v, b + vb.len(), v.len());
            match find_chars(&rest, &ve) {
                None => Err(String::from_str(NO_END_MARKER)),
                Some(e) => {
                    proof {
                        crate::search::lemma_contains_seq(rest@, ve@);
                    }
                    let inner = slice_chars(&rest, 0, e);
                    let (x, y) = strip_bounds(&inner, CharClass::Whitespace);
                    Ok(crate::search::substring(&inner, x, y))
                },
            }
        },
    }
}

/// The entity type of a spaCy label (trimmed, ASCII case ignored).
pub open spec fn spacy_type_for(v: Seq<char>) -> Option<EntityType> {
    let l = trim(v).map_values(|c: char| ascii_lower(c));
    if l == "person"@ || l == "persona"@ || l == "per"@ {
        Some(EntityType::Person)
    } else if l == "place"@ || l == "location"@ || l == "lugar"@ || l == "loc"@ || l == "gpe"@ {
        Some(EntityType::Place)
    } else if l == "date"@ || l == "fecha"@ {
        Some(EntityType::Date)
    } else if l == "organization"@ || l == "organizacion"@ || l == "organización"@ || l
        == "institution"@ || l == "org"@ {
        Some(EntityType::Organization)
    } else if l == "misc"@ || l == "other"@ || l == "otro"@ {
        Some(EntityType::Misc)
    } else {
        None
    }
}

/// Maps a spaCy label to an entity type.
pub fn parse_spacy_entity_type(value: &str) -> (r: Option<EntityType>)
    ensures
        r == spacy_type_for(value@),
{
    let t = trim_chars(value);
    let mut low: Vec<char> = Vec::new();
    let mut i: usize = 0;
    while i < t.len()
        invariant
            i <= t.len(),
            low@ == t@.take(i as int).map_values(|c: char| ascii_lower(c)),
        decreases t.len() - i,
    {
        low.push(to_ascii_lower(t[i]));
        i += 1;
        assert(low@ =~= t@.take(i as int).map_values(|c: char| ascii_lower(c)));
    }
    assert(t@.take(t.len() as int) =~= t@);
    let ls = crate::chars::string_from_chars(&low);
    let l = ls.as_str();
    if same_text(l, "person") || same_text(l, "persona") || same_text(l, "per") {
        Some(EntityType::Person)
    } else if same_text(l, "place") || same_text(l, "location") || same_text(l, "lugar")
        || same_text(l, "loc") || same_text(l, "gpe") {
        Some(EntityType::Place)
    } else if same_text(l, "date") || same_text(l, "fecha") {
        Some(EntityType::Date)
    } else if same_text(l, "organization") || same_text(l, "organizacion") || same_text(
        l,
        "organización",
    ) || same_text(l, "institution") || same_text(l, "org") {
        Some(EntityType::Organization)
    } else if same_text(l, "misc") || same_text(l, "other") || same_text(l, "otro") {
        Some(EntityType::Misc)
    } else {
        None
    }
}

/// The spaCy model named on its entities.
pub const DEFAULT_SPACY_MODEL: &'static str = "es_core_news_sm";

/// The entity for a spaCy record: missing offsets are 0, the confidence
/// defaults to 0.85 and is at most 1.
pub open spec fn spacy_entity(r: LlmRecordView, t: EntityType) -> EntityView {
    EntityView {
        entity_type: t,
        value: sanitized(r.value),
        start_offset: match r.start_offset {
            Some(s) => s,
            None => 0,
        },
        end_offset: match r.end_offset {
            Some(e) => e,
            None => 0,
        },
        confidence: match r.confidence {
            Some(v) => if v <= CONFIDENCE_SCALE {
                v
            } else {
                CONFIDENCE_SCALE
            },
            None => 8500,
        },
        source: EntitySource::RuleBased,
        model_name: Some(DEFAULT_SPACY_MODEL@),
    }
}

/// The spaCy entities in output order: empty values and unknown types are
/// dropped, as are entities a manual entity overrides and repeated keys.
pub open spec fn spacy_fold(protected: Seq<EntityView>, records: Seq<LlmRecordView>) -> Seq<EntityView>
    decreases records.len(),
{
    if records.len() == 0 {
        Seq::empty()
    } else {
        let kept = spacy_fold(protected, records.drop_last());
        let r = records.last();
        if sanitized(r.value).len() == 0 {
            kept
        } else {
            match spacy_type_for(r.entity_type) {
                None => kept,
                Some(t) => {
                    let e = spacy_entity(r, t);
                    if suppressed_by(e, protected) || has_key(kept, dedup_key_of(e)) {
                        kept
                    } else {
                        kept.push(e)
                    }
                },
            }
        }
    }
}

/// The entities of the spaCy output (decoded into records), filtered against
/// the manual entities and deduplicated, ordered by start offset.
pub fn spacy_entities_from_records(protected_entities: &Vec<Entity>, records: &Vec<LlmEntityRecord>) -> (r:
    Vec<Entity>)
    ensures
        entity_views(r@) == sorted_by_start(
            spacy_fold(entity_views(protected_entities@), record_views(records@)),
        ),
{
    let ghost rs = record_views(records@);
    let ghost ps = entity_views(protected_entities@);
    let mut kept: Vec<Entity> = Vec::new();
    let mut norms: Vec<String> = Vec::new();
    let mut i: usize = 0;
    while i < records.len()
        invariant
            rs == record_views(records@),
            ps == entity_views(protected_entities@),
            i <= records.len(),
            kept.len() == norms.len(),
            forall|j: int| 0 <= j < kept.len() ==> (#[trigger] norms@[j])@ == normalized_value(kept@[j].value@),
            entity_views(kept@) == spacy_fold(ps, rs.take(i as int)),
        decreases records.len() - i,
    {
        proof {
            assert(rs.take(i + 1).drop_last() =~= rs.take(i as int));
            assert(rs.take(i + 1).last() == rs[i as int]);
        }
        let rec = &records[i];
        let value = sanitize_entity_value(rec.value.as_str());
        if value.as_str().unicode_len() > 0 {
            match parse_spacy_entity_type(rec.entity_type.as_str()) {
                None => {},
                Some(t) => {
                    let confidence = match rec.confidence {
                        Some(v) => if v <= CONFIDENCE_SCALE {
                            v
                        } else {
                            CONFIDENCE_SCALE
                        },
                        None => 8500,
                    };
                    let entity = Entity {
                        entity_type: t,
                        value,
                        start_offset: match rec.start_offset {
                            Some(s) => s,
                            None => 0,
                        },
                        end_offset: match rec.end_offset {
                            Some(e) => e,
                            None => 0,
                        },
                        confidence,
                        source: EntitySource::RuleBased,
                        model_name: Some(String::from_str(DEFAULT_SPACY_MODEL)),
                    };
                    assert(entity@ == spacy_entity(rs[i as int], t));
                    let norm = normalize_entity_value(entity.value.as_str());
                    if !is_suppressed_by_protected(&entity, protected_entities) && !crate::ner_llm::has_key_exec(
                        &kept,
                        &norms,
                        norm.as_str(),
                        t,
                    ) {
                        let ghost before = entity_views(kept@);
                        kept.push(entity);
                        norms.push(norm);
                        assert(entity_views(kept@) =~= before.push(spacy_entity(rs[i as int], t)));
                    }
                },
            }
        }
        i += 1;
    }
    assert(rs.take(records.len() as int) =~= rs);
    sort_entities(kept, false)
}

} // verus!
