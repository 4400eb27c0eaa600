//! Rule-based named-entity recognition for historical Spanish documents:
//! persons (by title), places (colonial toponym forms), dates (written and
//! numeric) and institutions, found by regular expressions.

use vstd::prelude::*;
use crate::ner_hybrid::{sort_entities, sorted_by_start};
use crate::ner_types::{
    CONFIDENCE_SCALE, Entity, EntitySource, EntityType, EntityView, NerEngine, entity_views,
    sanitize_entity_value, sanitized,
};
use crate::pattern::{CompiledPattern, compile_pattern, find_all, regex_compiles, regex_matches};

verus! {

/// A title (Don, Doña, Dr., Fray, Sor, Fr.) followed by capitalised names.
pub const PERSON_PATTERN: &'static str = r"(?:Don|Doña|Dr\.?|Fray|Sor|Fr\.)\s+[A-ZÁÉÍÓÚÑ][a-záéíóúñ]+(?:\s+[A-ZÁÉÍÓÚÑ][a-záéíóúñ]+)*";

/// Colonial place forms: `ciudad|villa|pueblo|provincia de <Toponym>` and
/// `río|sierra <Toponym>`, where a toponym is capitalised words joined by
/// de/del/la/las/los/y.
pub const PLACE_PATTERN: &'static str = r"(?:(?:(?:ciudad|villa|pueblo|provincia)\s+de\s+[A-ZÁÉÍÓÚÑ][a-záéíóúñ]+(?:\s+(?:de|del|la|las|los|y)\s+[A-ZÁÉÍÓÚÑ][a-záéíóúñ]+|\s+[A-ZÁÉÍÓÚÑ][a-záéíóúñ]+)*)|(?:(?:río|sierra)\s+[A-ZÁÉÍÓÚÑ][a-záéíóúñ]+(?:\s+(?:de|del|la|las|los|y)\s+[A-ZÁÉÍÓÚÑ][a-záéíóúñ]+|\s+[A-ZÁÉÍÓÚÑ][a-záéíóúñ]+)*))";

/// Written dates: `15 de mayo de 1810`.
pub const DATE_WRITTEN_PATTERN: &'static str = r"\b\d{1,2}\s+de\s+[a-záéíóúñ]+\s+de\s+\d{4}\b";

/// Numeric dates: `25/05/1810`.
pub const DATE_NUMERIC_PATTERN: &'static str = r"\b\d{1,2}/\d{1,2}/\d{4}\b";

/// An institution keyword followed by capitalised words.
pub const INSTITUTION_PATTERN: &'static str = r"(?:Real|Cabildo|Iglesia|Convento|Universidad|Audiencia)(?:\s+[A-ZÁÉÍÓÚÑ][a-záéíóúñ]+)*";

/// The entity for one match: its sanitized text, offsets, full confidence.
pub open spec fn rule_entity(m: (usize, usize, Seq<char>), t: EntityType) -> EntityView {
    EntityView {
        entity_type: t,
        value: sanitized(m.2),
        start_offset: m.0,
        end_offset: m.1,
        confidence: CONFIDENCE_SCALE,
        source: EntitySource::RuleBased,
        model_name: None,
    }
}

/// The entities for a list of matches, skipping those whose sanitized text is empty.
pub open spec fn collected(ms: Seq<(usize, usize, Seq<char>)>, t: EntityType) -> Seq<EntityView>
    decreases ms.len(),
{
    if ms.len() == 0 {
        Seq::empty()
    } else {
        let prev = collected(ms.drop_last(), t);
        if sanitized(ms.last().2).len() == 0 {
            prev
        } else {
            prev.push(rule_entity(ms.last(), t))
        }
    }
}

/// All five patterns compile.
pub open spec fn rule_patterns_compile() -> bool {
    &&& regex_compiles(PERSON_PATTERN@)
    &&& regex_compiles(PLACE_PATTERN@)
    &&& regex_compiles(DATE_WRITTEN_PATTERN@)
    &&& regex_compiles(DATE_NUMERIC_PATTERN@)
    &&& regex_compiles(INSTITUTION_PATTERN@)
}

/// The matches of each pattern in turn: persons, places, written dates,
/// numeric dates, institutions.
pub open spec fn rule_candidates(text: Seq<char>) -> Seq<EntityView> {
    collected(regex_matches(PERSON_PATTERN@, text), EntityType::Person) + collected(
        regex_matches(PLACE_PATTERN@, text),
        EntityType::Place,
    ) + collected(regex_matches(DATE_WRITTEN_PATTERN@, text), EntityType::Date) + collected(
        regex_matches(DATE_NUMERIC_PATTERN@, text),
        EntityType::Date,
    ) + collected(regex_matches(INSTITUTION_PATTERN@, text), EntityType::Institution)
}

/// The rule-based entities of a text, ordered by start offset (stable).
pub open spec fn rule_based_entities(text: Seq<char>) -> Seq<EntityView> {
    sorted_by_start(rule_candidates(text))
}

pub open spec fn spans_ordered(s: Seq<EntityView>) -> bool {
    forall|i: int| 0 <= i < s.len() ==> (#[trigger] s[i]).start_offset <= s[i].end_offset
}

/// Appends the entities for the matches of `p` in `text`.
fn collect_matches(p: &CompiledPattern, text: &str, t: EntityType, out: &mut Vec<Entity>)
    requires
        spans_ordered(entity_views(old(out)@)),
    ensures
        entity_views(final(out)@) == entity_views(old(out)@) + collected(regex_matches(p@, text@), t),
        spans_ordered(entity_views(final(out)@)),
{
    let ms = find_all(p, text);
    let ghost base = entity_views(out@);
    let ghost mv = regex_matches(p@, text@);
    let mut i: usize = 0;
    while i < ms.len()
        invariant
            i <= ms.len(),
            mv == crate::pattern::match_views(ms@),
            forall|k: int| 0 <= k < ms.len() ==> (#[trigger] ms@[k]).0 <= ms@[k].1,
            entity_views(out@) == base + collected(mv.take(i as int), t),
            spans_ordered(entity_views(out@)),
        decreases ms.len() - i,
    {
        proof {
            assert(mv.take(i + 1).drop_last() =~= mv.take(i as int));
            assert(mv.take(i + 1).last() == mv[i as int]);
        }
        let m = &ms[i];
        let value = sanitize_entity_value(m.2.as_str());
        if value.as_str().unicode_len() > 0 {
            let ghost before = entity_views(out@);
            out.push(
                Entity {
                    entity_type: t,
                    value,
                    start_offset: m.0,
                    end_offset: m.1,
                    confidence: CONFIDENCE_SCALE,
                    source: EntitySource::RuleBased,
                    model_name: None,
                },
            );
            assert(entity_views(out@) =~= before.push(rule_entity(mv[i as int], t)));
        } else {
            assert(value@.len() == 0);
        }
        i += 1;
    }
    assert(mv.take(ms.len() as int) =~= mv);
}

/// The error of the rule-based engine when one of its patterns did not compile.
pub const RULE_PATTERNS_ERROR: &'static str = "rule-based NER patterns failed to compile";

/// The rule-based engine: the five patterns, compiled once.
pub struct RuleBasedNerEngine {
    person: Option<CompiledPattern>,
    place: Option<CompiledPattern>,
    date_written: Option<CompiledPattern>,
    date_numeric: Option<CompiledPattern>,
    institution: Option<CompiledPattern>,
}

pub open spec fn holds_pattern(o: Option<CompiledPattern>, source: Seq<char>) -> bool {
    &&& o.is_some() == regex_compiles(source)
    &&& o matches Some(p) ==> p@ == source
}

/// The pattern a compiled slot holds.
pub open spec fn pattern_source(o: Option<CompiledPattern>) -> Option<Seq<char>> {
    match o {
        Some(p) => Some(p@),
        None => None,
    }
}

/// What compiling `source` leaves in a slot: the pattern when it compiles.
pub open spec fn compiled_source(source: Seq<char>) -> Option<Seq<char>> {
    if regex_compiles(source) {
        Some(source)
    } else {
        None
    }
}

impl RuleBasedNerEngine {
    #[verifier::type_invariant]
    spec fn patterns_held(self) -> bool {
        &&& holds_pattern(self.person, PERSON_PATTERN@)
        &&& holds_pattern(self.place, PLACE_PATTERN@)
        &&& holds_pattern(self.date_written, DATE_WRITTEN_PATTERN@)
        &&& holds_pattern(self.date_numeric, DATE_NUMERIC_PATTERN@)
        &&& holds_pattern(self.institution, INSTITUTION_PATTERN@)
    }

    /// The pattern held in each slot (person, place, written date, numeric
    /// date, institution), `None` for one that did not compile.
    pub closed spec fn pattern_sources(self) -> Seq<Option<Seq<char>>> {
        seq![
            pattern_source(self.person),
            pattern_source(self.place),
            pattern_source(self.date_written),
            pattern_source(self.date_numeric),
            pattern_source(self.institution),
        ]
    }

    /// Compiles the five patterns: each slot holds its pattern when the regex
    /// crate accepts it, and nothing otherwise.
    pub fn new() -> (r: Self)
        ensures
            r.pattern_sources() == seq![
                compiled_source(PERSON_PATTERN@),
                compiled_source(PLACE_PATTERN@),
                compiled_source(DATE_WRITTEN_PATTERN@),
                compiled_source(DATE_NUMERIC_PATTERN@),
                compiled_source(INSTITUTION_PATTERN@),
            ],
    {
        RuleBasedNerEngine {
            person: compile_pattern(PERSON_PATTERN),
            place: compile_pattern(PLACE_PATTERN),
            date_written: compile_pattern(DATE_WRITTEN_PATTERN),
            date_numeric: compile_pattern(DATE_NUMERIC_PATTERN),
            institution: compile_pattern(INSTITUTION_PATTERN),
        }
    }

    /// The rule-based entities of `text`, ordered by start offset; an error
    /// when a pattern did not compile.
    pub fn extract_rules(&self, text: &str) -> (r: Result<Vec<Entity>, String>)
        ensures
            r is Ok <==> rule_patterns_compile(),
            r matches Err(e) ==> e@ == RULE_PATTERNS_ERROR@,
            r matches Ok(v) ==> entity_views(v@) == rule_based_entities(text@),
            r matches Ok(v) ==> spans_ordered(entity_views(v@)),
    {
        proof {
            use_type_invariant(self);
        }
        match (&self.person, &self.place, &self.date_written, &self.date_numeric, &self.institution) {
            (Some(person), Some(place), Some(date_written), Some(date_numeric), Some(institution)) => {
                let mut entities: Vec<Entity> = Vec::new();
                assert(entity_views(entities@) =~= Seq::<EntityView>::empty());
                collect_matches(person, text, EntityType::Person, &mut entities);
                collect_matches(place, text, EntityType::Place, &mut entities);
                collect_matches(date_written, text, EntityType::Date, &mut entities);
                collect_matches(date_numeric, text, EntityType::Date, &mut entities);
                collect_matches(institution, text, EntityType::Institution, &mut entities);
                assert(entity_views(entities@) =~= rule_candidates(text@));
                let ghost unsorted = entity_views(entities@);
                let sorted = sort_entities(entities, false);
                proof {
                    lemma_sorted_spans(unsorted);
                }
                Ok(sorted)
            },
            _ => Err(String::from_str(RULE_PATTERNS_ERROR)),
        }
    }
}

proof fn lemma_sorted_spans(s: Seq<EntityView>)
    requires
        spans_ordered(s),
    ensures
        spans_ordered(sorted_by_start(s)),
{
    let keys = s.map_values(|e: EntityView| crate::ner_hybrid::start_key(e));
    crate::sort::lemma_sort_items_from(keys, s);
    assert forall|i: int| 0 <= i < sorted_by_start(s).len() implies (#[trigger] sorted_by_start(
        s,
    )[i]).start_offset <= sorted_by_start(s)[i].end_offset by {
        let j = choose|j: int| 0 <= j < s.len() && s[j] == crate::sort::sort_by_keys(keys, s)[i];
        assert(s[j].start_offset <= s[j].end_offset);
    }
}

impl NerEngine for RuleBasedNerEngine {
    /// The rule-based entities of the text, or the pattern error.
    open spec fn extracted(&self, text: Seq<char>, r: Result<Vec<Entity>, String>) -> bool {
        &&& (r is Ok <==> rule_patterns_compile())
        &&& (r matches Err(e) ==> e@ == RULE_PATTERNS_ERROR@)
        &&& (r matches Ok(v) ==> entity_views(v@) == rule_based_entities(text))
    }

    fn name(&self) -> (r: &'static str)
        ensures
            r@ == "rule_based"@,
    {
        "rule_based"
    }

    fn extract(&self, text: &str) -> (r: Result<Vec<Entity>, String>)
        ensures
            r is Ok <==> rule_patterns_compile(),
            r matches Err(e) ==> e@ == RULE_PATTERNS_ERROR@,
            r matches Ok(v) ==> entity_views(v@) == rule_based_entities(text@),
    {
        self.extract_rules(text)
    }
}

} // verus!
