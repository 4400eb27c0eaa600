//! The basic entity extractor: the rule-based patterns, with the matched text
//! kept as it appears and institutions labelled as such.

use vstd::prelude::*;
use crate::ner_rules::{
    DATE_NUMERIC_PATTERN, DATE_WRITTEN_PATTERN, INSTITUTION_PATTERN, PERSON_PATTERN,
    PLACE_PATTERN,
};
use crate::pattern::{compile_pattern, find_all, match_views, regex_compiles, regex_matches};
use crate::sort::{SortKey, sort_by_keys, sort_by_keys_exec};

verus! {

/// The kind of an entity found by the basic extractor.
#[derive(Debug, Clone, Copy, PartialEq, Eq, Structural)]
pub enum EntityType {
    Person,
    Place,
    Date,
    Institution,
}

pub open spec fn basic_type_label(t: EntityType) -> Seq<char> {
    match t {
        EntityType::Person => "person"@,
        EntityType::Place => "place"@,
        EntityType::Date => "date"@,
        EntityType::Institution => "institution"@,
    }
}

impl EntityType {
    pub fn as_str(&self) -> (s: &'static str)
        ensures
            s@ == basic_type_label(*self),
    {
        match self {
            EntityType::Person => "person",
            EntityType::Place => "place",
            EntityType::Date => "date",
            EntityType::Institution => "institution",
        }
    }
}

/// An entity found by the basic extractor: the matched text and its byte offsets.
#[derive(Debug, Clone, PartialEq)]
pub struct Entity {
    pub entity_type: EntityType,
    pub value: String,
    pub start_offset: usize,
    pub end_offset: usize,
}

/// The content of an `Entity`, with its value as a character sequence.
pub struct EntityRecord {
    pub entity_type: EntityType,
    pub value: Seq<char>,
    pub start_offset: usize,
    pub end_offset: usize,
}

impl View for Entity {
    type V = EntityRecord;

    open spec fn view(&self) -> EntityRecord {
        EntityRecord {
            entity_type: self.entity_type,
            value: self.value@,
            start_offset: self.start_offset,
            end_offset: self.end_offset,
        }
    }
}

pub open spec fn records(s: Seq<Entity>) -> Seq<EntityRecord> {
    s.map_values(|e: Entity| e@)
}

/// One entity per match of a pattern that compiles; none for one that does not.
pub open spec fn pattern_records(pattern: Seq<char>, text: Seq<char>, t: EntityType) -> Seq<
    EntityRecord,
> {
    if regex_compiles(pattern) {
        regex_matches(pattern, text).map_values(
            |m: (usize, usize, Seq<char>)|
                EntityRecord { entity_type: t, value: m.2, start_offset: m.0, end_offset: m.1 },
        )
    } else {
        Seq::empty()
    }
}

/// The matches of persons, places, written dates, numeric dates, institutions.
pub open spec fn basic_candidates(text: Seq<char>) -> Seq<EntityRecord> {
    pattern_records(PERSON_PATTERN@, text, EntityType::Person) + pattern_records(
        PLACE_PATTERN@,
        text,
        EntityType::Place,
    ) + pattern_records(DATE_WRITTEN_PATTERN@, text, EntityType::Date) + pattern_records(
        DATE_NUMERIC_PATTERN@,
        text,
        EntityType::Date,
    ) + pattern_records(INSTITUTION_PATTERN@, text, EntityType::Institution)
}

pub open spec fn record_start_key(e: EntityRecord) -> SortKey {
    (e.start_offset as i128, 0i128, 0i128)
}

/// The basic entities of a text, ordered by start offset (stable); overlapping
/// matches of different patterns are all kept.
pub open spec fn basic_entities(text: Seq<char>) -> Seq<EntityRecord> {
    sort_by_keys(
        basic_candidates(text).map_values(|e: EntityRecord| record_start_key(e)),
        basic_candidates(text),
    )
}

fn collect_records(pattern: &str, text: &str, t: EntityType, out: &mut Vec<Entity>)
    ensures
        records(final(out)@) == records(old(out)@) + pattern_records(pattern@, text@, t),
{
    let ghost base = records(out@);
    match compile_pattern(pattern) {
        Some(p) => {
            let ms = find_all(&p, text);
            let ghost mv = match_views(ms@);
            let ghost f = |m: (usize, usize, Seq<char>)|
                EntityRecord { entity_type: t, value: m.2, start_offset: m.0, end_offset: m.1 };
            let mut i: usize = 0;
            while i < ms.len()
                invariant
                    i <= ms.len(),
                    mv == match_views(ms@),
                    f == (|m: (usize, usize, Seq<char>)|
                        EntityRecord { entity_type: t, value: m.2, start_offset: m.0, end_offset: m.1 }),
                    records(out@) == base + mv.take(i as int).map_values(f),
                decreases ms.len() - i,
            {
                let m = &ms[i];
                let ghost before = records(out@);
                out.push(
                    Entity {
                        entity_type: t,
                        value: m.2.clone(),
                        start_offset: m.0,
                        end_offset: m.1,
                    },
                );
                i += 1;
                assert(mv.take(i as int).map_values(f) =~= mv.take(i - 1).map_values(f).push(
                    f(mv[i - 1]),
                ));
                assert(records(out@) =~= before.push(f(mv[i - 1])));
            }
            assert(mv.take(ms.len() as int) =~= mv);
        },
        None => {
            assert(records(out@) =~= base + Seq::<EntityRecord>::empty());
        },
    }
}

/// Extracts the entities of `text` with every pattern, ordered by start offset.
/// Overlapping matches are kept, for review.
pub fn extract_entities(text: &str) -> (r: Vec<Entity>)
    ensures
        records(r@) == basic_entities(text@),
{
    let mut entities: Vec<Entity> = Vec::new();
    assert(records(entities@) =~= Seq::<EntityRecord>::empty());
    collect_records(PERSON_PATTERN, text, EntityType::Person, &mut entities);
    collect_records(PLACE_PATTERN, text, EntityType::Place, &mut entities);
    collect_records(DATE_WRITTEN_PATTERN, text, EntityType::Date, &mut entities);
    collect_records(DATE_NUMERIC_PATTERN, text, EntityType::Date, &mut entities);
    collect_records(INSTITUTION_PATTERN, text, EntityType::Institution, &mut entities);
    let ghost cands = records(entities@);
    assert(cands =~= basic_candidates(text@));
    let mut keys: Vec<SortKey> = Vec::new();
    let mut i: usize = 0;
    while i < entities.len()
        invariant
            i <= entities.len(),
            cands == records(entities@),
            keys@ == cands.take(i as int).map_values(|e: EntityRecord| record_start_key(e)),
        decreases entities.len() - i,
    {
        keys.push((entities[i].start_offset as i128, 0, 0));
        i += 1;
        assert(keys@ =~= cands.take(i as int).map_values(|e: EntityRecord| record_start_key(e)));
    }
    assert(cands.take(entities.len() as int) =~= cands);
    let ghost kv = keys@;
    let ghost ev = entities@;
    let r = sort_by_keys_exec(keys, entities);
    proof {
        let f = |e: Entity| e@;
        crate::sort::lemma_sort_map(kv, ev, f);
        assert(records(ev) =~= ev.map_values(f));
        assert(records(r@) =~= r@.map_values(f));
    }
    r
}

} // verus!
