//! Entity model shared by the NER engines: types, sources, and value normalisation.

use vstd::prelude::*;
use crate::chars::{str_to_lowercase, string_from_chars, to_lowercase};
use crate::text::{
    collapse_whitespace, collapse_ws, strip_both, strip_bounds, slice_chars, trim_class,
    CharClass,
};

verus! {

/// Confidence values are stored as integers on this scale: `CONFIDENCE_SCALE` is 1.0.
pub const CONFIDENCE_SCALE: u32 = 10000;

/// The kind of a named entity.
#[derive(Debug, Clone, Copy, PartialEq, Eq, Structural)]
pub enum EntityType {
    Person,
    Place,
    Date,
    Institution,
    Organization,
    Misc,
}

/// The stored label of each entity type. Institutions are stored as organizations.
pub open spec fn entity_type_label(t: EntityType) -> Seq<char> {
    match t {
        EntityType::Person => "person"@,
        EntityType::Place => "place"@,
        EntityType::Date => "date"@,
        EntityType::Institution => "organization"@,
        EntityType::Organization => "organization"@,
        EntityType::Misc => "misc"@,
    }
}

impl EntityType {
    pub fn as_str(&self) -> (s: &'static str)
        ensures
            s@ == entity_type_label(*self),
    {
        match self {
            EntityType::Person => "person",
            EntityType::Place => "place",
            EntityType::Date => "date",
            EntityType::Institution => "organization",
            EntityType::Organization => "organization",
            EntityType::Misc => "misc",
        }
    }
}

/// The engine that produced an entity.
#[derive(Debug, Clone, Copy, PartialEq, Eq, Structural)]
pub enum EntitySource {
    RuleBased,
    Onnx,
    Spacy,
    Llm,
}

pub open spec fn entity_source_label(s: EntitySource) -> Seq<char> {
    match s {
        EntitySource::RuleBased => "rule_based"@,
        EntitySource::Onnx => "onnx"@,
        EntitySource::Spacy => "spacy"@,
        EntitySource::Llm => "llm"@,
    }
}

impl EntitySource {
    pub fn as_str(&self) -> (s: &'static str)
        ensures
            s@ == entity_source_label(*self),
    {
        match self {
            EntitySource::RuleBased => "rule_based",
            EntitySource::Onnx => "onnx",
            EntitySource::Spacy => "spacy",
            EntitySource::Llm => "llm",
        }
    }
}

/// Which NER engine a registry runs.
#[derive(Debug, Clone, Copy, PartialEq, Eq, Structural)]
pub enum NerEngineKind {
    RuleBased,
    Onnx,
    Hybrid,
    Spacy,
}

/// A named entity found in a text. Offsets are those reported by the engine;
/// `confidence` is on the `CONFIDENCE_SCALE`.
#[derive(Debug)]
pub struct Entity {
    pub entity_type: EntityType,
    pub value: String,
    pub start_offset: usize,
    pub end_offset: usize,
    pub confidence: u32,
    pub source: EntitySource,
    pub model_name: Option<String>,
}

/// The mathematical content of an `Entity`: its strings as character sequences.
pub struct EntityView {
    pub entity_type: EntityType,
    pub value: Seq<char>,
    pub start_offset: usize,
    pub end_offset: usize,
    pub confidence: u32,
    pub source: EntitySource,
    pub model_name: Option<Seq<char>>,
}

impl View for Entity {
    type V = EntityView;

    open spec fn view(&self) -> EntityView {
        EntityView {
            entity_type: self.entity_type,
            value: self.value@,
            start_offset: self.start_offset,
            end_offset: self.end_offset,
            confidence: self.confidence,
            source: self.source,
            model_name: match self.model_name {
                Some(m) => Some(m@),
                None => None,
            },
        }
    }
}

/// The views of a list of entities.
pub open spec fn entity_views(s: Seq<Entity>) -> Seq<EntityView> {
    s.map_values(|e: Entity| e@)
}

impl Entity {
    /// A field-by-field copy.
    pub fn duplicate(&self) -> (r: Entity)
        ensures
            r == *self,
    {
        Entity {
            entity_type: self.entity_type,
            value: self.value.clone(),
            start_offset: self.start_offset,
            end_offset: self.end_offset,
            confidence: self.confidence,
            source: self.source,
            model_name: match &self.model_name {
                Some(m) => Some(m.clone()),
                None => None,
            },
        }
    }
}

/// An entity value without surrounding whitespace and edge symbols:
/// `value.trim().trim_matches(edge symbol).trim()`.
pub open spec fn sanitized(value: Seq<char>) -> Seq<char> {
    strip_both(
        strip_both(strip_both(value, CharClass::Whitespace), CharClass::EntityEdge),
        CharClass::Whitespace,
    )
}

/// The comparison key of an entity value: sanitized, whitespace runs collapsed to
/// single spaces, lowercased.
pub open spec fn normalized_value(value: Seq<char>) -> Seq<char> {
    str_to_lowercase(collapse_ws(sanitized(value)))
}

/// Strips whitespace and edge symbols (quotes, dashes, brackets, punctuation)
/// from both ends of an entity value; alphanumeric characters are kept.
pub fn sanitize_entity_value(value: &str) -> (r: String)
    ensures
        r@ == sanitized(value@),
{
    let v1 = trim_class(value, CharClass::Whitespace);
    let (a2, b2) = strip_bounds(&v1, CharClass::EntityEdge);
    let v2 = slice_chars(&v1, a2, b2);
    let (a3, b3) = strip_bounds(&v2, CharClass::Whitespace);
    let v3 = slice_chars(&v2, a3, b3);
    string_from_chars(&v3)
}

/// The comparison key used to recognise the same entity written differently.
pub fn normalize_entity_value(value: &str) -> (r: String)
    ensures
        r@ == normalized_value(value@),
{
    let s = sanitize_entity_value(value);
    let v = crate::chars::chars_of(s.as_str());
    let c = collapse_whitespace(&v);
    let joined = string_from_chars(&c);
    to_lowercase(joined.as_str())
}

/// Whether two entity types belong to the same family: equal, or organization
/// and institution.
pub open spec fn same_family(a: EntityType, b: EntityType) -> bool {
    a == b || (a == EntityType::Organization && b == EntityType::Institution) || (a
        == EntityType::Institution && b == EntityType::Organization)
}

pub fn same_entity_family(a: &EntityType, b: &EntityType) -> (r: bool)
    ensures
        r == same_family(*a, *b),
{
    match (a, b) {
        (EntityType::Organization, EntityType::Institution)
        | (EntityType::Institution, EntityType::Organization) => true,
        _ => *a == *b,
    }
}

/// Whether the half-open spans of two entities intersect.
pub open spec fn spans_overlap(a: Entity, b: Entity) -> bool {
    a.start_offset < b.end_offset && b.start_offset < a.end_offset
}

/// A named-entity recognition engine. Each engine states, in `extracted`, what
/// its `extract` may return for a text.
pub trait NerEngine {
    /// Whether `r` is a result this engine's `extract` may give for `text`.
    spec fn extracted(&self, text: Seq<char>, r: Result<Vec<Entity>, String>) -> bool;

    fn name(&self) -> &'static str;

    fn extract(&self, text: &str) -> (r: Result<Vec<Entity>, String>)
        ensures
            self.extracted(text@, r),
    ;
}

} // verus!
