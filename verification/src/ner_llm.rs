//! Entities proposed by a language model: the request prompt, reading the
//! reply's JSON payload, mapping its type names, placing each entity in the
//! text, and keeping manual (protected) entities authoritative.

use vstd::prelude::*;
use crate::chars::{ascii_upper, chars_of, str_to_lowercase, to_ascii_upper, to_lowercase};
use crate::ner_hybrid::{sort_entities, sorted_by_start};
use crate::ner_types::{
    CONFIDENCE_SCALE, Entity, EntitySource, EntityType, EntityView, entity_type_label,
    entity_views, normalize_entity_value, normalized_value, same_entity_family, same_family,
    sanitize_entity_value, sanitized,
};
use crate::nlp_queue::same_text;
use crate::search::{find_chars, first_occurrence, starts_with_seq, starts_with_str, substring};
use crate::text::{trim, trim_chars, trim_string};

verus! {

/// The model used when none is configured.
pub const DEFAULT_OPENROUTER_NER_MODEL: &'static str = "google/gemma-3-4b-it";

/// The instructions sent before the text.
pub const NER_PROMPT_HEAD: &'static str = "Extraé entidades nombradas del texto histórico. Devolvé SOLO JSON válido, sin markdown. Usá exclusivamente estas categorías: PER, LOC, ORG, DATE, MISC. Formato: [{\"value\":\"...\",\"type\":\"PER|LOC|ORG|DATE|MISC\",\"start_offset\":0,\"end_offset\":0,\"confidence\":0.95}]. Si no hay entidades, devolvé []. no uses spaCy ni inventes entidades.\n\nTexto:\n";

/// The extraction prompt for a text: the instructions, then the text.
pub fn build_ner_prompt(text: &str) -> (r: String)
    ensures
        r@ == NER_PROMPT_HEAD@ + text@,
{
    let mut s = String::from_str(NER_PROMPT_HEAD);
    s.append(text);
    s
}

/// The configured model name, trimmed; the default model when blank.
pub fn normalize_model_name(model_name: &str) -> (r: String)
    ensures
        r@ == (if trim(model_name@).len() == 0 {
            DEFAULT_OPENROUTER_NER_MODEL@
        } else {
            trim(model_name@)
        }),
{
    let t = trim_string(model_name);
    if t.as_str().unicode_len() == 0 {
        String::from_str(DEFAULT_OPENROUTER_NER_MODEL)
    } else {
        t
    }
}

/// The error reported when the remote extractor cannot run.
pub fn openrouter_ner_unavailable(reason: &str) -> (r: String)
    ensures
        r@ == "OpenRouter NER unavailable: "@ + reason@ + ". Configure OpenRouter API key/model."@,
{
    let mut s = String::from_str("OpenRouter NER unavailable: ");
    s.append(reason);
    s.append(". Configure OpenRouter API key/model.");
    s
}

// ── Type names ───────────────────────────────────────────────────────────────

/// The entity type of a model's category name (trimmed, ASCII case ignored).
pub open spec fn model_type_for(v: Seq<char>) -> Option<EntityType> {
    let u = trim(v).map_values(|c: char| ascii_upper(c));
    if u == "PER"@ || u == "PERSON"@ || u == "PERSONA"@ {
        Some(EntityType::Person)
    } else if u == "LOC"@ || u == "LOCATION"@ || u == "PLACE"@ || u == "LUGAR"@ {
        Some(EntityType::Place)
    } else if u == "ORG"@ || u == "ORGANIZATION"@ || u == "ORGANISATION"@ || u == "INSTITUTION"@
        || u == "INSTITUCION"@ || u == "INSTITUCIÓN"@ {
        Some(EntityType::Organization)
    } else if u == "DATE"@ || u == "FECHA"@ {
        Some(EntityType::Date)
    } else if u == "MISC"@ || u == "OTHER"@ || u == "OTRO"@ {
        Some(EntityType::Misc)
    } else {
        None
    }
}

fn upper_trimmed(value: &str) -> (r: String)
    ensures
        r@ == trim(value@).map_values(|c: char| ascii_upper(c)),
{
    let t = trim_chars(value);
    let mut u: Vec<char> = Vec::new();
    let mut i: usize = 0;
    while i < t.len()
        invariant
            i <= t.len(),
            u@ == t@.take(i as int).map_values(|c: char| ascii_upper(c)),
        decreases t.len() - i,
    {
        u.push(to_ascii_upper(t[i]));
        i += 1;
        assert(u@ =~= t@.take(i as int).map_values(|c: char| ascii_upper(c)));
    }
    assert(t@.take(t.len() as int) =~= t@);
    crate::chars::string_from_chars(&u)
}

/// Maps a category name of the model's reply to an entity type.
pub fn parse_openrouter_entity_type(value: &str) -> (r: Option<EntityType>)
    ensures
        r == model_type_for(value@),
{
    let us = upper_trimmed(value);
    let u = us.as_str();
    if same_text(u, "PER") || same_text(u, "PERSON") || same_text(u, "PERSONA") {
        Some(EntityType::Person)
    } else if same_text(u, "LOC") || same_text(u, "LOCATION") || same_text(u, "PLACE") || same_text(
        u,
        "LUGAR",
    ) {
        Some(EntityType::Place)
    } else if same_text(u, "ORG") || same_text(u, "ORGANIZATION") || same_text(u, "ORGANISATION")
        || same_text(u, "INSTITUTION") || same_text(u, "INSTITUCION") || same_text(
        u,
        "INSTITUCIÓN",
    ) {
        Some(EntityType::Organization)
    } else if same_text(u, "DATE") || same_text(u, "FECHA") {
        Some(EntityType::Date)
    } else if same_text(u, "MISC") || same_text(u, "OTHER") || same_text(u, "OTRO") {
        Some(EntityType::Misc)
    } else {
        None
    }
}

/// The entity type of a stored label.
pub open spec fn stored_type_for(v: Seq<char>) -> Option<EntityType> {
    if v == "person"@ {
        Some(EntityType::Person)
    } else if v == "place"@ {
        Some(EntityType::Place)
    } else if v == "date"@ {
        Some(EntityType::Date)
    } else if v == "institution"@ {
        Some(EntityType::Institution)
    } else if v == "organization"@ {
        Some(EntityType::Organization)
    } else if v == "misc"@ {
        Some(EntityType::Misc)
    } else {
        None
    }
}

/// Maps a stored type label to an entity type.
pub fn parse_entity_type(value: &str) -> (r: Option<EntityType>)
    ensures
        r == stored_type_for(value@),
{
    if same_text(value, "person") {
        Some(EntityType::Person)
    } else if same_text(value, "place") {
        Some(EntityType::Place)
    } else if same_text(value, "date") {
        Some(EntityType::Date)
    } else if same_text(value, "institution") {
        Some(EntityType::Institution)
    } else if same_text(value, "organization") {
        Some(EntityType::Organization)
    } else if same_text(value, "misc") {
        Some(EntityType::Misc)
    } else {
        None
    }
}

/// The entity type of a type name from the model's second pass: the accepted aliases
/// (trimmed, lowercased), else a stored label.
pub open spec fn alias_type_for(v: Seq<char>) -> Option<EntityType> {
    let l = str_to_lowercase(trim(v));
    if l == "person"@ || l == "persona"@ {
        Some(EntityType::Person)
    } else if l == "place"@ || l == "location"@ || l == "lugar"@ {
        Some(EntityType::Place)
    } else if l == "date"@ || l == "fecha"@ {
        Some(EntityType::Date)
    } else if l == "institution"@ || l == "institucion"@ || l == "institución"@ {
        Some(EntityType::Institution)
    } else if l == "organization"@ || l == "organizacion"@ || l == "organización"@ {
        Some(EntityType::Organization)
    } else if l == "misc"@ || l == "other"@ || l == "otro"@ {
        Some(EntityType::Misc)
    } else {
        stored_type_for(trim(v))
    }
}

/// Maps a type name from the model's second pass (alias or stored label) to an entity type.
pub fn parse_entity_type_alias(value: &str) -> (r: Option<EntityType>)
    ensures
        r == alias_type_for(value@),
{
    let t = trim_string(value);
    let ls = to_lowercase(t.as_str());
    let l = ls.as_str();
    if same_text(l, "person") || same_text(l, "persona") {
        Some(EntityType::Person)
    } else if same_text(l, "place") || same_text(l, "location") || same_text(l, "lugar") {
        Some(EntityType::Place)
    } else if same_text(l, "date") || same_text(l, "fecha") {
        Some(EntityType::Date)
    } else if same_text(l, "institution") || same_text(l, "institucion") || same_text(
        l,
        "institución",
    ) {
        Some(EntityType::Institution)
    } else if same_text(l, "organization") || same_text(l, "organizacion") || same_text(
        l,
        "organización",
    ) {
        Some(EntityType::Organization)
    } else if same_text(l, "misc") || same_text(l, "other") || same_text(l, "otro") {
        Some(EntityType::Misc)
    } else {
        parse_entity_type(t.as_str())
    }
}

// ── Reply payload ────────────────────────────────────────────────────────────

/// `s` with every leading copy of `p` removed (`str::trim_start_matches`).
pub open spec fn strip_all_prefix(s: Seq<char>, p: Seq<char>) -> Seq<char>
    decreases s.len(),
{
    if p.len() > 0 && starts_with_seq(s, p) {
        strip_all_prefix(s.subrange(p.len() as int, s.len() as int), p)
    } else {
        s
    }
}

pub open spec fn ends_with_seq(s: Seq<char>, p: Seq<char>) -> bool {
    p.len() <= s.len() && s.subrange(s.len() - p.len(), s.len() as int) == p
}

/// The reply without a surrounding markdown code fence (and its `json` tag).
pub open spec fn fences_stripped(text: Seq<char>) -> Seq<char> {
    let t = trim(text);
    let fence = "```"@;
    if !starts_with_seq(t, fence) {
        t
    } else {
        let w = trim(
            strip_all_prefix(
                strip_all_prefix(t.subrange(fence.len() as int, t.len() as int), "json"@),
                "JSON"@,
            ),
        );
        let w2 = if ends_with_seq(w, fence) {
            w.subrange(0, w.len() - fence.len())
        } else {
            w
        };
        trim(w2)
    }
}

fn strip_all_prefix_exec(s: &Vec<char>, p: &Vec<char>) -> (r: Vec<char>)
    ensures
        r@ == strip_all_prefix(s@, p@),
{
    let mut start: usize = 0;
    assert(s@.subrange(0, s@.len() as int) =~= s@);
    while p.len() > 0 && p.len() <= s.len() - start && crate::search::matches_at(s, p, start)
        invariant
            start <= s.len(),
            strip_all_prefix(s@, p@) == strip_all_prefix(s@.subrange(start as int, s.len() as int), p@),
        decreases s.len() - start,
    {
        proof {
            let rest = s@.subrange(start as int, s.len() as int);
            assert(rest.subrange(0, p@.len() as int) =~= p@);
            assert(rest.subrange(p@.len() as int, rest.len() as int) =~= s@.subrange(
                start + p.len(),
                s.len() as int,
            ));
        }
        start += p.len();
    }
    proof {
        let rest = s@.subrange(start as int, s.len() as int);
        if p.len() > 0 && start + p.len() <= s.len() {
            assert(rest.subrange(0, p@.len() as int) =~= s@.subrange(start as int, start + p.len()));
        }
    }
    crate::text::slice_chars(s, start, s.len())
}

/// Removes a markdown code fence (and a `json` tag) around a reply.
pub fn strip_markdown_fences(text: &str) -> (r: String)
    ensures
        r@ == fences_stripped(text@),
{
    let t = trim_string(text);
    if !starts_with_str(t.as_str(), "```") {
        return t;
    }
    let tv = chars_of(t.as_str());
    let fence = chars_of("```");
    let after = crate::text::slice_chars(&tv, fence.len(), tv.len());
    let json_lower = chars_of("json");
    let json_upper = chars_of("JSON");
    let a = strip_all_prefix_exec(&after, &json_lower);
    let b = strip_all_prefix_exec(&a, &json_upper);
    let (x, y) = crate::text::strip_bounds(&b, crate::text::CharClass::Whitespace);
    let w = crate::text::slice_chars(&b, x, y);
    let w2 = if fence.len() <= w.len() && crate::search::matches_at(&w, &fence, w.len() - fence.len()) {
        crate::text::slice_chars(&w, 0, w.len() - fence.len())
    } else {
        w
    };
    let (x2, y2) = crate::text::strip_bounds(&w2, crate::text::CharClass::Whitespace);
    substring(&w2, x2, y2)
}

/// The last position of `c` in `s`.
pub open spec fn last_index_of(s: Seq<char>, c: char) -> Option<int>
    decreases s.len(),
{
    if s.len() == 0 {
        None
    } else if s.last() == c {
        Some(s.len() - 1)
    } else {
        last_index_of(s.drop_last(), c)
    }
}

proof fn lemma_last_index_of(s: Seq<char>, c: char)
    ensures
        last_index_of(s, c) matches Some(i) ==> 0 <= i < s.len() && s[i] == c,
    decreases s.len(),
{
    if s.len() > 0 && s.last() != c {
        lemma_last_index_of(s.drop_last(), c);
    }
}

fn last_index(s: &Vec<char>, c: char) -> (r: Option<usize>)
    ensures
        match r {
            Some(i) => last_index_of(s@, c) == Some(i as int),
            None => last_index_of(s@, c) is None,
        },
{
    let mut k: usize = s.len();
    assert(s@.take(k as int) =~= s@);
    while k > 0
        invariant
            k <= s.len(),
            last_index_of(s@, c) == last_index_of(s@.take(k as int), c),
        decreases k,
    {
        assert(s@.take(k as int).drop_last() =~= s@.take(k - 1));
        if s[k - 1] == c {
            return Some(k - 1);
        }
        k -= 1;
    }
    None
}

/// A reply with nothing in it that could be JSON is reported as unparsable JSON.
pub const NO_JSON_CONTENT: &'static str =
    "OpenRouter NER failed to parse JSON: the reply holds no JSON content.";

pub const NO_CLOSED_JSON: &'static str = "OpenRouter NER did not return a closed JSON payload.";

pub const MALFORMED_JSON: &'static str = "OpenRouter NER returned malformed JSON boundaries.";

/// The JSON payload of a reply: from the first `[` (else `{`) to the last `]`
/// (else `}`), inclusive.
pub open spec fn json_payload(c: Seq<char>) -> Result<Seq<char>, Seq<char>> {
    let start = match first_occurrence(c, seq!['[']) {
        Some(i) => Some(i),
        None => first_occurrence(c, seq!['{']),
    };
    let end = match last_index_of(c, ']') {
        Some(i) => Some(i),
        None => last_index_of(c, '}'),
    };
    match start {
        None => Err(NO_JSON_CONTENT@),
        Some(s) => match end {
            None => Err(NO_CLOSED_JSON@),
            Some(e) => if e < s {
                Err(MALFORMED_JSON@)
            } else {
                Ok(c.subrange(s, e + 1))
            },
        },
    }
}

/// The JSON payload of a reply (see `json_payload`).
pub fn extract_json_payload(content: &str) -> (r: Result<String, String>)
    ensures
        match r {
            Ok(s) => json_payload(content@) == Ok::<Seq<char>, Seq<char>>(s@),
            Err(e) => json_payload(content@) == Err::<Seq<char>, Seq<char>>(e@),
        },
{
    let v = chars_of(content);
    let mut open_sq: Vec<char> = Vec::new();
    open_sq.push('[');
    let mut open_br: Vec<char> = Vec::new();
    open_br.push('{');
    assert(open_sq@ =~= seq!['[']);
    assert(open_br@ =~= seq!['{']);
    let start = match find_chars(&v, &open_sq) {
        Some(i) => Some(i),
        None => find_chars(&v, &open_br),
    };
    let end = match last_index(&v, ']') {
        Some(i) => Some(i),
        None => last_index(&v, '}'),
    };
    match start {
        None => Err(String::from_str(NO_JSON_CONTENT)),
        Some(s) => match end {
            None => Err(String::from_str(NO_CLOSED_JSON)),
            Some(e) => {
                if e < s {
                    Err(String::from_str(MALFORMED_JSON))
                } else {
                    proof {
                        lemma_last_index_of(v@, ']');
                        lemma_last_index_of(v@, '}');
                    }
                    Ok(substring(&v, s, e + 1))
                }
            },
        },
    }
}

pub const REVIEW_NO_JSON: &'static str = "LLM entity review did not return JSON content";

pub const REVIEW_NOT_CLOSED: &'static str = "LLM entity review did not return a closed JSON payload";

/// A review reply whose last closing bracket comes before its first opening one.
pub open spec fn review_bounds_inverted(c: Seq<char>) -> bool {
    json_payload(c) == Err::<Seq<char>, Seq<char>>(MALFORMED_JSON@)
}

/// The JSON payload of a review reply: the same span as `json_payload`, with
/// the review's own messages when there is none.
pub open spec fn review_payload(c: Seq<char>) -> Result<Seq<char>, Seq<char>> {
    match json_payload(c) {
        Ok(p) => Ok(p),
        Err(e) => if e == NO_JSON_CONTENT@ {
            Err(REVIEW_NO_JSON@)
        } else {
            Err(REVIEW_NOT_CLOSED@)
        },
    }
}

/// The JSON payload of a review reply (see `review_payload`). A reply whose
/// brackets are inverted cannot be sliced and is left out.
pub fn extract_review_payload(content: &str) -> (r: Result<String, String>)
    requires
        !review_bounds_inverted(content@),
    ensures
        match r {
            Ok(s) => review_payload(content@) == Ok::<Seq<char>, Seq<char>>(s@),
            Err(e) => review_payload(content@) == Err::<Seq<char>, Seq<char>>(e@),
        },
{
    match extract_json_payload(content) {
        Ok(p) => Ok(p),
        Err(e) => {
            if crate::nlp_queue::same_text(e.as_str(), NO_JSON_CONTENT) {
                Err(String::from_str(REVIEW_NO_JSON))
            } else {
                Err(String::from_str(REVIEW_NOT_CLOSED))
            }
        },
    }
}

// ── Placing and filtering entities ───────────────────────────────────────────

/// Where a value occurs in a text, ignoring case: the character span of the
/// first occurrence of the lowercased trimmed value in the lowercased text.
pub open spec fn entity_span(text: Seq<char>, value: Seq<char>) -> Option<(int, int)> {
    let needle = trim(value);
    if needle.len() == 0 {
        None
    } else {
        let h = str_to_lowercase(text);
        let n = str_to_lowercase(needle);
        match first_occurrence(h, n) {
            Some(i) => Some((i, i + n.len())),
            None => None,
        }
    }
}

/// The span of a value in a text, case-insensitively (see `entity_span`).
pub fn find_entity_span(text: &str, value: &str) -> (r: Option<(usize, usize)>)
    ensures
        match r {
            Some(p) => entity_span(text@, value@) == Some((p.0 as int, p.1 as int)),
            None => entity_span(text@, value@) is None,
        },
{
    let needle = trim_string(value);
    if needle.as_str().unicode_len() == 0 {
        return None;
    }
    let h = to_lowercase(text);
    let n = to_lowercase(needle.as_str());
    let hv = chars_of(h.as_str());
    let nv = chars_of(n.as_str());
    let hlen = hv.len();
    match find_chars(&hv, &nv) {
        Some(i) => {
            proof {
                crate::search::lemma_contains_seq(hv@, nv@);
                assert(crate::search::occurs_at(hv@, nv@, i as int));
            }
            Some((i, i + nv.len()))
        },
        None => None,
    }
}

/// A protected entity of the same family with the same normalized value, or
/// an overlapping span, overrides a candidate.
pub open spec fn suppressed_by(c: EntityView, protected: Seq<EntityView>) -> bool {
    exists|i: int|
        0 <= i < protected.len() && same_family(c.entity_type, (#[trigger] protected[i]).entity_type)
            && (normalized_value(c.value) == normalized_value(protected[i].value) || (
        c.start_offset < protected[i].end_offset && protected[i].start_offset < c.end_offset))
}

/// Whether a manual entity overrides the candidate.
pub fn is_suppressed_by_protected(candidate: &Entity, protected_entities: &Vec<Entity>) -> (r: bool)
    ensures
        r == suppressed_by(candidate@, entity_views(protected_entities@)),
{
    let ghost ps = entity_views(protected_entities@);
    let cn = normalize_entity_value(candidate.value.as_str());
    let mut i: usize = 0;
    while i < protected_entities.len()
        invariant
            ps == entity_views(protected_entities@),
            i <= protected_entities.len(),
            cn@ == normalized_value(candidate.value@),
            forall|k: int|
                0 <= k < i ==> !(same_family(candidate.entity_type, (#[trigger] ps[k]).entity_type)
                    && (normalized_value(candidate.value@) == normalized_value(ps[k].value) || (
                candidate.start_offset < ps[k].end_offset && ps[k].start_offset
                    < candidate.end_offset))),
        decreases protected_entities.len() - i,
    {
        let p = &protected_entities[i];
        assert(ps[i as int] == p@);
        if same_entity_family(&candidate.entity_type, &p.entity_type) {
            let pn = normalize_entity_value(p.value.as_str());
            if same_text(cn.as_str(), pn.as_str()) || (candidate.start_offset < p.end_offset
                && p.start_offset < candidate.end_offset) {
                return true;
            }
        }
        i += 1;
    }
    false
}

/// One entity as the model returned it (after JSON decoding); the confidence
/// is on the `CONFIDENCE_SCALE`.
pub struct LlmEntityRecord {
    pub value: String,
    pub entity_type: String,
    pub start_offset: Option<usize>,
    pub end_offset: Option<usize>,
    pub confidence: Option<u32>,
}

/// The confidence given by the model, 0.95 when absent, at most 1.
pub open spec fn record_confidence(c: Option<u32>) -> u32 {
    match c {
        Some(v) => if v <= CONFIDENCE_SCALE {
            v
        } else {
            CONFIDENCE_SCALE
        },
        None => 9500,
    }
}

/// The span of a record: its own offsets when both are given and ordered,
/// else where the value occurs in the text, else `(0, 0)`.
pub open spec fn record_span(
    text: Seq<char>,
    value: Seq<char>,
    start: Option<usize>,
    end: Option<usize>,
) -> (int, int) {
    match (start, end) {
        (Some(s), Some(e)) if e >= s => (s as int, e as int),
        _ => match entity_span(text, value) {
            Some(p) => p,
            None => (0, 0),
        },
    }
}

/// Where a record is placed: at its own offsets when it gives both and they
/// are in order; otherwise, when its trimmed value occurs in the text ignoring
/// case (both lowercased), at the first such occurrence, whose lowercased text
/// is exactly the lowercased value; otherwise at `(0, 0)`.
pub proof fn law_record_placed_in_text(
    text: Seq<char>,
    value: Seq<char>,
    start: Option<usize>,
    end: Option<usize>,
)
    ensures
        ({
            let (s, e) = record_span(text, value, start, end);
            let h = str_to_lowercase(text);
            let n = str_to_lowercase(trim(value));
            let given = start matches Some(a) && end matches Some(b) && b >= a;
            &&& given ==> s == start.unwrap() && e == end.unwrap()
            &&& !given && trim(value).len() > 0 && (exists|i: int|
                crate::search::occurs_at(h, n, i)) ==> {
                &&& e == s + n.len()
                &&& crate::search::occurs_at(h, n, s)
                &&& h.subrange(s, e) == n
                &&& forall|k: int| 0 <= k < s ==> !crate::search::occurs_at(h, n, k)
            }
            &&& !given && (trim(value).len() == 0 || forall|i: int|
                !crate::search::occurs_at(h, n, i)) ==> s == 0 && e == 0
        }),
{
    crate::search::lemma_first_occurrence_is_first(
        str_to_lowercase(text),
        str_to_lowercase(trim(value)),
    );
}

/// The deduplication key of an entity: its normalized value and type label.
pub open spec fn dedup_key_of(e: EntityView) -> (Seq<char>, Seq<char>) {
    (normalized_value(e.value), entity_type_label(e.entity_type))
}

pub open spec fn has_key(kept: Seq<EntityView>, key: (Seq<char>, Seq<char>)) -> bool {
    exists|j: int| 0 <= j < kept.len() && dedup_key_of(#[trigger] kept[j]) == key
}


pub struct LlmRecordView {
    pub value: Seq<char>,
    pub entity_type: Seq<char>,
    pub start_offset: Option<usize>,
    pub end_offset: Option<usize>,
    pub confidence: Option<u32>,
}

impl View for LlmEntityRecord {
    type V = LlmRecordView;

    open spec fn view(&self) -> LlmRecordView {
        LlmRecordView {
            value: self.value@,
            entity_type: self.entity_type@,
            start_offset: self.start_offset,
            end_offset: self.end_offset,
            confidence: self.confidence,
        }
    }
}

pub open spec fn record_views(s: Seq<LlmEntityRecord>) -> Seq<LlmRecordView> {
    s.map_values(|r: LlmEntityRecord| r@)
}

/// The entity for a record of the given type.
pub open spec fn record_entity(text: Seq<char>, r: LlmRecordView, t: EntityType, model: Seq<char>) -> EntityView {
    let value = sanitized(r.value);
    let span = record_span(text, value, r.start_offset, r.end_offset);
    EntityView {
        entity_type: t,
        value,
        start_offset: span.0 as usize,
        end_offset: span.1 as usize,
        confidence: record_confidence(r.confidence),
        source: EntitySource::Llm,
        model_name: Some(model),
    }
}

/// The model's entities in reply order: records with an empty value or an
/// unknown type are dropped, as are those a manual entity overrides and
/// repeats of an earlier (value, type) key.
pub open spec fn llm_entities_fold(
    text: Seq<char>,
    protected: Seq<EntityView>,
    records: Seq<LlmRecordView>,
    model: Seq<char>,
) -> Seq<EntityView>
    decreases records.len(),
{
    if records.len() == 0 {
        Seq::empty()
    } else {
        let kept = llm_entities_fold(text, protected, records.drop_last(), model);
        let r = records.last();
        if sanitized(r.value).len() == 0 {
            kept
        } else {
            match model_type_for(r.entity_type) {
                None => kept,
                Some(t) => {
                    let e = record_entity(text, r, t, model);
                    if suppressed_by(e, protected) || has_key(kept, dedup_key_of(e)) {
                        kept
                    } else {
                        kept.push(e)
                    }
                },
            }
        }
    }
}

/// The model's entities ordered by start offset.
pub open spec fn llm_entities(
    text: Seq<char>,
    protected: Seq<EntityView>,
    records: Seq<LlmRecordView>,
    model: Seq<char>,
) -> Seq<EntityView> {
    sorted_by_start(llm_entities_fold(text, protected, records, model))
}

/// Whether an entity with the given normalized value and type label is kept.
pub fn has_key_exec(kept: &Vec<Entity>, norms: &Vec<String>, norm: &str, t: EntityType) -> (r: bool)
    requires
        kept.len() == norms.len(),
        forall|j: int| 0 <= j < kept.len() ==> (#[trigger] norms@[j])@ == normalized_value(kept@[j].value@),
    ensures
        r == has_key(entity_views(kept@), (norm@, entity_type_label(t))),
{
    let ghost ks = entity_views(kept@);
    let mut j: usize = 0;
    while j < kept.len()
        invariant
            kept.len() == norms.len(),
            forall|q: int| 0 <= q < kept.len() ==> (#[trigger] norms@[q])@ == normalized_value(kept@[q].value@),
            ks == entity_views(kept@),
            j <= kept.len(),
            forall|q: int| 0 <= q < j ==> dedup_key_of(#[trigger] ks[q]) != (norm@, entity_type_label(t)),
        decreases kept.len() - j,
    {
        assert(ks[j as int] == kept@[j as int]@);
        if same_text(norms[j].as_str(), norm) && same_text(kept[j].entity_type.as_str(), t.as_str()) {
            assert(dedup_key_of(ks[j as int]) == (norm@, entity_type_label(t)));
            return true;
        }
        j += 1;
    }
    false
}

fn record_span_exec(text: &str, value: &str, start: Option<usize>, end: Option<usize>) -> (r: (usize, usize))
    ensures
        (r.0 as int, r.1 as int) == record_span(text@, value@, start, end),
{
    match (start, end) {
        (Some(s), Some(e)) => {
            if e >= s {
                return (s, e);
            }
        },
        _ => {},
    }
    match find_entity_span(text, value) {
        Some(p) => p,
        None => (0, 0),
    }
}

/// The entities of a model's reply (decoded into records), placed in the text,
/// filtered against the manual entities and deduplicated, ordered by start offset.
pub fn openrouter_entities_from_records(
    text: &str,
    protected_entities: &Vec<Entity>,
    records: &Vec<LlmEntityRecord>,
    model_name: &str,
) -> (r: Vec<Entity>)
    ensures
        entity_views(r@) == llm_entities(
            text@,
            entity_views(protected_entities@),
            record_views(records@),
            model_name@,
        ),
{
    let ghost rs = record_views(records@);
    let ghost ps = entity_views(protected_entities@);
    let mut kept: Vec<Entity> = Vec::new();
    let mut norms: Vec<String> = Vec::new();
    let mut i: usize = 0;
    while i < records.len()
        invariant
            rs == record_views(records@),
            ps == entity_views(protected_entities@),
            i <= records.len(),
            kept.len() == norms.len(),
            forall|j: int| 0 <= j < kept.len() ==> (#[trigger] norms@[j])@ == normalized_value(kept@[j].value@),
            entity_views(kept@) == llm_entities_fold(text@, ps, rs.take(i as int), model_name@),
        decreases records.len() - i,
    {
        proof {
            assert(rs.take(i + 1).drop_last() =~= rs.take(i as int));
            assert(rs.take(i + 1).last() == rs[i as int]);
        }
        let rec = &records[i];
        let value = sanitize_entity_value(rec.value.as_str());
        if value.as_str().unicode_len() > 0 {
            match parse_openrouter_entity_type(rec.entity_type.as_str()) {
                None => {},
                Some(t) => {
                    let (st, en) = record_span_exec(text, value.as_str(), rec.start_offset, rec.end_offset);
                    let confidence = match rec.confidence {
                        Some(v) => if v <= CONFIDENCE_SCALE {
                            v
                        } else {
                            CONFIDENCE_SCALE
                        },
                        None => 9500,
                    };
                    let entity = Entity {
                        entity_type: t,
                        value,
                        start_offset: st,
                        end_offset: en,
                        confidence,
                        source: EntitySource::Llm,
                        model_name: Some(String::from_str(model_name)),
                    };
                    assert(entity@ == record_entity(text@, rs[i as int], t, model_name@));
                    let norm = normalize_entity_value(entity.value.as_str());
                    if !is_suppressed_by_protected(&entity, protected_entities) && !has_key_exec(
                        &kept,
                        &norms,
                        norm.as_str(),
                        t,
                    ) {
                        let ghost before = entity_views(kept@);
                        kept.push(entity);
                        norms.push(norm);
                        assert(entity_views(kept@) =~= before.push(
                            record_entity(text@, rs[i as int], t, model_name@),
                        ));
                    }
                },
            }
        }
        i += 1;
    }
    assert(rs.take(records.len() as int) =~= rs);
    sort_entities(kept, false)
}

// ── Review of candidate entities ─────────────────────────────────────────────

/// The model that reviews candidate entities.
pub const REVIEW_MODEL_NAME: &'static str = "gemma-4-E2B-it-Q4_K_M";

/// One reviewed entity (after JSON decoding); the confidence is on the
/// `CONFIDENCE_SCALE`.
pub struct ReviewedRecord {
    pub value: String,
    pub entity_type: String,
    pub confidence: Option<u32>,
}

pub struct ReviewedView {
    pub value: Seq<char>,
    pub entity_type: Seq<char>,
    pub confidence: Option<u32>,
}

impl View for ReviewedRecord {
    type V = ReviewedView;

    open spec fn view(&self) -> ReviewedView {
        ReviewedView { value: self.value@, entity_type: self.entity_type@, confidence: self.confidence }
    }
}

pub open spec fn reviewed_views(s: Seq<ReviewedRecord>) -> Seq<ReviewedView> {
    s.map_values(|r: ReviewedRecord| r@)
}

/// The first candidate of the same family with the same normalized value.
pub open spec fn first_match(cands: Seq<EntityView>, t: EntityType, v: Seq<char>) -> Option<int>
    decreases cands.len(),
{
    if cands.len() == 0 {
        None
    } else {
        match first_match(cands.drop_last(), t, v) {
            Some(i) => Some(i),
            None => if same_family(cands.last().entity_type, t) && normalized_value(
                cands.last().value,
            ) == normalized_value(v) {
                Some(cands.len() - 1)
            } else {
                None
            },
        }
    }
}

/// The entity for a reviewed record: the span (and at least the confidence) of
/// a matching candidate, else where its value occurs in the text, else `(0, 0)`.
pub open spec fn reviewed_entity(
    text: Seq<char>,
    cands: Seq<EntityView>,
    r: ReviewedView,
    t: EntityType,
) -> EntityView {
    let value = sanitized(r.value);
    let c = record_confidence(r.confidence);
    let base = EntityView {
        entity_type: t,
        value,
        start_offset: 0,
        end_offset: 0,
        confidence: c,
        source: EntitySource::Llm,
        model_name: Some(REVIEW_MODEL_NAME@),
    };
    match first_match(cands, t, value) {
        Some(k) => EntityView {
            start_offset: cands[k].start_offset,
            end_offset: cands[k].end_offset,
            confidence: if c >= cands[k].confidence {
                c
            } else {
                cands[k].confidence
            },
            ..base
        },
        None => match entity_span(text, value) {
            Some(p) => EntityView { start_offset: p.0 as usize, end_offset: p.1 as usize, ..base },
            None => base,
        },
    }
}

/// The reviewed entities in reply order: records with an empty value or an
/// unknown type are dropped, as are those a manual entity overrides and
/// repeats of an earlier (value, type) key.
pub open spec fn reviewed_fold(
    text: Seq<char>,
    cands: Seq<EntityView>,
    protected: Seq<EntityView>,
    records: Seq<ReviewedView>,
) -> Seq<EntityView>
    decreases records.len(),
{
    if records.len() == 0 {
        Seq::empty()
    } else {
        let kept = reviewed_fold(text, cands, protected, records.drop_last());
        let r = records.last();
        if sanitized(r.value).len() == 0 {
            kept
        } else {
            match alias_type_for(r.entity_type) {
                None => kept,
                Some(t) => {
                    let e = reviewed_entity(text, cands, r, t);
                    if suppressed_by(e, protected) || has_key(kept, dedup_key_of(e)) {
                        kept
                    } else {
                        kept.push(e)
                    }
                },
            }
        }
    }
}

proof fn lemma_first_match(cands: Seq<EntityView>, t: EntityType, v: Seq<char>)
    ensures
        first_match(cands, t, v) matches Some(i) ==> 0 <= i < cands.len(),
    decreases cands.len(),
{
    if cands.len() > 0 {
        lemma_first_match(cands.drop_last(), t, v);
    }
}

fn first_match_exec(cands: &Vec<Entity>, t: EntityType, v: &str) -> (r: Option<usize>)
    ensures
        match r {
            Some(k) => first_match(entity_views(cands@), t, v@) == Some(k as int),
            None => first_match(entity_views(cands@), t, v@) is None,
        },
{
    let ghost cs = entity_views(cands@);
    let nv = normalize_entity_value(v);
    let mut k: usize = 0;
    while k < cands.len()
        invariant
            cs == entity_views(cands@),
            k <= cands.len(),
            nv@ == normalized_value(v@),
            first_match(cs.take(k as int), t, v@) is None,
        decreases cands.len() - k,
    {
        proof {
            assert(cs.take(k + 1).drop_last() =~= cs.take(k as int));
            assert(cs.take(k + 1).last() == cs[k as int]);
        }
        let c = &cands[k];
        if same_entity_family(&c.entity_type, &t) {
            let cn = normalize_entity_value(c.value.as_str());
            if same_text(cn.as_str(), nv.as_str()) {
                proof {
                    lemma_first_match_prefix(cs, t, v@, k as int);
                }
                return Some(k);
            }
        }
        k += 1;
    }
    assert(cs.take(cands.len() as int) =~= cs);
    None
}

proof fn lemma_first_match_prefix(cs: Seq<EntityView>, t: EntityType, v: Seq<char>, k: int)
    requires
        0 <= k < cs.len(),
        first_match(cs.take(k), t, v) is None,
        first_match(cs.take(k + 1), t, v) == Some(k),
    ensures
        first_match(cs, t, v) == Some(k),
    decreases cs.len() - k,
{
    if cs.len() > k + 1 {
        let shorter = cs.drop_last();
        assert(shorter.take(k) =~= cs.take(k));
        assert(shorter.take(k + 1) =~= cs.take(k + 1));
        lemma_first_match_prefix(shorter, t, v, k);
    } else {
        assert(cs.take(k + 1) =~= cs);
    }
}

/// Applies a model's review of candidate entities (decoded into records):
/// each reviewed entity takes the span of a matching candidate when there is
/// one, else is placed in the text; manual entities prevail and repeated keys
/// are dropped. The order of the review is kept.
pub fn review_entities_from_records(
    text: &str,
    candidate_entities: &Vec<Entity>,
    protected_entities: &Vec<Entity>,
    records: &Vec<ReviewedRecord>,
) -> (r: Vec<Entity>)
    ensures
        entity_views(r@) == reviewed_fold(
            text@,
            entity_views(candidate_entities@),
            entity_views(protected_entities@),
            reviewed_views(records@),
        ),
{
    let ghost rs = reviewed_views(records@);
    let ghost cs = entity_views(candidate_entities@);
    let ghost ps = entity_views(protected_entities@);
    let mut kept: Vec<Entity> = Vec::new();
    let mut norms: Vec<String> = Vec::new();
    let mut i: usize = 0;
    while i < records.len()
        invariant
            rs == reviewed_views(records@),
            cs == entity_views(candidate_entities@),
            ps == entity_views(protected_entities@),
            i <= records.len(),
            kept.len() == norms.len(),
            forall|j: int| 0 <= j < kept.len() ==> (#[trigger] norms@[j])@ == normalized_value(kept@[j].value@),
            entity_views(kept@) == reviewed_fold(text@, cs, ps, rs.take(i as int)),
        decreases records.len() - i,
    {
        proof {
            assert(rs.take(i + 1).drop_last() =~= rs.take(i as int));
            assert(rs.take(i + 1).last() == rs[i as int]);
        }
        let rec = &records[i];
        let value = sanitize_entity_value(rec.value.as_str());
        if value.as_str().unicode_len() > 0 {
            match parse_entity_type_alias(rec.entity_type.as_str()) {
                None => {},
                Some(t) => {
                    let c = match rec.confidence {
                        Some(v) => if v <= CONFIDENCE_SCALE {
                            v
                        } else {
                            CONFIDENCE_SCALE
                        },
                        None => 9500,
                    };
                    let (st, en, conf) = match first_match_exec(candidate_entities, t, value.as_str()) {
                        Some(k) => {
                            proof {
                                lemma_first_match(cs, t, value@);
                            }
                            let ex = &candidate_entities[k];
                            assert(cs[k as int] == ex@);
                            (ex.start_offset, ex.end_offset, if c >= ex.confidence {
                                c
                            } else {
                                ex.confidence
                            })
                        },
                        None => match find_entity_span(text, value.as_str()) {
                            Some(p) => (p.0, p.1, c),
                            None => (0, 0, c),
                        },
                    };
                    let entity = Entity {
                        entity_type: t,
                        value,
                        start_offset: st,
                        end_offset: en,
                        confidence: conf,
                        source: EntitySource::Llm,
                        model_name: Some(String::from_str(REVIEW_MODEL_NAME)),
                    };
                    assert(entity@ == reviewed_entity(text@, cs, rs[i as int], t));
                    let norm = normalize_entity_value(entity.value.as_str());
                    if !is_suppressed_by_protected(&entity, protected_entities) && !has_key_exec(
                        &kept,
                        &norms,
                        norm.as_str(),
                        t,
                    ) {
                        let ghost before = entity_views(kept@);
                        kept.push(entity);
                        norms.push(norm);
                        assert(entity_views(kept@) =~= before.push(
                            reviewed_entity(text@, cs, rs[i as int], t),
                        ));
                    }
                },
            }
        }
        i += 1;
    }
    assert(rs.take(records.len() as int) =~= rs);
    kept
}

/// Manual entities always prevail: no entity taken from a model's reply is
/// overridden by a manual entity.
pub proof fn law_llm_entities_respect_protected(
    text: Seq<char>,
    protected: Seq<EntityView>,
    records: Seq<LlmRecordView>,
    model: Seq<char>,
)
    ensures
        forall|i: int|
            0 <= i < llm_entities_fold(text, protected, records, model).len() ==> !suppressed_by(
                #[trigger] llm_entities_fold(text, protected, records, model)[i],
                protected,
            ),
    decreases records.len(),
{
    if records.len() > 0 {
        law_llm_entities_respect_protected(text, protected, records.drop_last(), model);
        let kept = llm_entities_fold(text, protected, records.drop_last(), model);
        let out = llm_entities_fold(text, protected, records, model);
        assert forall|i: int| 0 <= i < out.len() implies !suppressed_by(#[trigger] out[i], protected) by {
            if i < kept.len() {
                assert(out[i] == kept[i]);
            }
        }
    }
}

/// No two entities taken from a model's reply share a (normalized value, type) key.
pub proof fn law_llm_entities_keys_unique(
    text: Seq<char>,
    protected: Seq<EntityView>,
    records: Seq<LlmRecordView>,
    model: Seq<char>,
)
    ensures
        forall|i: int, j: int|
            0 <= i < j < llm_entities_fold(text, protected, records, model).len() ==> dedup_key_of(
                #[trigger] llm_entities_fold(text, protected, records, model)[i],
            ) != dedup_key_of(#[trigger] llm_entities_fold(text, protected, records, model)[j]),
    decreases records.len(),
{
    if records.len() > 0 {
        law_llm_entities_keys_unique(text, protected, records.drop_last(), model);
        let kept = llm_entities_fold(text, protected, records.drop_last(), model);
        let out = llm_entities_fold(text, protected, records, model);
        assert forall|i: int, j: int| 0 <= i < j < out.len() implies dedup_key_of(
            #[trigger] out[i],
        ) != dedup_key_of(#[trigger] out[j]) by {
            if j == kept.len() {
                assert(out[i] == kept[i]);
                if dedup_key_of(out[i]) == dedup_key_of(out[j]) {
                    assert(has_key(kept, dedup_key_of(out[j])));
                }
            } else {
                assert(out[i] == kept[i]);
                assert(out[j] == kept[j]);
            }
        }
    }
}

} // verus!
