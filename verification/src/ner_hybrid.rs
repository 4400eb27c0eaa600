//! The hybrid NER routing and its final de-duplication.
//!
//! Person, organization and place entities come from the ONNX engine when it
//! found any, else from spaCy, else from the rule-based engine; dates only from
//! the rule-based engine; institutions from a merge of rule-based and ONNX
//! results; miscellaneous entities from ONNX, else spaCy. Duplicates of the same
//! family are then collapsed, keeping the more complete surface form.

use vstd::prelude::*;
use crate::ner_types::NerEngine;
use crate::chars::{char_is_alphanumeric, chars_of, is_alphanumeric, str_to_lowercase, string_from_chars, to_lowercase};
use crate::ner_merge::{abs_diff, merge_institutions, merged, span_len};
use crate::ner_types::{
    entity_views, sanitize_entity_value, sanitized, same_entity_family, same_family, Entity,
    EntityType, EntityView,
};
use crate::sort::{sort_by_keys, sort_by_keys_exec, SortKey};
use crate::text::{collapse_whitespace, collapse_ws, strip_bounds, slice_chars, trim, CharClass};

verus! {

/// Entity types for which the ONNX engine is the first choice.
pub const BERT_FIRST_TYPES: [EntityType; 3] = [
    EntityType::Person,
    EntityType::Organization,
    EntityType::Place,
];

pub open spec fn is_bert_first(t: EntityType) -> bool {
    t == EntityType::Person || t == EntityType::Organization || t == EntityType::Place
}

/// The comparison key used by de-duplication: sanitized, whitespace collapsed,
/// trimmed, lowercased.
pub open spec fn dedup_key(value: Seq<char>) -> Seq<char> {
    str_to_lowercase(trim(collapse_ws(sanitized(value))))
}

pub fn normalize_value(value: &str) -> (r: String)
    ensures
        r@ == dedup_key(value@),
{
    let s = sanitize_entity_value(value);
    let v = chars_of(s.as_str());
    let c = collapse_whitespace(&v);
    let (a, b) = strip_bounds(&c, CharClass::Whitespace);
    let t = slice_chars(&c, a, b);
    let joined = string_from_chars(&t);
    to_lowercase(joined.as_str())
}

pub open spec fn is_prefix_of(p: Seq<char>, s: Seq<char>) -> bool {
    p.len() <= s.len() && s.take(p.len() as int) == p
}

fn starts_with_chars(s: &Vec<char>, p: &Vec<char>) -> (r: bool)
    ensures
        r == is_prefix_of(p@, s@),
{
    if p.len() > s.len() {
        return false;
    }
    let mut i: usize = 0;
    while i < p.len()
        invariant
            p.len() <= s.len(),
            i <= p.len(),
            forall|k: int| 0 <= k < i ==> s@[k] == p@[k],
        decreases p.len() - i,
    {
        if s[i] != p[i] {
            assert(s@.take(p.len() as int)[i as int] != p@[i as int]);
            return false;
        }
        i += 1;
    }
    assert(s@.take(p.len() as int) =~= p@);
    true
}

pub open spec fn close_offsets(a: EntityView, b: EntityView, within: int) -> bool {
    abs_diff(a.start_offset as int, b.start_offset as int) <= within && abs_diff(
        a.end_offset as int,
        b.end_offset as int,
    ) <= within
}

/// Overlapping spans, or the same (or prefix-related) key with both offsets within 8.
pub open spec fn overlaps_or_near_duplicate_spec(a: EntityView, b: EntityView) -> bool {
    let an = dedup_key(a.value);
    let bn = dedup_key(b.value);
    (a.start_offset < b.end_offset && b.start_offset < a.end_offset) || (an == bn
        && close_offsets(a, b, 8)) || ((is_prefix_of(bn, an) || is_prefix_of(an, bn))
        && close_offsets(a, b, 8))
}

/// The same non-empty key.
pub open spec fn same_normalized_entity_spec(a: EntityView, b: EntityView) -> bool {
    let an = dedup_key(a.value);
    let bn = dedup_key(b.value);
    an.len() > 0 && bn.len() > 0 && an == bn
}

fn abs_diff_usize(a: usize, b: usize) -> (r: usize)
    ensures
        r == abs_diff(a as int, b as int),
{
    if a >= b {
        a - b
    } else {
        b - a
    }
}

fn overlaps_or_near_duplicate(a: &Entity, b: &Entity) -> (r: bool)
    ensures
        r == overlaps_or_near_duplicate_spec(a@, b@),
{
    if a.start_offset < b.end_offset && b.start_offset < a.end_offset {
        return true;
    }
    let an = normalize_value(a.value.as_str());
    let bn = normalize_value(b.value.as_str());
    let close = abs_diff_usize(a.start_offset, b.start_offset) <= 8 && abs_diff_usize(
        a.end_offset,
        b.end_offset,
    ) <= 8;
    if an == bn && close {
        return true;
    }
    let av = chars_of(an.as_str());
    let bv = chars_of(bn.as_str());
    if (starts_with_chars(&av, &bv) || starts_with_chars(&bv, &av)) && close {
        return true;
    }
    false
}

fn same_normalized_entity(a: &Entity, b: &Entity) -> (r: bool)
    ensures
        r == same_normalized_entity_spec(a@, b@),
{
    let an = normalize_value(a.value.as_str());
    let bn = normalize_value(b.value.as_str());
    if an.as_str().is_empty() || bn.as_str().is_empty() {
        return false;
    }
    an == bn
}

/// The number of alphanumeric characters in `s`.
pub open spec fn alnum_count(s: Seq<char>) -> nat
    decreases s.len(),
{
    if s.len() == 0 {
        0
    } else {
        alnum_count(s.drop_last()) + if char_is_alphanumeric(s.last()) {
            1nat
        } else {
            0nat
        }
    }
}

/// Completeness score of an entity: alphanumeric characters, plus span length,
/// plus 10 when confidence is at least 0.9, plus 5 when the value has a space.
pub open spec fn quality_score(e: EntityView) -> int {
    alnum_count(e.value) + view_span_len(e) + (if e.confidence >= 9000 {
        10int
    } else {
        0
    }) + (if e.value.contains(' ') {
        5int
    } else {
        0
    })
}

pub fn entity_quality_score(e: &Entity) -> (r: u128)
    ensures
        r == quality_score(e@),
{
    let v = chars_of(e.value.as_str());
    let mut count: u128 = 0;
    let mut has_space = false;
    let mut i: usize = 0;
    while i < v.len()
        invariant
            i <= v.len(),
            count == alnum_count(v@.take(i as int)),
            count <= i,
            has_space == v@.take(i as int).contains(' '),
        decreases v.len() - i,
    {
        proof {
            assert(v@.take(i + 1).drop_last() =~= v@.take(i as int));
        }
        if is_alphanumeric(v[i]) {
            count += 1;
        }
        if v[i] == ' ' {
            has_space = true;
        }
        proof {
            if !has_space {
                assert forall|k: int| 0 <= k < i + 1 implies #[trigger] v@.take(i + 1)[k] != ' ' by {
                    if k < i {
                        assert(v@.take(i + 1)[k] == v@.take(i as int)[k]);
                    }
                }
            } else if v[i as int] == ' ' {
                assert(v@.take(i + 1)[i as int] == ' ');
            } else {
                let k = choose|k: int| 0 <= k < i && v@.take(i as int)[k] == ' ';
                assert(v@.take(i + 1)[k] == ' ');
            }
        }
        i += 1;
    }
    assert(v@.take(v.len() as int) =~= v@);
    let mut score = count + span_len(e) as u128;
    if e.confidence >= 9000 {
        score += 10;
    }
    if has_space {
        score += 5;
    }
    score
}

pub open spec fn prefer_better_spec(a: EntityView, b: EntityView) -> EntityView {
    if quality_score(b) > quality_score(a) {
        b
    } else {
        a
    }
}

fn prefer_better_entity(a: Entity, b: Entity) -> (r: Entity)
    ensures
        r@ == prefer_better_spec(a@, b@),
        r == a || r == b,
{
    let sa = entity_quality_score(&a);
    let sb = entity_quality_score(&b);
    if sb > sa {
        b
    } else {
        a
    }
}

/// Whether `e` duplicates the kept entity `prev`.
pub open spec fn duplicates(prev: EntityView, e: EntityView) -> bool {
    same_family(prev.entity_type, e.entity_type) && (overlaps_or_near_duplicate_spec(prev, e)
        || same_normalized_entity_spec(prev, e))
}

/// The index of the first kept entity that `e` duplicates, or -1.
pub open spec fn first_duplicate(kept: Seq<EntityView>, e: EntityView) -> int
    decreases kept.len(),
{
    if kept.len() == 0 {
        -1
    } else if duplicates(kept[0], e) {
        0
    } else {
        let r = first_duplicate(kept.drop_first(), e);
        if r < 0 {
            -1
        } else {
            r + 1
        }
    }
}

proof fn lemma_first_duplicate(kept: Seq<EntityView>, e: EntityView, i: int)
    requires
        0 <= i <= kept.len(),
        forall|k: int| 0 <= k < i ==> !duplicates(#[trigger] kept[k], e),
        i == kept.len() || duplicates(kept[i], e),
    ensures
        first_duplicate(kept, e) == if i == kept.len() {
            -1
        } else {
            i
        },
    decreases i,
{
    if i > 0 {
        let d = kept.drop_first();
        assert forall|k: int| 0 <= k < i - 1 implies !duplicates(#[trigger] d[k], e) by {
            assert(d[k] == kept[k + 1]);
        }
        lemma_first_duplicate(d, e, i - 1);
        assert(!duplicates(kept[0], e));
    }
}

/// One de-duplication step: merge into the first duplicate, or keep as new.
pub open spec fn dedup_step(kept: Seq<EntityView>, e: EntityView) -> Seq<EntityView> {
    let k = first_duplicate(kept, e);
    if k >= 0 {
        kept.update(k, prefer_better_spec(kept[k], e))
    } else {
        kept.push(e)
    }
}

pub open spec fn dedup_fold(s: Seq<EntityView>) -> Seq<EntityView>
    decreases s.len(),
{
    if s.len() == 0 {
        seq![]
    } else {
        dedup_step(dedup_fold(s.drop_last()), s.last())
    }
}

pub open spec fn with_sanitized_value(e: EntityView) -> EntityView {
    EntityView { value: sanitized(e.value), ..e }
}

pub open spec fn view_span_len(e: EntityView) -> int {
    if e.end_offset >= e.start_offset {
        e.end_offset - e.start_offset
    } else {
        0
    }
}

pub open spec fn start_end_key(e: EntityView) -> SortKey {
    (e.start_offset as i128, e.end_offset as i128, 0)
}

pub open spec fn start_key(e: EntityView) -> SortKey {
    (e.start_offset as i128, 0, 0)
}


pub open spec fn sanitize_views(s: Seq<EntityView>) -> Seq<EntityView> {
    s.map_values(|e: EntityView| with_sanitized_value(e))
}

/// The result of `dedup_entities`: values sanitized, entities ordered by
/// `(start, end)`, then each one merged into the first kept duplicate.
pub open spec fn deduplicated(s: Seq<EntityView>) -> Seq<EntityView> {
    if s.len() == 0 {
        s
    } else {
        let c = sanitize_views(s);
        dedup_fold(sort_by_keys(c.map_values(|e: EntityView| start_end_key(e)), c))
    }
}

/// Entity views sorted by start offset (stable).
pub open spec fn sorted_by_start(s: Seq<EntityView>) -> Seq<EntityView> {
    sort_by_keys(s.map_values(|e: EntityView| start_key(e)), s)
}

/// Sorts entities by the given key function (`StartEnd` or `Start`), stably.
pub fn sort_entities(items: Vec<Entity>, by_end: bool) -> (r: Vec<Entity>)
    ensures
        by_end ==> entity_views(r@) == sort_by_keys(
            entity_views(items@).map_values(|e: EntityView| start_end_key(e)),
            entity_views(items@),
        ),
        !by_end ==> entity_views(r@) == sorted_by_start(entity_views(items@)),
{
    let ghost kf = if by_end {
        |e: EntityView| start_end_key(e)
    } else {
        |e: EntityView| start_key(e)
    };
    let mut keys: Vec<SortKey> = Vec::new();
    let mut i: usize = 0;
    while i < items.len()
        invariant
            i <= items.len(),
            kf == (if by_end {
                |e: EntityView| start_end_key(e)
            } else {
                |e: EntityView| start_key(e)
            }),
            keys@ == entity_views(items@).take(i as int).map_values(kf),
        decreases items.len() - i,
    {
        let e = &items[i];
        if by_end {
            keys.push((e.start_offset as i128, e.end_offset as i128, 0));
        } else {
            keys.push((e.start_offset as i128, 0, 0));
        }
        i += 1;
        assert(keys@ =~= entity_views(items@).take(i as int).map_values(kf));
    }
    assert(entity_views(items@).take(items.len() as int) =~= entity_views(items@));
    let ghost keys_v = keys@;
    let ghost items_v = items@;
    let r = sort_by_keys_exec(keys, items);
    proof {
        let f = |e: Entity| e@;
        crate::sort::lemma_sort_map(keys_v, items_v, f);
        assert(entity_views(items_v) =~= items_v.map_values(f));
        assert(entity_views(r@) =~= r@.map_values(f));
    }
    r
}

/// Removes duplicate entities: technical near-duplicates (overlapping or close
/// spans with the same or prefix-related key) and repeated mentions of the same
/// normalized value anywhere, within one entity family. The more complete
/// surface form is kept.
pub fn dedup_entities(entities: Vec<Entity>) -> (r: Vec<Entity>)
    ensures
        entity_views(r@) == deduplicated(entity_views(entities@)),
{
    if entities.len() == 0 {
        return entities;
    }
    let ghost input = entity_views(entities@);
    let mut cleaned: Vec<Entity> = Vec::new();
    let mut i: usize = 0;
    while i < entities.len()
        invariant
            i <= entities.len(),
            input == entity_views(entities@),
            cleaned.len() == i,
            entity_views(cleaned@) == sanitize_views(input.take(i as int)),
        decreases entities.len() - i,
    {
        let e = &entities[i];
        let v = sanitize_entity_value(e.value.as_str());
        let c = Entity {
            entity_type: e.entity_type,
            value: v,
            start_offset: e.start_offset,
            end_offset: e.end_offset,
            confidence: e.confidence,
            source: e.source,
            model_name: match &e.model_name {
                Some(m) => Some(m.clone()),
                None => None,
            },
        };
        assert(c@ == with_sanitized_value(input[i as int]));
        let ghost old_cleaned = cleaned@;
        cleaned.push(c);
        proof {
            assert forall|j: int| 0 <= j < i + 1 implies #[trigger] entity_views(cleaned@)[j]
                == sanitize_views(input.take(i + 1))[j] by {
                if j < i {
                    assert(cleaned@[j] == old_cleaned[j]);
                    assert(entity_views(old_cleaned)[j] == sanitize_views(input.take(i as int))[j]);
                }
            }
        }
        i += 1;
        assert(entity_views(cleaned@) =~= sanitize_views(input.take(i as int)));
    }
    assert(input.take(entities.len() as int) =~= input);
    let sorted = sort_entities(cleaned, true);
    let ghost srt = entity_views(sorted@);
    let mut remaining = sorted;
    let mut kept: Vec<Entity> = Vec::new();
    let ghost mut done: int = 0;
    while remaining.len() > 0
        invariant
            0 <= done <= srt.len(),
            remaining.len() == srt.len() - done,
            entity_views(remaining@) == srt.skip(done),
            entity_views(kept@) == dedup_fold(srt.take(done)),
        decreases remaining.len(),
    {
        let ghost before = remaining@;
        let e = remaining.remove(0);
        proof {
            assert forall|j: int| 0 <= j < remaining.len() implies #[trigger] entity_views(remaining@)[j] == srt.skip(done + 1)[j] by {
                assert(remaining@[j] == before[j + 1]);
                assert(entity_views(before)[j + 1] == srt.skip(done)[j + 1]);
            }
            assert(srt.take(done + 1).drop_last() =~= srt.take(done));
            assert(entity_views(remaining@) =~= srt.skip(done + 1));
        }
        let ghost kv = entity_views(kept@);
        assert(e@ == srt[done]) by {
            assert(srt.skip(done)[0] == srt[done]);
        }
        let mut k: usize = 0;
        let mut found = false;
        while k < kept.len() && !found
            invariant
                k <= kept.len(),
                kv == entity_views(kept@),
                forall|q: int| 0 <= q < k ==> !duplicates(#[trigger] kv[q], e@),
                found ==> k < kept.len() && duplicates(kv[k as int], e@),
            decreases kept.len() - k + if found { 0int } else { 1 },
        {
            let p = &kept[k];
            if same_entity_family(&p.entity_type, &e.entity_type) && (overlaps_or_near_duplicate(
                p,
                &e,
            ) || same_normalized_entity(p, &e)) {
                found = true;
            } else {
                k += 1;
            }
        }
        proof {
            lemma_first_duplicate(kv, e@, k as int);
        }
        if found {
            let prev = kept.remove(k);
            let w = prefer_better_entity(prev, e);
            kept.insert(k, w);
            assert(entity_views(kept@) =~= kv.update(k as int, prefer_better_spec(kv[k as int], srt[done])));
        } else {
            kept.push(e);
            assert(entity_views(kept@) =~= kv.push(srt[done]));
        }
        proof {
            assert(srt.take(done + 1).last() == srt[done]);
            done = done + 1;
        }
    }
    assert(srt.take(done) =~= srt);
    kept
}


/// Which entities a routing filter keeps.
#[derive(Clone, Copy, PartialEq, Eq, Structural, Debug)]
pub enum TypeFilter {
    /// Person, organization or place.
    BertFirst,
    /// Exactly one entity type.
    Only(EntityType),
}

pub open spec fn passes(f: TypeFilter, t: EntityType) -> bool {
    match f {
        TypeFilter::BertFirst => is_bert_first(t),
        TypeFilter::Only(x) => t == x,
    }
}

/// The entities of `s` whose type passes `f`, in order.
pub open spec fn filter_type(s: Seq<Entity>, f: TypeFilter) -> Seq<Entity>
    decreases s.len(),
{
    if s.len() == 0 {
        seq![]
    } else {
        let r = filter_type(s.drop_last(), f);
        if passes(f, s.last().entity_type) {
            r.push(s.last())
        } else {
            r
        }
    }
}

pub fn filter_entities(s: &Vec<Entity>, f: TypeFilter) -> (r: Vec<Entity>)
    ensures
        r@ == filter_type(s@, f),
{
    let mut r: Vec<Entity> = Vec::new();
    let mut i: usize = 0;
    while i < s.len()
        invariant
            i <= s.len(),
            r@ == filter_type(s@.take(i as int), f),
        decreases s.len() - i,
    {
        proof {
            assert(s@.take(i + 1).drop_last() =~= s@.take(i as int));
        }
        let e = &s[i];
        let keep = match f {
            TypeFilter::BertFirst => e.entity_type == EntityType::Person || e.entity_type
                == EntityType::Organization || e.entity_type == EntityType::Place,
            TypeFilter::Only(x) => e.entity_type == x,
        };
        if keep {
            r.push(e.duplicate());
        }
        i += 1;
    }
    assert(s@.take(s.len() as int) =~= s@);
    r
}

/// Person/organization/place entities: ONNX if it found any, else spaCy if it
/// found any, else rule-based.
pub open spec fn routed_core(rule: Seq<Entity>, onnx: Seq<Entity>, spacy: Seq<Entity>) -> Seq<
    Entity,
> {
    let oc = filter_type(onnx, TypeFilter::BertFirst);
    let sc = filter_type(spacy, TypeFilter::BertFirst);
    if oc.len() > 0 {
        oc
    } else if sc.len() > 0 {
        sc
    } else {
        filter_type(rule, TypeFilter::BertFirst)
    }
}

/// Miscellaneous entities: ONNX if it found any, else spaCy.
pub open spec fn routed_misc(onnx: Seq<Entity>, spacy: Seq<Entity>) -> Seq<Entity> {
    let om = filter_type(onnx, TypeFilter::Only(EntityType::Misc));
    if om.len() > 0 {
        om
    } else {
        filter_type(spacy, TypeFilter::Only(EntityType::Misc))
    }
}

/// The candidates of the hybrid engine before de-duplication: core entities,
/// rule-based dates, merged institutions, miscellaneous entities.
pub open spec fn hybrid_candidates(rule: Seq<Entity>, onnx: Seq<Entity>, spacy: Seq<Entity>) -> Seq<
    Entity,
> {
    routed_core(rule, onnx, spacy) + filter_type(rule, TypeFilter::Only(EntityType::Date))
        + merged(
        filter_type(rule, TypeFilter::Only(EntityType::Institution)),
        filter_type(onnx, TypeFilter::Only(EntityType::Institution)),
    ) + routed_misc(onnx, spacy)
}

/// The hybrid engine's output for the given engine results.
pub open spec fn hybrid_result(rule: Seq<Entity>, onnx: Seq<Entity>, spacy: Seq<Entity>) -> Seq<
    EntityView,
> {
    sorted_by_start(deduplicated(entity_views(hybrid_candidates(rule, onnx, spacy))))
}

proof fn lemma_filter_concat(a: Seq<Entity>, b: Seq<Entity>, f: TypeFilter)
    ensures
        filter_type(a + b, f) == filter_type(a, f) + filter_type(b, f),
    decreases b.len(),
{
    if b.len() == 0 {
        assert(a + b =~= a);
        assert(filter_type(a, f) + filter_type(b, f) =~= filter_type(a, f));
    } else {
        lemma_filter_concat(a, b.drop_last(), f);
        assert((a + b).drop_last() =~= a + b.drop_last());
        assert((a + b).last() == b.last());
        if passes(f, b.last().entity_type) {
            assert(filter_type(a, f) + filter_type(b.drop_last(), f).push(b.last()) =~= (filter_type(
                a,
                f,
            ) + filter_type(b.drop_last(), f)).push(b.last()));
        }
    }
}

proof fn lemma_filter_passes(s: Seq<Entity>, f: TypeFilter)
    ensures
        forall|i: int|
            0 <= i < filter_type(s, f).len() ==> passes(f, (#[trigger] filter_type(s, f)[i]).entity_type),
    decreases s.len(),
{
    if s.len() > 0 {
        lemma_filter_passes(s.drop_last(), f);
    }
}

proof fn lemma_filter_all_pass(s: Seq<Entity>, f: TypeFilter)
    requires
        forall|i: int| 0 <= i < s.len() ==> passes(f, (#[trigger] s[i]).entity_type),
    ensures
        filter_type(s, f) == s,
    decreases s.len(),
{
    if s.len() > 0 {
        lemma_filter_all_pass(s.drop_last(), f);
        assert(s.drop_last().push(s.last()) =~= s);
    } else {
        assert(s =~= seq![]);
    }
}

proof fn lemma_filter_none_pass(s: Seq<Entity>, f: TypeFilter)
    requires
        forall|i: int| 0 <= i < s.len() ==> !passes(f, (#[trigger] s[i]).entity_type),
    ensures
        filter_type(s, f).len() == 0,
    decreases s.len(),
{
    if s.len() > 0 {
        lemma_filter_none_pass(s.drop_last(), f);
    }
}

/// ONNX is the primary engine for persons, organizations and places: when it
/// found any, those are exactly the hybrid candidates of these types; spaCy's
/// are used only when ONNX found none, and the rule-based ones only when
/// neither model found any. Dates, institutions and miscellaneous entities
/// never add to them.
pub proof fn law_onnx_primary_for_core_types(rule: Seq<Entity>, onnx: Seq<Entity>, spacy: Seq<Entity>)
    ensures
        filter_type(onnx, TypeFilter::BertFirst).len() > 0 ==> filter_type(
            hybrid_candidates(rule, onnx, spacy),
            TypeFilter::BertFirst,
        ) == filter_type(onnx, TypeFilter::BertFirst),
        filter_type(onnx, TypeFilter::BertFirst).len() == 0 && filter_type(
            spacy,
            TypeFilter::BertFirst,
        ).len() > 0 ==> filter_type(hybrid_candidates(rule, onnx, spacy), TypeFilter::BertFirst)
            == filter_type(spacy, TypeFilter::BertFirst),
        filter_type(onnx, TypeFilter::BertFirst).len() == 0 && filter_type(
            spacy,
            TypeFilter::BertFirst,
        ).len() == 0 ==> filter_type(hybrid_candidates(rule, onnx, spacy), TypeFilter::BertFirst)
            == filter_type(rule, TypeFilter::BertFirst),
{
    let bf = TypeFilter::BertFirst;
    let core = routed_core(rule, onnx, spacy);
    let dates = filter_type(rule, TypeFilter::Only(EntityType::Date));
    let ri = filter_type(rule, TypeFilter::Only(EntityType::Institution));
    let oi = filter_type(onnx, TypeFilter::Only(EntityType::Institution));
    let inst = merged(ri, oi);
    let misc = routed_misc(onnx, spacy);
    lemma_filter_passes(onnx, bf);
    lemma_filter_passes(spacy, bf);
    lemma_filter_passes(rule, bf);
    lemma_filter_all_pass(core, bf);
    lemma_filter_passes(rule, TypeFilter::Only(EntityType::Date));
    lemma_filter_none_pass(dates, bf);
    lemma_filter_passes(rule, TypeFilter::Only(EntityType::Institution));
    lemma_filter_passes(onnx, TypeFilter::Only(EntityType::Institution));
    crate::ner_merge::law_merged_from_inputs(ri, oi);
    assert forall|i: int| 0 <= i < inst.len() implies !passes(bf, (#[trigger] inst[i]).entity_type) by {
        let j = choose|j: int| 0 <= j < (ri + oi).len() && inst[i] == (ri + oi)[j];
        if j < ri.len() {
            assert((ri + oi)[j] == ri[j]);
        } else {
            assert((ri + oi)[j] == oi[j - ri.len()]);
        }
    }
    lemma_filter_none_pass(inst, bf);
    lemma_filter_passes(onnx, TypeFilter::Only(EntityType::Misc));
    lemma_filter_passes(spacy, TypeFilter::Only(EntityType::Misc));
    lemma_filter_none_pass(misc, bf);
    lemma_filter_concat(core, dates, bf);
    lemma_filter_concat(core + dates, inst, bf);
    lemma_filter_concat(core + dates + inst, misc, bf);
    assert(filter_type(hybrid_candidates(rule, onnx, spacy), bf) =~= filter_type(core, bf));
}


/// Dates come only from the rule-based engine, all of them; institutions are
/// exactly the merge of the rule-based and ONNX institutions; miscellaneous
/// entities come from ONNX when it found any, else from spaCy.
pub proof fn law_hybrid_routes_other_types(rule: Seq<Entity>, onnx: Seq<Entity>, spacy: Seq<Entity>)
    ensures
        filter_type(hybrid_candidates(rule, onnx, spacy), TypeFilter::Only(EntityType::Date))
            == filter_type(rule, TypeFilter::Only(EntityType::Date)),
        filter_type(hybrid_candidates(rule, onnx, spacy), TypeFilter::Only(EntityType::Institution))
            == merged(
            filter_type(rule, TypeFilter::Only(EntityType::Institution)),
            filter_type(onnx, TypeFilter::Only(EntityType::Institution)),
        ),
        filter_type(onnx, TypeFilter::Only(EntityType::Misc)).len() > 0 ==> filter_type(
            hybrid_candidates(rule, onnx, spacy),
            TypeFilter::Only(EntityType::Misc),
        ) == filter_type(onnx, TypeFilter::Only(EntityType::Misc)),
        filter_type(onnx, TypeFilter::Only(EntityType::Misc)).len() == 0 ==> filter_type(
            hybrid_candidates(rule, onnx, spacy),
            TypeFilter::Only(EntityType::Misc),
        ) == filter_type(spacy, TypeFilter::Only(EntityType::Misc)),
{
    let bf = TypeFilter::BertFirst;
    let fd = TypeFilter::Only(EntityType::Date);
    let fi = TypeFilter::Only(EntityType::Institution);
    let fm = TypeFilter::Only(EntityType::Misc);
    let core = routed_core(rule, onnx, spacy);
    let dates = filter_type(rule, fd);
    let ri = filter_type(rule, fi);
    let oi = filter_type(onnx, fi);
    let inst = merged(ri, oi);
    let misc = routed_misc(onnx, spacy);
    lemma_filter_passes(onnx, bf);
    lemma_filter_passes(spacy, bf);
    lemma_filter_passes(rule, bf);
    lemma_filter_passes(rule, fd);
    lemma_filter_passes(rule, fi);
    lemma_filter_passes(onnx, fi);
    lemma_filter_passes(onnx, fm);
    lemma_filter_passes(spacy, fm);
    crate::ner_merge::law_merged_from_inputs(ri, oi);
    assert forall|i: int| 0 <= i < inst.len() implies (#[trigger] inst[i]).entity_type
        == EntityType::Institution by {
        let j = choose|j: int| 0 <= j < (ri + oi).len() && inst[i] == (ri + oi)[j];
        if j < ri.len() {
            assert((ri + oi)[j] == ri[j]);
        } else {
            assert((ri + oi)[j] == oi[j - ri.len()]);
        }
    }
    lemma_filter_none_pass(core, fd);
    lemma_filter_none_pass(core, fi);
    lemma_filter_none_pass(core, fm);
    lemma_filter_all_pass(dates, fd);
    lemma_filter_none_pass(dates, fi);
    lemma_filter_none_pass(dates, fm);
    lemma_filter_none_pass(inst, fd);
    lemma_filter_all_pass(inst, fi);
    lemma_filter_none_pass(inst, fm);
    lemma_filter_none_pass(misc, fd);
    lemma_filter_none_pass(misc, fi);
    lemma_filter_all_pass(misc, fm);
    let f3 = seq![fd, fi, fm];
    assert forall|k: int| 0 <= k < 3 implies filter_type(hybrid_candidates(rule, onnx, spacy), #[trigger] f3[k])
        == filter_type(core, f3[k]) + filter_type(dates, f3[k]) + filter_type(inst, f3[k])
        + filter_type(misc, f3[k]) by {
        lemma_filter_concat(core, dates, f3[k]);
        lemma_filter_concat(core + dates, inst, f3[k]);
        lemma_filter_concat(core + dates + inst, misc, f3[k]);
    }
    assert(filter_type(hybrid_candidates(rule, onnx, spacy), f3[0]) =~= dates);
    assert(filter_type(hybrid_candidates(rule, onnx, spacy), f3[1]) =~= inst);
    assert(filter_type(hybrid_candidates(rule, onnx, spacy), f3[2]) =~= misc);
}

/// Routes the results of the three engines by entity type, removes duplicates,
/// and orders the result by start offset.
pub fn route_hybrid_entities(rule: Vec<Entity>, onnx: Vec<Entity>, spacy: Vec<Entity>) -> (r: Vec<
    Entity,
>)
    ensures
        entity_views(r@) == hybrid_result(rule@, onnx@, spacy@),
{
    let mut result: Vec<Entity> = Vec::new();
    let mut core = filter_entities(&onnx, TypeFilter::BertFirst);
    if core.len() == 0 {
        core = filter_entities(&spacy, TypeFilter::BertFirst);
        if core.len() == 0 {
            core = filter_entities(&rule, TypeFilter::BertFirst);
        }
    }
    result.append(&mut core);
    let mut dates = filter_entities(&rule, TypeFilter::Only(EntityType::Date));
    result.append(&mut dates);
    let rule_inst = filter_entities(&rule, TypeFilter::Only(EntityType::Institution));
    let onnx_inst = filter_entities(&onnx, TypeFilter::Only(EntityType::Institution));
    let mut inst = merge_institutions(rule_inst, onnx_inst);
    result.append(&mut inst);
    let mut misc = filter_entities(&onnx, TypeFilter::Only(EntityType::Misc));
    if misc.len() == 0 {
        misc = filter_entities(&spacy, TypeFilter::Only(EntityType::Misc));
    }
    result.append(&mut misc);
    assert(result@ =~= hybrid_candidates(rule@, onnx@, spacy@));
    let deduped = dedup_entities(result);
    sort_entities(deduped, false)
}

/// The hybrid engine: rule-based extraction with optional ONNX and spaCy
/// engines, routed by entity type (see `route_hybrid_entities`).
pub struct HybridNerEngine<'a> {
    rule_based: &'a crate::ner_rules::RuleBasedNerEngine,
    onnx: Option<&'a dyn NerEngine>,
    spacy: Option<&'a dyn NerEngine>,
}

impl<'a> HybridNerEngine<'a> {
    pub fn new(
        rule_based: &'a crate::ner_rules::RuleBasedNerEngine,
        onnx: Option<&'a dyn NerEngine>,
        spacy: Option<&'a dyn NerEngine>,
    ) -> (r: Self)
        ensures
            r.rule_based() == rule_based,
            r.has_onnx() == onnx.is_some(),
            r.has_spacy() == spacy.is_some(),
            r.onnx_engine() == onnx,
            r.spacy_engine() == spacy,
    {
        HybridNerEngine { rule_based, onnx, spacy }
    }

    pub closed spec fn rule_based(&self) -> &'a crate::ner_rules::RuleBasedNerEngine {
        self.rule_based
    }

    pub closed spec fn has_onnx(&self) -> bool {
        self.onnx.is_some()
    }

    pub closed spec fn has_spacy(&self) -> bool {
        self.spacy.is_some()
    }

    /// The optional ONNX engine.
    pub closed spec fn onnx_engine(&self) -> Option<&'a dyn NerEngine> {
        self.onnx
    }

    /// The optional spaCy engine.
    pub closed spec fn spacy_engine(&self) -> Option<&'a dyn NerEngine> {
        self.spacy
    }

    /// `out` is the routed result for the text for what the ONNX and spaCy
    /// engines contributed (see `engine_findings`).
    pub open spec fn hybrid_outcome(&self, out: Seq<Entity>, text: Seq<char>) -> bool {
        exists|onnx: Seq<Entity>, spacy: Seq<Entity>|
            engine_findings(self.onnx_engine(), text, onnx) && engine_findings(
                self.spacy_engine(),
                text,
                spacy,
            ) && #[trigger] hybrid_views_match(out, text, onnx, spacy)
    }

    /// Runs every available engine and routes their results; an engine that
    /// fails counts as having found nothing. Fails only when the rule-based
    /// patterns did not compile, with the rule-based engine's error unchanged.
    pub fn extract_hybrid(&self, text: &str) -> (r: Result<Vec<Entity>, String>)
        ensures
            r is Ok <==> crate::ner_rules::rule_patterns_compile(),
            r matches Err(e) ==> e@ == crate::ner_rules::RULE_PATTERNS_ERROR@,
            r matches Ok(v) ==> self.hybrid_outcome(v@, text@),
    {
        let rule = match self.rule_based.extract_rules(text) {
            Ok(v) => v,
            Err(e) => return Err(e),
        };
        let onnx = engine_contribution(self.onnx, text);
        let spacy = engine_contribution(self.spacy, text);
        let ghost onnx_v = onnx@;
        let ghost spacy_v = spacy@;
        let out = route_hybrid_entities(rule, onnx, spacy);
        assert(hybrid_views_match(out@, text@, onnx_v, spacy_v));
        assert(self.hybrid_outcome(out@, text@));
        Ok(out)
    }
}

/// `found` is what an optional engine contributes for `text`: nothing without
/// an engine; otherwise the entities of a result that the engine's `extract`
/// may give for the text, or nothing when that result is an error.
pub open spec fn engine_findings(engine: Option<&dyn NerEngine>, text: Seq<char>, found: Seq<Entity>) -> bool {
    match engine {
        None => found.len() == 0,
        Some(e) => exists|r: Result<Vec<Entity>, String>|
            #[trigger] e.extracted(text, r) && found == match r {
                Ok(v) => v@,
                Err(_) => Seq::<Entity>::empty(),
            },
    }
}

/// Runs an optional engine on the text; a missing or failing engine
/// contributes nothing.
fn engine_contribution(engine: Option<&dyn NerEngine>, text: &str) -> (r: Vec<Entity>)
    ensures
        engine_findings(engine, text@, r@),
{
    match engine {
        Some(e) => {
            let res = e.extract(text);
            match res {
                Ok(v) => v,
                Err(_) => Vec::new(),
            }
        },
        None => Vec::new(),
    }
}

/// The hybrid result for a text, given what the ONNX and spaCy engines found:
/// the rule-based entities of the text routed with them.
pub open spec fn hybrid_views_match(
    out: Seq<Entity>,
    text: Seq<char>,
    onnx: Seq<Entity>,
    spacy: Seq<Entity>,
) -> bool {
    exists|rule: Seq<Entity>|
        entity_views(rule) == crate::ner_rules::rule_based_entities(text) && entity_views(out)
            == hybrid_result(rule, onnx, spacy)
}

impl<'a> NerEngine for HybridNerEngine<'a> {
    /// The pattern error, or a routed result (see `extract_hybrid`).
    open spec fn extracted(&self, text: Seq<char>, r: Result<Vec<Entity>, String>) -> bool {
        &&& (r is Ok <==> crate::ner_rules::rule_patterns_compile())
        &&& (r matches Err(e) ==> e@ == crate::ner_rules::RULE_PATTERNS_ERROR@)
        &&& (r matches Ok(v) ==> self.hybrid_outcome(v@, text))
    }

    fn name(&self) -> (r: &'static str)
        ensures
            r@ == "hybrid"@,
    {
        "hybrid"
    }

    /// See `extract_hybrid`.
    fn extract(&self, text: &str) -> (r: Result<Vec<Entity>, String>)
        ensures
            r is Ok <==> crate::ner_rules::rule_patterns_compile(),
            r matches Err(e) ==> e@ == crate::ner_rules::RULE_PATTERNS_ERROR@,
            r matches Ok(v) ==> self.hybrid_outcome(v@, text@),
    {
        self.extract_hybrid(text)
    }
}

} // verus!
