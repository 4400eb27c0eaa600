//! Merging entity lists from the rule-based and ONNX engines.
//!
//! Entities are ordered by `(start, end, source rank)`; each one either joins
//! the previous kept entity (when the two are related) and the better of the
//! two is kept, or starts a new entry.

use vstd::prelude::*;
use crate::ner_types::{
    normalize_entity_value, normalized_value, same_family, spans_overlap, Entity, EntitySource,
    EntityType,
};
use crate::sort::{sort_by_keys, sort_by_keys_exec, SortKey};

verus! {

/// How much more confident an ONNX person/place/organization must be to replace
/// an overlapping rule-based match of the same family (0.05 on the confidence scale).
pub const CORE_ONNX_BONUS_THRESHOLD: u32 = 500;

pub open spec fn source_rank_spec(s: EntitySource) -> u8 {
    match s {
        EntitySource::RuleBased => 1,
        EntitySource::Onnx => 2,
        EntitySource::Spacy => 3,
        EntitySource::Llm => 4,
    }
}

pub fn source_rank(s: &EntitySource) -> (r: u8)
    ensures
        r == source_rank_spec(*s),
{
    match s {
        EntitySource::RuleBased => 1,
        EntitySource::Onnx => 2,
        EntitySource::Spacy => 3,
        EntitySource::Llm => 4,
    }
}

pub open spec fn type_specificity_spec(t: EntityType) -> u8 {
    match t {
        EntityType::Institution => 5,
        EntityType::Date => 4,
        EntityType::Person => 3,
        EntityType::Place => 3,
        EntityType::Organization => 2,
        EntityType::Misc => 1,
    }
}

pub fn type_specificity_rank(t: &EntityType) -> (r: u8)
    ensures
        r == type_specificity_spec(*t),
{
    match t {
        EntityType::Institution => 5,
        EntityType::Date => 4,
        EntityType::Person => 3,
        EntityType::Place => 3,
        EntityType::Organization => 2,
        EntityType::Misc => 1,
    }
}

/// Whether two entity types are the same core family (person, place, or
/// organization/institution).
pub open spec fn same_core_family(a: EntityType, b: EntityType) -> bool {
    match (a, b) {
        (EntityType::Person, EntityType::Person) => true,
        (EntityType::Place, EntityType::Place) => true,
        (EntityType::Organization, EntityType::Organization) => true,
        (EntityType::Institution, EntityType::Institution) => true,
        (EntityType::Organization, EntityType::Institution) => true,
        (EntityType::Institution, EntityType::Organization) => true,
        _ => false,
    }
}

pub fn same_core_entity_family(a: &EntityType, b: &EntityType) -> (r: bool)
    ensures
        r == same_core_family(*a, *b),
{
    match (a, b) {
        (EntityType::Person, EntityType::Person) => true,
        (EntityType::Place, EntityType::Place) => true,
        (EntityType::Organization, EntityType::Organization) => true,
        (EntityType::Institution, EntityType::Institution) => true,
        (EntityType::Organization, EntityType::Institution) => true,
        (EntityType::Institution, EntityType::Organization) => true,
        _ => false,
    }
}

pub open spec fn span_len_spec(e: Entity) -> int {
    if e.end_offset >= e.start_offset {
        e.end_offset - e.start_offset
    } else {
        0
    }
}

pub open spec fn is_rule_based_date(e: Entity) -> bool {
    e.entity_type == EntityType::Date && e.source == EntitySource::RuleBased
}

pub open spec fn is_rule_based_institution_like(winner: Entity, loser: Entity) -> bool {
    winner.source == EntitySource::RuleBased && winner.entity_type == EntityType::Institution
        && (loser.entity_type == EntityType::Institution || loser.entity_type
        == EntityType::Organization)
}

/// Whether an ONNX `candidate` of a core type should replace `existing`: the
/// existing entity is neither ONNX nor spaCy, the families agree, and the
/// candidate is at least `CORE_ONNX_BONUS_THRESHOLD` more confident.
pub open spec fn prefer_onnx_core(existing: Entity, candidate: Entity) -> bool {
    candidate.source == EntitySource::Onnx && existing.source != EntitySource::Onnx
        && existing.source != EntitySource::Spacy && (candidate.entity_type == EntityType::Person
        || candidate.entity_type == EntityType::Place || candidate.entity_type
        == EntityType::Organization || candidate.entity_type == EntityType::Institution)
        && same_core_family(existing.entity_type, candidate.entity_type) && candidate.confidence
        >= existing.confidence + CORE_ONNX_BONUS_THRESHOLD
}

/// Whether `b` wins over `a` when two related entities are merged.
pub open spec fn second_wins(a: Entity, b: Entity) -> bool {
    if is_rule_based_date(a) {
        false
    } else if is_rule_based_date(b) {
        true
    } else if prefer_onnx_core(a, b) {
        true
    } else if prefer_onnx_core(b, a) {
        false
    } else if is_rule_based_institution_like(a, b) {
        false
    } else if is_rule_based_institution_like(b, a) {
        true
    } else if type_specificity_spec(b.entity_type) > type_specificity_spec(a.entity_type) {
        true
    } else if type_specificity_spec(a.entity_type) > type_specificity_spec(b.entity_type) {
        false
    } else if span_len_spec(b) > span_len_spec(a) && b.confidence >= a.confidence {
        true
    } else if span_len_spec(a) > span_len_spec(b) && a.confidence >= b.confidence {
        false
    } else if b.confidence > a.confidence {
        true
    } else if a.confidence > b.confidence {
        false
    } else {
        source_rank_spec(b.source) > source_rank_spec(a.source)
    }
}

pub open spec fn pick_winner_spec(a: Entity, b: Entity) -> Entity {
    if second_wins(a, b) {
        b
    } else {
        a
    }
}

/// Whether two entities carry the same value at nearly the same place (both
/// offsets within 2), or the same value with the same type.
pub open spec fn exactish_duplicate_spec(a: Entity, b: Entity) -> bool {
    normalized_value(a.value@) == normalized_value(b.value@) && ((abs_diff(
        a.start_offset as int,
        b.start_offset as int,
    ) <= 2 && abs_diff(a.end_offset as int, b.end_offset as int) <= 2) || a.entity_type
        == b.entity_type)
}

pub open spec fn abs_diff(a: int, b: int) -> int {
    if a >= b {
        a - b
    } else {
        b - a
    }
}

pub open spec fn related_spec(a: Entity, b: Entity) -> bool {
    spans_overlap(a, b) || exactish_duplicate_spec(a, b)
}

pub fn span_len(e: &Entity) -> (r: usize)
    ensures
        r == span_len_spec(*e),
{
    e.end_offset.saturating_sub(e.start_offset)
}

fn prefer_onnx_core_entity(existing: &Entity, candidate: &Entity) -> (r: bool)
    ensures
        r == prefer_onnx_core(*existing, *candidate),
{
    candidate.source == EntitySource::Onnx && existing.source != EntitySource::Onnx
        && existing.source != EntitySource::Spacy && (candidate.entity_type == EntityType::Person
        || candidate.entity_type == EntityType::Place || candidate.entity_type
        == EntityType::Organization || candidate.entity_type == EntityType::Institution)
        && same_core_entity_family(&existing.entity_type, &candidate.entity_type)
        && candidate.confidence as u64 >= existing.confidence as u64
        + CORE_ONNX_BONUS_THRESHOLD as u64
}

fn is_rb_date(e: &Entity) -> (r: bool)
    ensures
        r == is_rule_based_date(*e),
{
    e.entity_type == EntityType::Date && e.source == EntitySource::RuleBased
}

fn is_rb_institution_like(winner: &Entity, loser: &Entity) -> (r: bool)
    ensures
        r == is_rule_based_institution_like(*winner, *loser),
{
    winner.source == EntitySource::RuleBased && winner.entity_type == EntityType::Institution
        && (loser.entity_type == EntityType::Institution || loser.entity_type
        == EntityType::Organization)
}

/// Chooses between two related entities: rule-based dates first, then a clearly
/// more confident ONNX core entity, then rule-based institutions, then type
/// specificity, span length, confidence and source rank.
pub fn pick_winner(a: Entity, b: Entity) -> (r: Entity)
    ensures
        r == pick_winner_spec(a, b),
{
    if is_rb_date(&a) {
        return a;
    }
    if is_rb_date(&b) {
        return b;
    }
    if prefer_onnx_core_entity(&a, &b) {
        return b;
    }
    if prefer_onnx_core_entity(&b, &a) {
        return a;
    }
    if is_rb_institution_like(&a, &b) {
        return a;
    }
    if is_rb_institution_like(&b, &a) {
        return b;
    }
    let ta = type_specificity_rank(&a.entity_type);
    let tb = type_specificity_rank(&b.entity_type);
    if tb > ta {
        return b;
    }
    if ta > tb {
        return a;
    }
    let la = span_len(&a);
    let lb = span_len(&b);
    if lb > la && b.confidence >= a.confidence {
        return b;
    }
    if la > lb && a.confidence >= b.confidence {
        return a;
    }
    if b.confidence > a.confidence {
        return b;
    }
    if a.confidence > b.confidence {
        return a;
    }
    if source_rank(&b.source) > source_rank(&a.source) {
        return b;
    }
    a
}

fn abs_diff_usize(a: usize, b: usize) -> (r: usize)
    ensures
        r == abs_diff(a as int, b as int),
{
    if a >= b {
        a - b
    } else {
        b - a
    }
}

fn exactish_duplicate(a: &Entity, b: &Entity) -> (r: bool)
    ensures
        r == exactish_duplicate_spec(*a, *b),
{
    let same_value = normalize_entity_value(a.value.as_str()) == normalize_entity_value(
        b.value.as_str(),
    );
    let close_offsets = abs_diff_usize(a.start_offset, b.start_offset) <= 2 && abs_diff_usize(
        a.end_offset,
        b.end_offset,
    ) <= 2;
    same_value && (close_offsets || a.entity_type == b.entity_type)
}

fn related(a: &Entity, b: &Entity) -> (r: bool)
    ensures
        r == related_spec(*a, *b),
{
    (a.start_offset < b.end_offset && b.start_offset < a.end_offset) || exactish_duplicate(a, b)
}

/// The sort key of the merge: `(start, end, source rank)`.
pub open spec fn merge_key(e: Entity) -> SortKey {
    (e.start_offset as i128, e.end_offset as i128, source_rank_spec(e.source) as i128)
}

pub open spec fn merge_keys(s: Seq<Entity>) -> Seq<SortKey> {
    s.map_values(|e: Entity| merge_key(e))
}

/// The left-to-right merge of an ordered entity list.
pub open spec fn merge_fold(s: Seq<Entity>) -> Seq<Entity>
    decreases s.len(),
{
    if s.len() == 0 {
        seq![]
    } else {
        let m = merge_fold(s.drop_last());
        let c = s.last();
        if m.len() > 0 && related_spec(m.last(), c) {
            m.update(m.len() - 1, pick_winner_spec(m.last(), c))
        } else {
            m.push(c)
        }
    }
}

/// The result of `merge_entities(rule_based, onnx)`.
pub open spec fn merged(rule_based: Seq<Entity>, onnx: Seq<Entity>) -> Seq<Entity> {
    merge_fold(sort_by_keys(merge_keys(rule_based + onnx), rule_based + onnx))
}

/// Merges entities from two sources, resolving related (overlapping or
/// near-identical) entities by `pick_winner`.
pub fn merge_entities(rule_based: Vec<Entity>, onnx: Vec<Entity>) -> (r: Vec<Entity>)
    ensures
        r@ == merged(rule_based@, onnx@),
{
    let ghost all_in = rule_based@ + onnx@;
    let mut all = rule_based;
    let mut onnx = onnx;
    all.append(&mut onnx);
    assert(all@ == all_in);
    let mut keys: Vec<SortKey> = Vec::new();
    let mut i: usize = 0;
    while i < all.len()
        invariant
            i <= all.len(),
            keys@ == merge_keys(all@.take(i as int)),
        decreases all.len() - i,
    {
        let e = &all[i];
        keys.push((e.start_offset as i128, e.end_offset as i128, source_rank(&e.source) as i128));
        i += 1;
        assert(keys@ =~= merge_keys(all@.take(i as int)));
    }
    assert(all@.take(all.len() as int) =~= all@);
    let sorted = sort_by_keys_exec(keys, all);
    let ghost input = sorted@;
    let mut remaining = sorted;
    let mut merged_list: Vec<Entity> = Vec::new();
    let ghost mut done: int = 0;
    while remaining.len() > 0
        invariant
            0 <= done <= input.len(),
            remaining@ == input.skip(done),
            merged_list@ == merge_fold(input.take(done)),
        decreases remaining.len(),
    {
        let candidate = remaining.remove(0);
        proof {
            assert(input.take(done + 1).drop_last() =~= input.take(done));
            assert(input.take(done + 1).last() == candidate);
        }
        let n = merged_list.len();
        if n > 0 && related(&merged_list[n - 1], &candidate) {
            let prev = merged_list.pop().unwrap();
            merged_list.push(pick_winner(prev, candidate));
            proof {
                let m = merge_fold(input.take(done));
                assert(merged_list@ =~= m.update(m.len() - 1, pick_winner_spec(m.last(), candidate)));
            }
        } else {
            merged_list.push(candidate);
        }
        proof {
            done = done + 1;
            assert(remaining@ =~= input.skip(done));
        }
    }
    assert(input.take(done) =~= input);
    merged_list
}

/// Merges institution entities from the rule-based and ONNX engines. Where they
/// overlap, the rule-based institution is kept unless the ONNX entity is at
/// least `CORE_ONNX_BONUS_THRESHOLD` more confident (see `pick_winner_spec`).
pub fn merge_institutions(rule_based: Vec<Entity>, onnx: Vec<Entity>) -> (r: Vec<Entity>)
    ensures
        r@ == merged(rule_based@, onnx@),
{
    merge_entities(rule_based, onnx)
}


/// A merge decision keeps one of the two entities it compares.
pub proof fn law_pick_winner_keeps_an_argument(a: Entity, b: Entity)
    ensures
        pick_winner_spec(a, b) == a || pick_winner_spec(a, b) == b,
{
}

/// A rule-based date is never replaced by the entity it is merged with.
pub proof fn law_rule_based_date_wins(a: Entity, b: Entity)
    requires
        is_rule_based_date(a) || is_rule_based_date(b),
    ensures
        is_rule_based_date(pick_winner_spec(a, b)),
{
}

/// A rule-based institution beats an overlapping ONNX organization or
/// institution unless the ONNX entity is at least `CORE_ONNX_BONUS_THRESHOLD`
/// more confident.
pub proof fn law_rule_based_institution_wins(rb: Entity, onnx: Entity)
    requires
        rb.source == EntitySource::RuleBased,
        rb.entity_type == EntityType::Institution,
        onnx.source == EntitySource::Onnx,
        onnx.entity_type == EntityType::Organization || onnx.entity_type
            == EntityType::Institution,
        onnx.confidence < rb.confidence + CORE_ONNX_BONUS_THRESHOLD,
    ensures
        pick_winner_spec(rb, onnx) == rb,
        pick_winner_spec(onnx, rb) == rb,
{
}

proof fn lemma_fold_from_input(s: Seq<Entity>)
    ensures
        merge_fold(s).len() <= s.len(),
        forall|i: int| 0 <= i < merge_fold(s).len() ==> s.contains(#[trigger] merge_fold(s)[i]),
    decreases s.len(),
{
    if s.len() > 0 {
        let d = s.drop_last();
        lemma_fold_from_input(d);
        let m = merge_fold(d);
        let r = merge_fold(s);
        let c = s.last();
        assert(s[s.len() - 1] == c);
        assert forall|i: int| 0 <= i < m.len() implies s.contains(#[trigger] m[i]) by {
            assert(d.contains(m[i]));
            let k = choose|k: int| 0 <= k < d.len() && d[k] == m[i];
            assert(s[k] == m[i]);
        }
        if m.len() > 0 && related_spec(m.last(), c) {
            law_pick_winner_keeps_an_argument(m.last(), c);
            assert(s.contains(m[m.len() - 1]));
            assert forall|i: int| 0 <= i < r.len() implies s.contains(#[trigger] r[i]) by {
                if i < m.len() - 1 {
                    assert(r[i] == m[i]);
                }
            }
        } else {
            assert forall|i: int| 0 <= i < r.len() implies s.contains(#[trigger] r[i]) by {
                if i < m.len() {
                    assert(r[i] == m[i]);
                }
            }
        }
    }
}

pub open spec fn starts_nondecreasing(s: Seq<Entity>) -> bool {
    forall|i: int, j: int| 0 <= i < j < s.len() ==> #[trigger] s[i].start_offset
        <= #[trigger] s[j].start_offset
}

proof fn lemma_fold_sorted(s: Seq<Entity>)
    requires
        starts_nondecreasing(s),
    ensures
        starts_nondecreasing(merge_fold(s)),
    decreases s.len(),
{
    if s.len() > 0 {
        let d = s.drop_last();
        assert(starts_nondecreasing(d)) by {
            assert forall|i: int, j: int| 0 <= i < j < d.len() implies #[trigger] d[i].start_offset
                <= #[trigger] d[j].start_offset by {
                assert(s[i] == d[i] && s[j] == d[j]);
            }
        }
        lemma_fold_sorted(d);
        lemma_fold_from_input(d);
        let m = merge_fold(d);
        let c = s.last();
        assert forall|i: int| 0 <= i < m.len() implies #[trigger] m[i].start_offset
            <= c.start_offset by {
            assert(d.contains(m[i]));
            let k = choose|k: int| 0 <= k < d.len() && d[k] == m[i];
            assert(s[k] == m[i]);
            assert(s[k].start_offset <= s[s.len() - 1].start_offset);
        }
        let r = merge_fold(s);
        assert forall|i: int, j: int| 0 <= i < j < r.len() implies #[trigger] r[i].start_offset
            <= #[trigger] r[j].start_offset by {
            if j < m.len() - 1 || (j == m.len() - 1 && r[j] == m[j]) {
                assert(r[i] == m[i]);
            } else if j == m.len() - 1 {
                assert(r[i] == m[i]);
                law_pick_winner_keeps_an_argument(m.last(), c);
            } else {
                assert(r[j] == c);
                if i < m.len() - 1 || r[i] == m[i] {
                } else {
                    assert(r[i] == m[i]);
                }
            }
        }
    }
}

proof fn lemma_sorted_items_from_input(keys: Seq<SortKey>, items: Seq<Entity>)
    requires
        keys.len() == items.len(),
    ensures
        sort_by_keys(keys, items).len() == items.len(),
        forall|i: int| 0 <= i < sort_by_keys(keys, items).len() ==> items.contains(
            #[trigger] sort_by_keys(keys, items)[i],
        ),
{
    let z = crate::sort::zip_keys(keys, items);
    let st = crate::sort::stable_sort(z);
    crate::sort::lemma_stable_sort_sorted(z);
    broadcast use vstd::seq_lib::group_seq_properties;
    assert forall|i: int| 0 <= i < sort_by_keys(keys, items).len() implies items.contains(
        #[trigger] sort_by_keys(keys, items)[i],
    ) by {
        let p = st[i];
        assert(st.contains(p));
        assert(st.to_multiset().count(p) > 0);
        assert(z.to_multiset().count(p) > 0);
        assert(z.contains(p));
        let k = choose|k: int| 0 <= k < z.len() && z[k] == p;
        assert(items[k] == p.1);
    }
}

/// Merging never invents entities: every merged entity is one of the inputs,
/// and there are at most as many merged entities as inputs.
pub proof fn law_merge_keeps_only_inputs(rule_based: Seq<Entity>, onnx: Seq<Entity>)
    ensures
        merged(rule_based, onnx).len() <= rule_based.len() + onnx.len(),
        forall|i: int| 0 <= i < merged(rule_based, onnx).len() ==> (rule_based + onnx).contains(
            #[trigger] merged(rule_based, onnx)[i],
        ),
{
    let all = rule_based + onnx;
    let srt = sort_by_keys(merge_keys(all), all);
    lemma_sorted_items_from_input(merge_keys(all), all);
    lemma_fold_from_input(srt);
    let r = merge_fold(srt);
    assert forall|i: int| 0 <= i < r.len() implies all.contains(#[trigger] r[i]) by {
        assert(srt.contains(r[i]));
        let k = choose|k: int| 0 <= k < srt.len() && srt[k] == r[i];
        assert(all.contains(srt[k]));
    }
}

/// The merged entities are ordered by start offset.
pub proof fn law_merge_ordered_by_start(rule_based: Seq<Entity>, onnx: Seq<Entity>)
    ensures
        starts_nondecreasing(merged(rule_based, onnx)),
{
    let all = rule_based + onnx;
    let keys = merge_keys(all);
    let z = crate::sort::zip_keys(keys, all);
    crate::sort::lemma_stable_sort_sorted(z);
    let st = crate::sort::stable_sort(z);
    let srt = sort_by_keys(keys, all);
    broadcast use vstd::seq_lib::group_seq_properties;
    assert forall|i: int, j: int| 0 <= i < j < srt.len() implies #[trigger] srt[i].start_offset
        <= #[trigger] srt[j].start_offset by {
        assert(crate::sort::key_le(crate::sort::keys_of(st)[i], crate::sort::keys_of(st)[j]));
        let pi = st[i];
        let pj = st[j];
        assert(st.contains(pi) && st.contains(pj));
        assert(z.to_multiset().count(pi) > 0 && z.to_multiset().count(pj) > 0) by {
            assert(st.to_multiset().count(pi) > 0);
            assert(st.to_multiset().count(pj) > 0);
        }
        assert(z.contains(pi) && z.contains(pj));
        let ki = choose|k: int| 0 <= k < z.len() && z[k] == pi;
        let kj = choose|k: int| 0 <= k < z.len() && z[k] == pj;
        assert(pi.0 == merge_key(all[ki]) && pi.1 == all[ki]);
        assert(pj.0 == merge_key(all[kj]) && pj.1 == all[kj]);
    }
    lemma_fold_sorted(srt);
}

/// Of two related entities of the same type (neither a date nor an
/// institution) and equal confidence, the merge keeps the one whose span is
/// longer: the more complete mention wins.
pub proof fn law_longer_span_wins(a: Entity, b: Entity)
    requires
        a.entity_type == b.entity_type,
        a.entity_type != EntityType::Date,
        a.entity_type != EntityType::Institution,
        a.confidence == b.confidence,
        span_len_spec(a) != span_len_spec(b),
    ensures
        span_len_spec(pick_winner_spec(a, b)) > span_len_spec(a) || span_len_spec(
            pick_winner_spec(a, b),
        ) > span_len_spec(b),
        span_len_spec(b) > span_len_spec(a) ==> pick_winner_spec(a, b) == b,
        span_len_spec(a) > span_len_spec(b) ==> pick_winner_spec(a, b) == a,
{
    assert(CORE_ONNX_BONUS_THRESHOLD > 0);
}

/// Merging only keeps entities it was given: every merged entity is one of
/// the inputs, and there are at most as many.
pub proof fn law_merged_from_inputs(rule_based: Seq<Entity>, onnx: Seq<Entity>)
    ensures
        merged(rule_based, onnx).len() <= rule_based.len() + onnx.len(),
        forall|i: int|
            0 <= i < merged(rule_based, onnx).len() ==> exists|j: int|
                0 <= j < (rule_based + onnx).len() && #[trigger] merged(rule_based, onnx)[i] == (
                rule_based + onnx)[j],
{
    let all = rule_based + onnx;
    let sorted = sort_by_keys(merge_keys(all), all);
    crate::sort::lemma_sort_items_from(merge_keys(all), all);
    lemma_merge_fold_from(sorted);
    assert forall|i: int| 0 <= i < merged(rule_based, onnx).len() implies exists|j: int|
        0 <= j < all.len() && #[trigger] merged(rule_based, onnx)[i] == all[j] by {
        let k = choose|k: int| 0 <= k < sorted.len() && merge_fold(sorted)[i] == sorted[k];
        let j = choose|j: int| 0 <= j < all.len() && all[j] == sorted[k];
        assert(merged(rule_based, onnx)[i] == all[j]);
    }
}

proof fn lemma_merge_fold_from(s: Seq<Entity>)
    ensures
        merge_fold(s).len() <= s.len(),
        forall|i: int|
            0 <= i < merge_fold(s).len() ==> exists|k: int|
                0 <= k < s.len() && #[trigger] merge_fold(s)[i] == s[k],
    decreases s.len(),
{
    if s.len() > 0 {
        let p = s.drop_last();
        lemma_merge_fold_from(p);
        let m = merge_fold(p);
        let c = s.last();
        assert forall|i: int| 0 <= i < merge_fold(s).len() implies exists|k: int|
            0 <= k < s.len() && #[trigger] merge_fold(s)[i] == s[k] by {
            if i < m.len() && !(m.len() > 0 && related_spec(m.last(), c) && i == m.len() - 1) {
                let k = choose|k: int| 0 <= k < p.len() && m[i] == p[k];
                assert(s[k] == p[k]);
            } else if m.len() > 0 && related_spec(m.last(), c) {
                law_pick_winner_keeps_an_argument(m.last(), c);
                if pick_winner_spec(m.last(), c) == c {
                    assert(merge_fold(s)[i] == s[s.len() - 1]);
                } else {
                    let k = choose|k: int| 0 <= k < p.len() && m[m.len() - 1] == p[k];
                    assert(s[k] == p[k]);
                }
            } else {
                assert(merge_fold(s)[i] == s[s.len() - 1]);
            }
        }
    }
}

/// An ONNX person, place, organization or institution that is at least
/// `CORE_ONNX_BONUS_THRESHOLD` more confident replaces a related rule-based
/// entity of the same core family (that is not a date), whichever comes first.
pub proof fn law_confident_onnx_replaces_rule_based(rb: Entity, onnx: Entity)
    requires
        rb.source == EntitySource::RuleBased,
        rb.entity_type != EntityType::Date,
        onnx.source == EntitySource::Onnx,
        onnx.entity_type == EntityType::Person || onnx.entity_type == EntityType::Place
            || onnx.entity_type == EntityType::Organization || onnx.entity_type
            == EntityType::Institution,
        same_core_family(rb.entity_type, onnx.entity_type),
        onnx.confidence >= rb.confidence + CORE_ONNX_BONUS_THRESHOLD,
    ensures
        pick_winner_spec(rb, onnx) == onnx,
        pick_winner_spec(onnx, rb) == onnx,
{
}

/// Between two related entities from the same model (not the rule-based
/// engine), the more specific type wins (institution, then date, then person
/// or place, then organization, then miscellaneous); with equally specific
/// types and equally long spans, the more confident one wins.
pub proof fn law_model_entities_by_type_then_confidence(a: Entity, b: Entity)
    requires
        a.source == b.source,
        a.source != EntitySource::RuleBased,
    ensures
        type_specificity_spec(a.entity_type) > type_specificity_spec(b.entity_type)
            ==> pick_winner_spec(a, b) == a && pick_winner_spec(b, a) == a,
        type_specificity_spec(a.entity_type) == type_specificity_spec(b.entity_type)
            && span_len_spec(a) == span_len_spec(b) && a.confidence > b.confidence
            ==> pick_winner_spec(a, b) == a && pick_winner_spec(b, a) == a,
{
}

} // verus!
