//! Properties of the entity pipeline that hold for every input: ordering of
//! the results, where de-duplicated and routed entities come from, and the
//! rule that dates are taken from the rule-based engine alone.

use vstd::prelude::*;
use crate::ner_hybrid::{
    dedup_fold, dedup_step, deduplicated, filter_type, first_duplicate, hybrid_candidates,
    hybrid_result, passes, prefer_better_spec, routed_core, routed_misc, sanitize_views,
    sorted_by_start, start_end_key, start_key, with_sanitized_value, TypeFilter,
};
use crate::ner_merge::{law_merge_keeps_only_inputs, merged};
use crate::ner_rules::{collected, rule_based_entities, rule_candidates};
use crate::ner_types::{entity_views, sanitized, Entity, EntitySource, EntityType, EntityView};
use crate::text::{in_class, lemma_strip_both_fixed, lemma_strip_both_shape, strip_both, CharClass};
use crate::sort::{key_le, lemma_sort_by_own_keys, lemma_sort_items_from, sort_by_keys};

verus! {

/// `e` is `src` but for its value: same type, offsets, confidence, source and model.
pub open spec fn same_origin(e: EntityView, src: EntityView) -> bool {
    &&& e.entity_type == src.entity_type
    &&& e.start_offset == src.start_offset
    &&& e.end_offset == src.end_offset
    &&& e.confidence == src.confidence
    &&& e.source == src.source
    &&& e.model_name == src.model_name
}

/// The start offsets of `s` never decrease.
pub open spec fn ordered_by_start(s: Seq<EntityView>) -> bool {
    forall|i: int, j: int|
        0 <= i < j < s.len() ==> (#[trigger] s[i]).start_offset <= (#[trigger] s[j]).start_offset
}

proof fn lemma_sorted_by_start_ordered(s: Seq<EntityView>)
    ensures
        ordered_by_start(sorted_by_start(s)),
        sorted_by_start(s).len() == s.len(),
{
    let f = |e: EntityView| start_key(e);
    lemma_sort_by_own_keys(s, f);
    let r = sorted_by_start(s);
    assert(r == sort_by_keys(s.map_values(f), s));
    assert forall|i: int, j: int| 0 <= i < j < r.len() implies (#[trigger] r[i]).start_offset
        <= (#[trigger] r[j]).start_offset by {
        assert(key_le(f(r[i]), f(r[j])));
    }
}

proof fn lemma_sorted_by_start_from(s: Seq<EntityView>)
    ensures
        forall|i: int|
            0 <= i < sorted_by_start(s).len() ==> s.contains(#[trigger] sorted_by_start(s)[i]),
{
    let f = |e: EntityView| start_key(e);
    lemma_sort_items_from(s.map_values(f), s);
    assert forall|i: int| 0 <= i < sorted_by_start(s).len() implies s.contains(
        #[trigger] sorted_by_start(s)[i],
    ) by {
        let j = choose|j: int| 0 <= j < s.len() && s[j] == sort_by_keys(s.map_values(f), s)[i];
        assert(s[j] == sorted_by_start(s)[i]);
    }
}

proof fn lemma_first_duplicate_range(kept: Seq<EntityView>, e: EntityView)
    ensures
        -1 <= first_duplicate(kept, e) < kept.len(),
    decreases kept.len(),
{
    if kept.len() > 0 {
        lemma_first_duplicate_range(kept.drop_first(), e);
    }
}

proof fn lemma_dedup_fold_from(s: Seq<EntityView>)
    ensures
        dedup_fold(s).len() <= s.len(),
        forall|i: int| 0 <= i < dedup_fold(s).len() ==> s.contains(#[trigger] dedup_fold(s)[i]),
    decreases s.len(),
{
    if s.len() > 0 {
        let d = s.drop_last();
        lemma_dedup_fold_from(d);
        let kept = dedup_fold(d);
        let e = s.last();
        lemma_first_duplicate_range(kept, e);
        let k = first_duplicate(kept, e);
        let r = dedup_fold(s);
        assert(r == dedup_step(kept, e));
        assert forall|i: int| 0 <= i < r.len() implies s.contains(#[trigger] r[i]) by {
            if k >= 0 && i == k {
                let p = prefer_better_spec(kept[k], e);
                assert(d.contains(kept[k]));
                let j = choose|j: int| 0 <= j < d.len() && d[j] == kept[k];
                assert(s[j] == d[j]);
                assert(s[s.len() - 1] == e);
            } else if k < 0 && i == kept.len() {
                assert(s[s.len() - 1] == e);
            } else {
                assert(r[i] == kept[i]);
                assert(d.contains(kept[i]));
                let j = choose|j: int| 0 <= j < d.len() && d[j] == kept[i];
                assert(s[j] == d[j]);
            }
        }
    }
}

/// De-duplication never invents entities: it returns at most as many as it is
/// given, and each one is an input entity with its value sanitized.
pub proof fn law_dedup_keeps_only_inputs(s: Seq<EntityView>)
    ensures
        deduplicated(s).len() <= s.len(),
        forall|i: int|
            0 <= i < deduplicated(s).len() ==> exists|j: int|
                0 <= j < s.len() && same_origin(#[trigger] deduplicated(s)[i], s[j]),
{
    if s.len() > 0 {
        let c = sanitize_views(s);
        let f = |e: EntityView| start_end_key(e);
        let srt = sort_by_keys(c.map_values(f), c);
        lemma_sort_items_from(c.map_values(f), c);
        lemma_dedup_fold_from(srt);
        let r = deduplicated(s);
        assert(r == dedup_fold(srt));
        assert forall|i: int| 0 <= i < r.len() implies exists|j: int|
            0 <= j < s.len() && same_origin(#[trigger] r[i], s[j]) by {
            assert(srt.contains(r[i]));
            let k = choose|k: int| 0 <= k < srt.len() && srt[k] == r[i];
            let j = choose|j: int| 0 <= j < c.len() && c[j] == srt[k];
            assert(c[j] == with_sanitized_value(s[j]));
            assert(same_origin(r[i], s[j]));
        }
    }
}

proof fn lemma_filter_type_from(s: Seq<Entity>, f: TypeFilter)
    ensures
        forall|i: int|
            0 <= i < filter_type(s, f).len() ==> s.contains(#[trigger] filter_type(s, f)[i])
                && passes(f, filter_type(s, f)[i].entity_type),
    decreases s.len(),
{
    if s.len() > 0 {
        let d = s.drop_last();
        lemma_filter_type_from(d, f);
        let r = filter_type(s, f);
        assert forall|i: int| 0 <= i < r.len() implies s.contains(#[trigger] r[i]) && passes(
            f,
            r[i].entity_type,
        ) by {
            if i < filter_type(d, f).len() {
                assert(r[i] == filter_type(d, f)[i]);
                let j = choose|j: int| 0 <= j < d.len() && d[j] == r[i];
                assert(s[j] == d[j]);
            } else {
                assert(r[i] == s.last());
                assert(s[s.len() - 1] == s.last());
            }
        }
    }
}

/// Every date among the hybrid candidates is a date of the rule-based engine.
proof fn lemma_candidate_dates(rule: Seq<Entity>, onnx: Seq<Entity>, spacy: Seq<Entity>)
    ensures
        forall|i: int|
            0 <= i < hybrid_candidates(rule, onnx, spacy).len() && (#[trigger] hybrid_candidates(
                rule,
                onnx,
                spacy,
            )[i]).entity_type == EntityType::Date ==> rule.contains(
                hybrid_candidates(rule, onnx, spacy)[i],
            ),
{
    let bert = TypeFilter::BertFirst;
    let date = TypeFilter::Only(EntityType::Date);
    let inst = TypeFilter::Only(EntityType::Institution);
    let misc = TypeFilter::Only(EntityType::Misc);
    lemma_filter_type_from(onnx, bert);
    lemma_filter_type_from(spacy, bert);
    lemma_filter_type_from(rule, bert);
    lemma_filter_type_from(rule, date);
    lemma_filter_type_from(rule, inst);
    lemma_filter_type_from(onnx, inst);
    lemma_filter_type_from(onnx, misc);
    lemma_filter_type_from(spacy, misc);
    let core = routed_core(rule, onnx, spacy);
    let dates = filter_type(rule, date);
    let ri = filter_type(rule, inst);
    let oi = filter_type(onnx, inst);
    let insts = merged(ri, oi);
    let mi = routed_misc(onnx, spacy);
    law_merge_keeps_only_inputs(ri, oi);
    let all = hybrid_candidates(rule, onnx, spacy);
    assert(all == core + dates + insts + mi);
    assert forall|i: int|
        0 <= i < all.len() && (#[trigger] all[i]).entity_type == EntityType::Date implies rule.contains(
        all[i],
    ) by {
        if i < core.len() {
            assert(all[i] == core[i]);
            assert(passes(bert, core[i].entity_type));
        } else if i < core.len() + dates.len() {
            assert(all[i] == dates[i - core.len()]);
        } else if i < core.len() + dates.len() + insts.len() {
            let k = i - core.len() - dates.len();
            assert(all[i] == insts[k]);
            assert((ri + oi).contains(insts[k]));
            let j = choose|j: int| 0 <= j < (ri + oi).len() && (ri + oi)[j] == insts[k];
            if j < ri.len() {
                assert(ri[j] == (ri + oi)[j]);
                assert(passes(inst, ri[j].entity_type));
            } else {
                assert(oi[j - ri.len()] == (ri + oi)[j]);
                assert(passes(inst, oi[j - ri.len()].entity_type));
            }
        } else {
            let k = i - core.len() - dates.len() - insts.len();
            assert(all[i] == mi[k]);
            assert(passes(misc, mi[k].entity_type));
        }
    }
}

/// Dates come only from the rule-based engine: whatever the ONNX and spaCy
/// engines report, every date entity of the hybrid result is a rule-based
/// date entity (with its value sanitized).
pub proof fn law_hybrid_dates_only_from_rules(
    rule: Seq<Entity>,
    onnx: Seq<Entity>,
    spacy: Seq<Entity>,
)
    ensures
        forall|i: int|
            0 <= i < hybrid_result(rule, onnx, spacy).len() && (#[trigger] hybrid_result(
                rule,
                onnx,
                spacy,
            )[i]).entity_type == EntityType::Date ==> exists|j: int|
                0 <= j < rule.len() && rule[j].entity_type == EntityType::Date && same_origin(
                    hybrid_result(rule, onnx, spacy)[i],
                    rule[j]@,
                ),
{
    let cand = hybrid_candidates(rule, onnx, spacy);
    let cv = entity_views(cand);
    let dd = deduplicated(cv);
    let out = hybrid_result(rule, onnx, spacy);
    lemma_candidate_dates(rule, onnx, spacy);
    law_dedup_keeps_only_inputs(cv);
    lemma_sorted_by_start_from(dd);
    assert(out == sorted_by_start(dd));
    assert forall|i: int|
        0 <= i < out.len() && (#[trigger] out[i]).entity_type == EntityType::Date implies exists|
        j: int,
    |
        0 <= j < rule.len() && rule[j].entity_type == EntityType::Date && same_origin(
            out[i],
            rule[j]@,
        ) by {
        assert(dd.contains(out[i]));
        let k = choose|k: int| 0 <= k < dd.len() && dd[k] == out[i];
        let m = choose|m: int| 0 <= m < cv.len() && same_origin(dd[k], cv[m]);
        assert(cv[m] == cand[m]@);
        assert(cand[m].entity_type == EntityType::Date);
        assert(rule.contains(cand[m]));
        let j = choose|j: int| 0 <= j < rule.len() && rule[j] == cand[m];
        assert(same_origin(out[i], rule[j]@));
    }
}

/// The hybrid result is ordered by start offset.
pub proof fn law_hybrid_ordered_by_start(rule: Seq<Entity>, onnx: Seq<Entity>, spacy: Seq<Entity>)
    ensures
        ordered_by_start(hybrid_result(rule, onnx, spacy)),
{
    lemma_sorted_by_start_ordered(deduplicated(entity_views(hybrid_candidates(rule, onnx, spacy))));
}

proof fn lemma_collected_rule_based(ms: Seq<(usize, usize, Seq<char>)>, t: EntityType)
    ensures
        forall|i: int|
            0 <= i < collected(ms, t).len() ==> (#[trigger] collected(ms, t)[i]).source
                == EntitySource::RuleBased && collected(ms, t)[i].entity_type == t,
    decreases ms.len(),
{
    if ms.len() > 0 {
        lemma_collected_rule_based(ms.drop_last(), t);
    }
}

/// Every rule-based entity has the rule-based source, and the entities are
/// ordered by start offset.
pub proof fn law_rule_based_entities(text: Seq<char>)
    ensures
        ordered_by_start(rule_based_entities(text)),
        forall|i: int|
            0 <= i < rule_based_entities(text).len() ==> (#[trigger] rule_based_entities(
                text,
            )[i]).source == EntitySource::RuleBased,
{
    let c = rule_candidates(text);
    lemma_sorted_by_start_ordered(c);
    lemma_sorted_by_start_from(c);
    let p = crate::pattern::regex_matches(crate::ner_rules::PERSON_PATTERN@, text);
    let l = crate::pattern::regex_matches(crate::ner_rules::PLACE_PATTERN@, text);
    let w = crate::pattern::regex_matches(crate::ner_rules::DATE_WRITTEN_PATTERN@, text);
    let n = crate::pattern::regex_matches(crate::ner_rules::DATE_NUMERIC_PATTERN@, text);
    let s = crate::pattern::regex_matches(crate::ner_rules::INSTITUTION_PATTERN@, text);
    lemma_collected_rule_based(p, EntityType::Person);
    lemma_collected_rule_based(l, EntityType::Place);
    lemma_collected_rule_based(w, EntityType::Date);
    lemma_collected_rule_based(n, EntityType::Date);
    lemma_collected_rule_based(s, EntityType::Institution);
    assert forall|i: int| 0 <= i < c.len() implies (#[trigger] c[i]).source
        == EntitySource::RuleBased by {
        let a = collected(p, EntityType::Person);
        let b = collected(l, EntityType::Place);
        let d = collected(w, EntityType::Date);
        let e = collected(n, EntityType::Date);
        let f = collected(s, EntityType::Institution);
        assert(c == a + b + d + e + f);
        if i < a.len() {
            assert(c[i] == a[i]);
        } else if i < a.len() + b.len() {
            assert(c[i] == b[i - a.len()]);
        } else if i < a.len() + b.len() + d.len() {
            assert(c[i] == d[i - a.len() - b.len()]);
        } else if i < a.len() + b.len() + d.len() + e.len() {
            assert(c[i] == e[i - a.len() - b.len() - d.len()]);
        } else {
            assert(c[i] == f[i - a.len() - b.len() - d.len() - e.len()]);
        }
    }
    let r = rule_based_entities(text);
    assert forall|i: int| 0 <= i < r.len() implies (#[trigger] r[i]).source
        == EntitySource::RuleBased by {
        assert(c.contains(r[i]));
    }
}

/// Every date entity that the hybrid engine returns comes from the rule-based
/// engine, whatever the ONNX and spaCy engines found.
pub proof fn law_hybrid_dates_are_rule_based(out: Seq<Entity>, text: Seq<char>, onnx: Seq<Entity>, spacy: Seq<Entity>)
    requires
        crate::ner_hybrid::hybrid_views_match(out, text, onnx, spacy),
    ensures
        forall|i: int|
            0 <= i < out.len() && (#[trigger] out[i]).entity_type == EntityType::Date ==> out[i].source
                == EntitySource::RuleBased,
{
    let rule = choose|rule: Seq<Entity>|
        entity_views(rule) == rule_based_entities(text) && entity_views(out) == hybrid_result(
            rule,
            onnx,
            spacy,
        );
    law_hybrid_dates_only_from_rules(rule, onnx, spacy);
    law_rule_based_entities(text);
    let hr = hybrid_result(rule, onnx, spacy);
    assert forall|i: int|
        0 <= i < out.len() && (#[trigger] out[i]).entity_type == EntityType::Date implies out[i].source
        == EntitySource::RuleBased by {
        assert(entity_views(out)[i] == out[i]@);
        assert(hr[i].entity_type == EntityType::Date);
        let j = choose|j: int|
            0 <= j < rule.len() && rule[j].entity_type == EntityType::Date && same_origin(
                hr[i],
                rule[j]@,
            );
        assert(entity_views(rule)[j] == rule[j]@);
    }
}

/// The basic extractor's entities are ordered by start offset.
pub proof fn law_basic_entities_ordered_by_start(text: Seq<char>)
    ensures
        forall|i: int, j: int|
            0 <= i < j < crate::ner_basic::basic_entities(text).len() ==> (
            #[trigger] crate::ner_basic::basic_entities(text)[i]).start_offset <= (
            #[trigger] crate::ner_basic::basic_entities(text)[j]).start_offset,
{
    let c = crate::ner_basic::basic_candidates(text);
    let f = |e: crate::ner_basic::EntityRecord| crate::ner_basic::record_start_key(e);
    lemma_sort_by_own_keys(c, f);
    let r = crate::ner_basic::basic_entities(text);
    assert(r == sort_by_keys(c.map_values(f), c));
    assert forall|i: int, j: int| 0 <= i < j < r.len() implies (#[trigger] r[i]).start_offset
        <= (#[trigger] r[j]).start_offset by {
        assert(key_le(f(r[i]), f(r[j])));
    }
}

/// What the hybrid engine returns is ordered by start offset, and every date
/// in it comes from the rule-based engine, whatever the other engines found.
pub proof fn law_hybrid_engine_output<'a>(
    engine: crate::ner_hybrid::HybridNerEngine<'a>,
    out: Seq<Entity>,
    text: Seq<char>,
)
    requires
        engine.hybrid_outcome(out, text),
    ensures
        ordered_by_start(entity_views(out)),
        forall|i: int|
            0 <= i < out.len() && (#[trigger] out[i]).entity_type == EntityType::Date ==> out[i].source
                == EntitySource::RuleBased,
{
    let (onnx, spacy) = choose|onnx: Seq<Entity>, spacy: Seq<Entity>|
        crate::ner_hybrid::engine_findings(engine.onnx_engine(), text, onnx)
            && crate::ner_hybrid::engine_findings(engine.spacy_engine(), text, spacy)
            && #[trigger] crate::ner_hybrid::hybrid_views_match(out, text, onnx, spacy);
    law_hybrid_dates_are_rule_based(out, text, onnx, spacy);
    let rule = choose|rule: Seq<Entity>|
        entity_views(rule) == rule_based_entities(text) && entity_views(out) == hybrid_result(
            rule,
            onnx,
            spacy,
        );
    law_hybrid_ordered_by_start(rule, onnx, spacy);
}

/// No character of `v` is both whitespace and alphanumeric (true of every text:
/// Unicode's white space characters are neither letters nor digits, which the
/// library's names for the two classes do not record).
pub open spec fn spaces_are_not_alphanumeric(v: Seq<char>) -> bool {
    forall|i: int|
        0 <= i < v.len() ==> (crate::chars::char_is_whitespace(#[trigger] v[i])
            ==> !crate::chars::char_is_alphanumeric(v[i]))
}

/// Sanitizing an entity value keeps a contiguous part of it whose first and
/// last characters are neither whitespace nor edge symbols, and sanitizing
/// again changes nothing.
pub proof fn law_sanitized_value(v: Seq<char>)
    requires
        spaces_are_not_alphanumeric(v),
    ensures
        exists|i: int, j: int| 0 <= i <= j <= v.len() && sanitized(v) == v.subrange(i, j),
        sanitized(v).len() > 0 ==> {
            let r = sanitized(v);
            &&& !crate::chars::char_is_whitespace(r[0])
            &&& !crate::chars::char_is_whitespace(r.last())
            &&& !in_class(CharClass::EntityEdge, r[0])
            &&& !in_class(CharClass::EntityEdge, r.last())
        },
        sanitized(sanitized(v)) == sanitized(v),
{
    let ws = CharClass::Whitespace;
    let edge = CharClass::EntityEdge;
    let a = strip_both(v, ws);
    let (i1, j1) = lemma_strip_both_shape(v, ws);
    let b = strip_both(a, edge);
    let (i2, j2) = lemma_strip_both_shape(a, edge);
    let r = strip_both(b, ws);
    let (i3, j3) = lemma_strip_both_shape(b, ws);
    assert(r == sanitized(v));
    // every character of b is a character of v
    assert forall|k: int| 0 <= k < b.len() implies b[k] == v[i1 + i2 + k] by {
        assert(b[k] == a[i2 + k]);
        assert(a[i2 + k] == v[i1 + i2 + k]);
    }
    assert(r =~= v.subrange(i1 + i2 + i3, i1 + i2 + j3));
    if r.len() > 0 {
        // the whitespace trim removes nothing: b's ends are not edge symbols,
        // so a whitespace end would be alphanumeric
        if i3 > 0 {
            assert(in_class(ws, b[0]));
            assert(b[0] == v[i1 + i2]);
            assert(!in_class(edge, b[0]));
            assert(false);
        }
        if j3 < b.len() {
            assert(in_class(ws, b[b.len() - 1]));
            assert(b[b.len() - 1] == v[i1 + i2 + b.len() - 1]);
            assert(!in_class(edge, b[b.len() - 1]));
            assert(false);
        }
        assert(r =~= b);
        assert(r[0] == b[0] && r.last() == b[b.len() - 1]);
    }
    lemma_strip_both_fixed(r, ws);
    lemma_strip_both_fixed(r, edge);
}

} // verus!
