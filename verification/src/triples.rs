//! Subject–predicate–object triples found by a sentence pattern.

use vstd::prelude::*;
use crate::chars::string_from_chars;
use crate::pattern::{CompiledPattern, capture_group, compile_pattern, regex_compiles, regex_group};
use crate::text::{CharClass, slice_chars, strip_bounds, trim, trim_string};

verus! {

/// A fact `subject predicate object` found in a sentence.
#[derive(Debug, Clone, PartialEq)]
pub struct Triple {
    pub subject: String,
    pub predicate: String,
    pub object: String,
}

/// The content of a `Triple`.
pub struct TripleView {
    pub subject: Seq<char>,
    pub predicate: Seq<char>,
    pub object: Seq<char>,
}

impl View for Triple {
    type V = TripleView;

    open spec fn view(&self) -> TripleView {
        TripleView { subject: self.subject@, predicate: self.predicate@, object: self.object@ }
    }
}

pub open spec fn triple_views(s: Seq<Triple>) -> Seq<TripleView> {
    s.map_values(|t: Triple| t@)
}

/// A whole sentence: a subject, a predicate verb (es, fue, era, firmó, fundó,
/// creó, dirigía, lideró, nació en, murió en; any case) and an object.
pub const TRIPLE_PATTERN: &'static str = r"(?i)^\s*(?P<subject>[^.,;:]+?)\s+(?P<predicate>es|fue|era|firm[oó]|fund[oó]|cre[oó]|dirig[ií]a|lider[oó]|naci[oó]\s+en|muri[oó]\s+en)\s+(?P<object>[^.,;:]+?)\s*$";

pub open spec fn is_sentence_break(c: char) -> bool {
    c == '.' || c == ';' || c == '\n'
}

/// `text.split(['.', ';', '\n'])`: the pieces between breaks, empty ones included.
pub open spec fn sentences(text: Seq<char>) -> Seq<Seq<char>>
    decreases text.len(),
{
    if text.len() == 0 {
        seq![Seq::<char>::empty()]
    } else {
        let prev = sentences(text.drop_last());
        let c = text.last();
        if is_sentence_break(c) {
            prev.push(Seq::empty())
        } else {
            prev.update(prev.len() - 1, prev.last().push(c))
        }
    }
}

/// The triple of one trimmed sentence, if the pattern matches it with all three
/// groups and the trimmed subject and object are not empty.
pub open spec fn sentence_triple(s: Seq<char>) -> Option<TripleView> {
    match (
        regex_group(TRIPLE_PATTERN@, s, "subject"@),
        regex_group(TRIPLE_PATTERN@, s, "predicate"@),
        regex_group(TRIPLE_PATTERN@, s, "object"@),
    ) {
        (Some(Some(a)), Some(Some(b)), Some(Some(c))) => if trim(a).len() == 0 || trim(c).len()
            == 0 {
            None
        } else {
            Some(TripleView { subject: trim(a), predicate: trim(b), object: trim(c) })
        },
        _ => None,
    }
}

/// The triples of the sentences, in order; empty sentences are skipped.
pub open spec fn triples_of(ss: Seq<Seq<char>>) -> Seq<TripleView>
    decreases ss.len(),
{
    if ss.len() == 0 {
        Seq::empty()
    } else {
        let prev = triples_of(ss.drop_last());
        let s = trim(ss.last());
        if s.len() == 0 {
            prev
        } else {
            match sentence_triple(s) {
                Some(t) => prev.push(t),
                None => prev,
            }
        }
    }
}

/// The triples of a text; none when the sentence pattern does not compile.
pub open spec fn text_triples(text: Seq<char>) -> Seq<TripleView> {
    if regex_compiles(TRIPLE_PATTERN@) {
        triples_of(sentences(text))
    } else {
        Seq::empty()
    }
}

fn sentence_triple_exec(p: &CompiledPattern, s: &str) -> (r: Option<Triple>)
    requires
        p@ == TRIPLE_PATTERN@,
    ensures
        match r {
            Some(t) => sentence_triple(s@) == Some(t@),
            None => sentence_triple(s@) is None,
        },
{
    let a = capture_group(p, s, "subject");
    let b = capture_group(p, s, "predicate");
    let c = capture_group(p, s, "object");
    proof {
        reveal_strlit("subject");
        reveal_strlit("predicate");
        reveal_strlit("object");
    }
    match (a, b, c) {
        (Some(Some(a)), Some(Some(b)), Some(Some(c))) => {
            let subject = trim_string(a.as_str());
            let predicate = trim_string(b.as_str());
            let object = trim_string(c.as_str());
            if subject.as_str().unicode_len() == 0 || object.as_str().unicode_len() == 0 {
                None
            } else {
                Some(Triple { subject, predicate, object })
            }
        },
        _ => None,
    }
}

/// Adds the triple of one sentence piece, if any.
fn push_sentence(p: &CompiledPattern, piece: &Vec<char>, out: &mut Vec<Triple>)
    requires
        p@ == TRIPLE_PATTERN@,
    ensures
        triple_views(final(out)@) == (if trim(piece@).len() == 0 {
            triple_views(old(out)@)
        } else {
            match sentence_triple(trim(piece@)) {
                Some(t) => triple_views(old(out)@).push(t),
                None => triple_views(old(out)@),
            }
        }),
{
    let (a, b) = strip_bounds(piece, CharClass::Whitespace);
    if a == b {
        return;
    }
    let t = slice_chars(piece, a, b);
    let s = string_from_chars(&t);
    match sentence_triple_exec(p, s.as_str()) {
        Some(tr) => {
            let ghost before = triple_views(out@);
            out.push(tr);
            assert(triple_views(out@) =~= before.push(tr@));
        },
        None => {},
    }
}

/// Splits `text` at `.`, `;` and line breaks and returns, in order, the triple
/// of each sentence that the pattern matches as a whole.
pub fn extract_triples(text: &str) -> (r: Vec<Triple>)
    ensures
        triple_views(r@) == text_triples(text@),
{
    let mut out: Vec<Triple> = Vec::new();
    let p = match compile_pattern(TRIPLE_PATTERN) {
        Some(p) => p,
        None => {
            assert(triple_views(out@) =~= Seq::<TripleView>::empty());
            return out;
        },
    };
    let v = crate::chars::chars_of(text);
    let mut piece: Vec<char> = Vec::new();
    let mut i: usize = 0;
    assert(triple_views(out@) =~= Seq::<TripleView>::empty());
    while i < v.len()
        invariant
            p@ == TRIPLE_PATTERN@,
            i <= v.len(),
            sentences(v@.take(i as int)).len() > 0,
            sentences(v@.take(i as int)).last() == piece@,
            triple_views(out@) == triples_of(sentences(v@.take(i as int)).drop_last()),
        decreases v.len() - i,
    {
        let c = v[i];
        proof {
            assert(v@.take(i + 1).drop_last() =~= v@.take(i as int));
            assert(v@.take(i + 1).last() == c);
        }
        let ghost prev = sentences(v@.take(i as int));
        if c == '.' || c == ';' || c == '\n' {
            push_sentence(&p, &piece, &mut out);
            piece = Vec::new();
            proof {
                let next = sentences(v@.take(i + 1));
                assert(next == prev.push(Seq::<char>::empty()));
                assert(next.drop_last() =~= prev);
                assert(prev.drop_last().push(prev.last()) =~= prev);
                assert(piece@ =~= Seq::<char>::empty());
            }
        } else {
            piece.push(c);
            proof {
                let next = sentences(v@.take(i + 1));
                assert(next.drop_last() =~= prev.drop_last());
            }
        }
        i += 1;
    }
    assert(v@.take(v.len() as int) =~= v@);
    let ghost all = sentences(v@);
    push_sentence(&p, &piece, &mut out);
    proof {
        assert(all.drop_last().push(all.last()) =~= all);
    }
    out
}

/// The triples of a text given what the spaCy extractor returned: its
/// triples when it found some, else those of the sentence pattern.
pub fn triples_best_effort(text: &str, spacy: Result<Vec<Triple>, String>) -> (r: Vec<Triple>)
    ensures
        match spacy {
            Ok(t) if t.len() > 0 => r == t,
            _ => triple_views(r@) == text_triples(text@),
        },
{
    match spacy {
        Ok(t) => {
            if t.len() > 0 {
                t
            } else {
                extract_triples(text)
            }
        },
        Err(_) => extract_triples(text),
    }
}

// ── Sentence by sentence ─────────────────────────────────────────────────────

proof fn lemma_sentences_nonempty(t: Seq<char>)
    ensures
        sentences(t).len() > 0,
    decreases t.len(),
{
    if t.len() > 0 {
        lemma_sentences_nonempty(t.drop_last());
    }
}

/// After a text whose last piece is empty, the pieces of what follows are
/// appended as they are.
proof fn lemma_sentences_append(x: Seq<char>, b: Seq<char>)
    requires
        sentences(x).last() == Seq::<char>::empty(),
    ensures
        sentences(x + b) == sentences(x).drop_last() + sentences(b),
    decreases b.len(),
{
    lemma_sentences_nonempty(x);
    lemma_sentences_nonempty(b);
    let d = sentences(x).drop_last();
    if b.len() == 0 {
        assert(x + b =~= x);
        assert(sentences(x) =~= d + sentences(b));
    } else {
        let b1 = b.drop_last();
        let c = b.last();
        lemma_sentences_append(x, b1);
        lemma_sentences_nonempty(b1);
        assert((x + b).drop_last() =~= x + b1);
        assert((x + b).last() == c);
        let p = sentences(x + b1);
        let q = sentences(b1);
        assert(p == d + q);
        if is_sentence_break(c) {
            assert(sentences(x + b) =~= d + sentences(b));
        } else {
            assert(p.last() == q.last());
            assert(sentences(x + b) =~= d + sentences(b));
        }
    }
}

proof fn lemma_triples_of_append(s1: Seq<Seq<char>>, s2: Seq<Seq<char>>)
    ensures
        triples_of(s1 + s2) == triples_of(s1) + triples_of(s2),
    decreases s2.len(),
{
    if s2.len() == 0 {
        assert(s1 + s2 =~= s1);
        assert(triples_of(s1) + triples_of(s2) =~= triples_of(s1));
    } else {
        lemma_triples_of_append(s1, s2.drop_last());
        assert((s1 + s2).drop_last() =~= s1 + s2.drop_last());
        assert((s1 + s2).last() == s2.last());
        assert(triples_of(s1 + s2) =~= triples_of(s1) + triples_of(s2));
    }
}

/// Sentences are read one by one, in order: the triples of two texts joined
/// by a sentence break are the triples of the first followed by those of the
/// second.
pub proof fn law_triples_of_joined_texts(a: Seq<char>, sep: char, b: Seq<char>)
    requires
        is_sentence_break(sep),
    ensures
        text_triples(a + seq![sep] + b) == text_triples(a) + text_triples(b),
{
    let x = a.push(sep);
    assert(a + seq![sep] =~= x);
    assert(x.drop_last() =~= a);
    lemma_sentences_nonempty(a);
    assert(sentences(x) == sentences(a).push(Seq::<char>::empty()));
    lemma_sentences_append(x, b);
    assert(sentences(x).drop_last() =~= sentences(a));
    lemma_triples_of_append(sentences(a), sentences(b));
    if !regex_compiles(TRIPLE_PATTERN@) {
        assert(Seq::<TripleView>::empty() + Seq::<TripleView>::empty() =~= Seq::<TripleView>::empty());
    }
}

/// The error answered by the retired triples commands for `target`.
pub fn triples_retired_error(target: &str) -> (r: String)
    ensures
        r@ == "NLP triples extraction was retired for "@ + target@
            + ". Use the Gemma LLM triples commands instead."@,
{
    let mut s = String::from_str("NLP triples extraction was retired for ");
    s.append(target);
    s.append(". Use the Gemma LLM triples commands instead.");
    s
}

} // verus!
