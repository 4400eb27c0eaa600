//! Full-text search queries: turning what a user typed into a safe query of
//! quoted terms.

use vstd::prelude::*;
use crate::chars::{ascii_upper, chars_of, string_from_chars, to_ascii_upper};
use crate::text::{char_views, join, split_whitespace, split_ws, split_ws_state};

verus! {

/// The query text with search-syntax characters removed: quotes, parentheses,
/// `*` and `^` are dropped; `-`, `:`, `,` and `.` become spaces.
pub open spec fn query_cleaned(s: Seq<char>) -> Seq<char>
    decreases s.len(),
{
    if s.len() == 0 {
        s
    } else {
        let p = query_cleaned(s.drop_last());
        let c = s.last();
        if c == '"' || c == '(' || c == ')' || c == '*' || c == '^' {
            p
        } else if c == '-' || c == ':' || c == ',' || c == '.' {
            p.push(' ')
        } else {
            p.push(c)
        }
    }
}

/// A boolean operator of the search syntax, in any ASCII case.
pub open spec fn is_query_operator(w: Seq<char>) -> bool {
    let u = w.map_values(|c: char| ascii_upper(c));
    u == "AND"@ || u == "OR"@ || u == "NOT"@ || u == "NEAR"@
}

/// The words that are not operators.
pub open spec fn query_terms(ws: Seq<Seq<char>>) -> Seq<Seq<char>>
    decreases ws.len(),
{
    if ws.len() == 0 {
        ws
    } else {
        let p = query_terms(ws.drop_last());
        if is_query_operator(ws.last()) {
            p
        } else {
            p.push(ws.last())
        }
    }
}

/// The words without consecutive repeats.
pub open spec fn dedup_consecutive(ws: Seq<Seq<char>>) -> Seq<Seq<char>>
    decreases ws.len(),
{
    if ws.len() == 0 {
        ws
    } else {
        let d = dedup_consecutive(ws.drop_last());
        if d.len() > 0 && d.last() == ws.last() {
            d
        } else {
            d.push(ws.last())
        }
    }
}

/// Each word between double quotes.
pub open spec fn quoted_terms(ws: Seq<Seq<char>>) -> Seq<Seq<char>> {
    ws.map_values(|w: Seq<char>| seq!['"'] + w + seq!['"'])
}

/// The safe query: the remaining terms, each quoted, separated by spaces.
pub open spec fn safe_query(raw: Seq<char>) -> Seq<char> {
    join(quoted_terms(dedup_consecutive(query_terms(split_ws(query_cleaned(raw))))), seq![' '])
}

fn is_operator_word(w: &Vec<char>) -> (r: bool)
    ensures
        r == is_query_operator(w@),
{
    let mut u: Vec<char> = Vec::new();
    let mut i: usize = 0;
    while i < w.len()
        invariant
            i <= w.len(),
            u@ == w@.take(i as int).map_values(|c: char| ascii_upper(c)),
        decreases w.len() - i,
    {
        u.push(to_ascii_upper(w[i]));
        i += 1;
        assert(u@ =~= w@.take(i as int).map_values(|c: char| ascii_upper(c)));
    }
    assert(w@.take(w.len() as int) =~= w@);
    let s = string_from_chars(&u);
    let t = s.as_str();
    crate::nlp_queue::same_text(t, "AND") || crate::nlp_queue::same_text(t, "OR")
        || crate::nlp_queue::same_text(t, "NOT") || crate::nlp_queue::same_text(t, "NEAR")
}

fn same_chars(a: &Vec<char>, b: &Vec<char>) -> (r: bool)
    ensures
        r == (a@ == b@),
{
    if a.len() != b.len() {
        return false;
    }
    let mut i: usize = 0;
    while i < a.len()
        invariant
            a.len() == b.len(),
            i <= a.len(),
            forall|k: int| 0 <= k < i ==> a@[k] == b@[k],
        decreases a.len() - i,
    {
        if a[i] != b[i] {
            return false;
        }
        i += 1;
    }
    assert(a@ =~= b@);
    true
}

/// The match expression a search runs with: nothing for a blank query or one
/// that sanitizing empties (the search then finds nothing), else the
/// sanitized query.
pub fn fts_match_query(query: &str) -> (r: Option<String>)
    ensures
        match r {
            Some(m) => crate::text::trim(query@).len() > 0 && safe_query(query@).len() > 0 && m@
                == safe_query(query@),
            None => crate::text::trim(query@).len() == 0 || safe_query(query@).len() == 0,
        },
{
    let t = crate::text::trim_string(query);
    if t.as_str().unicode_len() == 0 {
        return None;
    }
    let sanitized = sanitize_fts5_query(query);
    if sanitized.as_str().unicode_len() == 0 {
        return None;
    }
    Some(sanitized)
}

/// Makes a raw user query safe for full-text matching: search-syntax characters
/// and boolean operators are removed, consecutive repeated words collapse, and
/// each remaining word is quoted.
pub fn sanitize_fts5_query(raw: &str) -> (r: String)
    ensures
        r@ == safe_query(raw@),
{
    let v = chars_of(raw);
    let mut cleaned: Vec<char> = Vec::new();
    let mut i: usize = 0;
    while i < v.len()
        invariant
            i <= v.len(),
            cleaned@ == query_cleaned(v@.take(i as int)),
        decreases v.len() - i,
    {
        proof {
            assert(v@.take(i + 1).drop_last() =~= v@.take(i as int));
        }
        let c = v[i];
        if c == '"' || c == '(' || c == ')' || c == '*' || c == '^' {
        } else if c == '-' || c == ':' || c == ',' || c == '.' {
            cleaned.push(' ');
        } else {
            cleaned.push(c);
        }
        i += 1;
    }
    assert(v@.take(v.len() as int) =~= v@);
    let words = split_whitespace(&cleaned);
    let ghost ws = char_views(words@);
    let mut kept: Vec<Vec<char>> = Vec::new();
    let mut k: usize = 0;
    while k < words.len()
        invariant
            ws == char_views(words@),
            k <= words.len(),
            char_views(kept@) == dedup_consecutive(query_terms(ws.take(k as int))),
        decreases words.len() - k,
    {
        proof {
            assert(ws.take(k + 1).drop_last() =~= ws.take(k as int));
            assert(ws.take(k + 1).last() == ws[k as int]);
        }
        let w = &words[k];
        let ghost p = query_terms(ws.take(k as int));
        assert(w@ == ws[k as int]);
        if !is_operator_word(w) {
            assert(query_terms(ws.take(k + 1)) == p.push(w@));
            assert(p.push(w@).drop_last() =~= p);
            let repeat = kept.len() > 0 && same_chars(&kept[kept.len() - 1], w);
            if !repeat {
                let ghost before = char_views(kept@);
                let wc = crate::text::slice_chars(w, 0, w.len());
                assert(w@.subrange(0, w@.len() as int) =~= w@);
                kept.push(wc);
                assert(char_views(kept@) =~= before.push(w@));
            } else {
                assert(char_views(kept@).last() == kept@[kept.len() - 1]@);
            }
        } else {
            assert(query_terms(ws.take(k + 1)) == p);
        }
        k += 1;
    }
    assert(ws.take(words.len() as int) =~= ws);
    let ghost terms = char_views(kept@);
    let mut quoted: Vec<Vec<char>> = Vec::new();
    let mut q: usize = 0;
    while q < kept.len()
        invariant
            terms == char_views(kept@),
            q <= kept.len(),
            char_views(quoted@) == quoted_terms(terms.take(q as int)),
        decreases kept.len() - q,
    {
        let mut t: Vec<char> = Vec::new();
        t.push('"');
        let src = &kept[q];
        let mut j: usize = 0;
        while j < src.len()
            invariant
                j <= src.len(),
                t@ == seq!['"'] + src@.take(j as int),
            decreases src.len() - j,
        {
            t.push(src[j]);
            j += 1;
            assert(t@ =~= seq!['"'] + src@.take(j as int));
        }
        t.push('"');
        assert(src@.take(src.len() as int) =~= src@);
        let ghost before = char_views(quoted@);
        assert(t@ =~= seq!['"'] + src@ + seq!['"']);
        assert(src@ == terms[q as int]);
        quoted.push(t);
        proof {
            assert(terms.take(q + 1).drop_last() =~= terms.take(q as int));
            assert(quoted_terms(terms.take(q + 1)) =~= quoted_terms(terms.take(q as int)).push(
                seq!['"'] + terms[q as int] + seq!['"'],
            ));
            assert(char_views(quoted@) =~= before.push(t@));
        }
        q += 1;
        assert(char_views(quoted@) =~= quoted_terms(terms.take(q as int)));
    }
    assert(terms.take(kept.len() as int) =~= terms);
    let mut sep: Vec<char> = Vec::new();
    sep.push(' ');
    assert(sep@ =~= seq![' ']);
    let joined = crate::text::join_chars(&quoted, &sep);
    string_from_chars(&joined)
}

// ── What a safe query is made of ─────────────────────────────────────────────

/// A character of the search syntax that never reaches a safe query.
pub open spec fn is_query_syntax(c: char) -> bool {
    c == '"' || c == '(' || c == ')' || c == '*' || c == '^' || c == '-' || c == ':' || c == ','
        || c == '.'
}

/// The terms that a safe query quotes.
pub open spec fn safe_terms(raw: Seq<char>) -> Seq<Seq<char>> {
    dedup_consecutive(query_terms(split_ws(query_cleaned(raw))))
}

/// A term of a safe query: not empty, not an operator, and made of characters
/// that are neither whitespace nor search syntax.
pub open spec fn is_plain_term(w: Seq<char>) -> bool {
    &&& w.len() > 0
    &&& !is_query_operator(w)
    &&& forall|i: int|
        0 <= i < w.len() ==> !crate::chars::char_is_whitespace(#[trigger] w[i]) && !is_query_syntax(
            w[i],
        )
}

proof fn lemma_cleaned_has_no_syntax(s: Seq<char>)
    ensures
        forall|i: int| 0 <= i < query_cleaned(s).len() ==> !is_query_syntax(#[trigger] query_cleaned(s)[i]),
    decreases s.len(),
{
    if s.len() > 0 {
        let p = query_cleaned(s.drop_last());
        lemma_cleaned_has_no_syntax(s.drop_last());
        let r = query_cleaned(s);
        assert forall|i: int| 0 <= i < r.len() implies !is_query_syntax(#[trigger] r[i]) by {
            if i < p.len() {
                assert(r[i] == p[i]);
            }
        }
    }
}

/// Words of a text without syntax characters: non-empty runs of characters that
/// are neither whitespace nor syntax.
pub open spec fn plain_word(w: Seq<char>) -> bool {
    &&& w.len() > 0
    &&& forall|i: int|
        0 <= i < w.len() ==> !crate::chars::char_is_whitespace(#[trigger] w[i]) && !is_query_syntax(
            w[i],
        )
}

proof fn lemma_split_plain(s: Seq<char>)
    requires
        forall|i: int| 0 <= i < s.len() ==> !is_query_syntax(#[trigger] s[i]),
    ensures
        forall|k: int| 0 <= k < split_ws_state(s).0.len() ==> plain_word(#[trigger] split_ws_state(s).0[k]),
    decreases s.len(),
{
    if s.len() > 0 {
        let d = s.drop_last();
        assert forall|i: int| 0 <= i < d.len() implies !is_query_syntax(#[trigger] d[i]) by {
            assert(d[i] == s[i]);
        }
        lemma_split_plain(d);
        crate::text::lemma_split_state_nonempty(d);
        let (w, in_word) = split_ws_state(d);
        let c = s.last();
        assert(!is_query_syntax(s[s.len() - 1]));
        if !crate::chars::char_is_whitespace(c) {
            if in_word {
                let nw = w.update(w.len() - 1, w.last().push(c));
                assert forall|k: int| 0 <= k < nw.len() implies plain_word(#[trigger] nw[k]) by {
                    if k == w.len() - 1 {
                        let x = w.last().push(c);
                        assert(plain_word(w[w.len() - 1]));
                        assert forall|i: int| 0 <= i < x.len() implies !crate::chars::char_is_whitespace(
                            #[trigger] x[i],
                        ) && !is_query_syntax(x[i]) by {
                            if i < x.len() - 1 {
                                assert(x[i] == w.last()[i]);
                            }
                        }
                    }
                }
            } else {
                let nw = w.push(seq![c]);
                assert forall|k: int| 0 <= k < nw.len() implies plain_word(#[trigger] nw[k]) by {
                    if k == w.len() {
                        assert(nw[k] == seq![c]);
                    }
                }
            }
        }
    }
}

proof fn lemma_terms_from(ws: Seq<Seq<char>>)
    ensures
        forall|k: int|
            0 <= k < query_terms(ws).len() ==> ws.contains(#[trigger] query_terms(ws)[k])
                && !is_query_operator(query_terms(ws)[k]),
    decreases ws.len(),
{
    if ws.len() > 0 {
        let d = ws.drop_last();
        lemma_terms_from(d);
        let r = query_terms(ws);
        assert forall|k: int| 0 <= k < r.len() implies ws.contains(#[trigger] r[k])
            && !is_query_operator(r[k]) by {
            if k < query_terms(d).len() {
                assert(r[k] == query_terms(d)[k]);
                let j = choose|j: int| 0 <= j < d.len() && d[j] == r[k];
                assert(ws[j] == d[j]);
            } else {
                assert(ws[ws.len() - 1] == ws.last());
            }
        }
    }
}

proof fn lemma_dedup_consecutive_from(ws: Seq<Seq<char>>)
    ensures
        forall|k: int|
            0 <= k < dedup_consecutive(ws).len() ==> ws.contains(#[trigger] dedup_consecutive(ws)[k]),
        forall|k: int|
            0 <= k < dedup_consecutive(ws).len() - 1 ==> #[trigger] dedup_consecutive(ws)[k]
                != dedup_consecutive(ws)[k + 1],
    decreases ws.len(),
{
    if ws.len() > 0 {
        let d = ws.drop_last();
        lemma_dedup_consecutive_from(d);
        let p = dedup_consecutive(d);
        let r = dedup_consecutive(ws);
        assert forall|k: int| 0 <= k < r.len() implies ws.contains(#[trigger] r[k]) by {
            if k < p.len() {
                assert(r[k] == p[k]);
                let j = choose|j: int| 0 <= j < d.len() && d[j] == r[k];
                assert(ws[j] == d[j]);
            } else {
                assert(ws[ws.len() - 1] == ws.last());
            }
        }
        assert forall|k: int| 0 <= k < r.len() - 1 implies #[trigger] r[k] != r[k + 1] by {
            if k + 1 < p.len() {
                assert(r[k] == p[k] && r[k + 1] == p[k + 1]);
            }
        }
    }
}

/// The doc promise of the sanitiser: a safe query is its terms, each between
/// double quotes and separated by single spaces, where every term is a plain
/// word (no whitespace, no quote, parenthesis, `*`, `^`, `-`, `:`, `,` or `.`),
/// no term is a boolean operator, and no term repeats the one before it.
pub proof fn law_safe_query_is_quoted_plain_terms(raw: Seq<char>)
    ensures
        safe_query(raw) == join(quoted_terms(safe_terms(raw)), seq![' ']),
        forall|k: int| 0 <= k < safe_terms(raw).len() ==> is_plain_term(#[trigger] safe_terms(raw)[k]),
        forall|k: int|
            0 <= k < safe_terms(raw).len() - 1 ==> #[trigger] safe_terms(raw)[k] != safe_terms(
                raw,
            )[k + 1],
{
    let c = query_cleaned(raw);
    lemma_cleaned_has_no_syntax(raw);
    lemma_split_plain(c);
    let ws = split_ws(c);
    lemma_terms_from(ws);
    let ts = query_terms(ws);
    lemma_dedup_consecutive_from(ts);
    let r = safe_terms(raw);
    assert forall|k: int| 0 <= k < r.len() implies is_plain_term(#[trigger] r[k]) by {
        assert(ts.contains(r[k]));
        let j = choose|j: int| 0 <= j < ts.len() && ts[j] == r[k];
        assert(ws.contains(ts[j]));
        let m = choose|m: int| 0 <= m < ws.len() && ws[m] == ts[j];
        assert(plain_word(ws[m]));
    }
}

// ── Sanitizing twice ─────────────────────────────────────────────────────────

proof fn lemma_cleaned_append(a: Seq<char>, b: Seq<char>)
    ensures
        query_cleaned(a + b) == query_cleaned(a) + query_cleaned(b),
    decreases b.len(),
{
    if b.len() == 0 {
        assert(a + b =~= a);
        assert(query_cleaned(a) + query_cleaned(b) =~= query_cleaned(a));
    } else {
        lemma_cleaned_append(a, b.drop_last());
        assert((a + b).drop_last() =~= a + b.drop_last());
        assert((a + b).last() == b.last());
        assert(query_cleaned(a + b) =~= query_cleaned(a) + query_cleaned(b));
    }
}

proof fn lemma_cleaned_plain(w: Seq<char>)
    requires
        forall|i: int| 0 <= i < w.len() ==> !is_query_syntax(#[trigger] w[i]),
    ensures
        query_cleaned(w) == w,
    decreases w.len(),
{
    if w.len() > 0 {
        let d = w.drop_last();
        assert forall|i: int| 0 <= i < d.len() implies !is_query_syntax(#[trigger] d[i]) by {
            assert(d[i] == w[i]);
        }
        lemma_cleaned_plain(d);
        assert(!is_query_syntax(w[w.len() - 1]));
        assert(d.push(w.last()) =~= w);
    }
}

proof fn lemma_cleaned_quoted_join(t: Seq<Seq<char>>)
    requires
        forall|k: int| 0 <= k < t.len() ==> is_plain_term(#[trigger] t[k]),
    ensures
        query_cleaned(join(quoted_terms(t), seq![' '])) == join(t, seq![' ']),
    decreases t.len(),
{
    let q = quoted_terms(t);
    if t.len() > 0 {
        let w = t.last();
        assert(is_plain_term(t[t.len() - 1]));
        lemma_cleaned_plain(w);
        let qw = seq!['"'] + w + seq!['"'];
        assert(q.last() == qw);
        lemma_cleaned_append(seq!['"'] + w, seq!['"']);
        lemma_cleaned_append(seq!['"'], w);
        assert(query_cleaned(seq!['"']) =~= Seq::<char>::empty()) by {
            assert(seq!['"'].drop_last() =~= Seq::<char>::empty());
            assert(query_cleaned(Seq::<char>::empty()) == Seq::<char>::empty());
            assert(seq!['"'].last() == '"');
        }
        assert(query_cleaned(qw) =~= w);
        if t.len() == 1 {
            assert(join(q, seq![' ']) == q[0]);
        } else {
            let d = t.drop_last();
            assert forall|k: int| 0 <= k < d.len() implies is_plain_term(#[trigger] d[k]) by {
                assert(d[k] == t[k]);
            }
            lemma_cleaned_quoted_join(d);
            assert(q.drop_last() =~= quoted_terms(d));
            assert(query_cleaned(seq![' ']) =~= seq![' ']) by {
                assert(seq![' '].drop_last() =~= Seq::<char>::empty());
                assert(query_cleaned(Seq::<char>::empty()) == Seq::<char>::empty());
                assert(seq![' '].last() == ' ');
                assert(!is_query_syntax(' '));
                assert(Seq::<char>::empty().push(' ') =~= seq![' ']);
            }
            lemma_cleaned_append(join(quoted_terms(d), seq![' ']) + seq![' '], qw);
            lemma_cleaned_append(join(quoted_terms(d), seq![' ']), seq![' ']);
        }
    }
}

proof fn lemma_split_append_word(s: Seq<char>, w: Seq<char>)
    requires
        !split_ws_state(s).1,
        w.len() > 0,
        forall|i: int| 0 <= i < w.len() ==> !crate::chars::char_is_whitespace(#[trigger] w[i]),
    ensures
        split_ws_state(s + w) == (split_ws_state(s).0.push(w), true),
    decreases w.len(),
{
    let d = w.drop_last();
    let c = w.last();
    assert(!crate::chars::char_is_whitespace(w[w.len() - 1]));
    assert((s + w).drop_last() =~= s + d);
    assert((s + w).last() == c);
    if d.len() == 0 {
        assert(s + d =~= s);
        assert(seq![c] =~= w);
    } else {
        assert forall|i: int| 0 <= i < d.len() implies !crate::chars::char_is_whitespace(
            #[trigger] d[i],
        ) by {
            assert(d[i] == w[i]);
        }
        lemma_split_append_word(s, d);
        let ws0 = split_ws_state(s).0;
        assert(d.push(c) =~= w);
        assert(ws0.push(d).last() == d);
        assert(ws0.push(d).update(ws0.len() as int, d.push(c)) =~= ws0.push(w));
    }
}

proof fn lemma_split_join(t: Seq<Seq<char>>)
    requires
        forall|k: int| 0 <= k < t.len() ==> is_plain_term(#[trigger] t[k]),
    ensures
        split_ws_state(join(t, seq![' '])) == (t, t.len() > 0),
    decreases t.len(),
{
    if t.len() == 0 {
        assert(split_ws_state(Seq::<char>::empty()).0 =~= t);
    } else {
        let w = t.last();
        assert(is_plain_term(t[t.len() - 1]));
        if t.len() == 1 {
            assert(join(t, seq![' ']) == t[0]);
            assert(Seq::<char>::empty() + w =~= w);
            lemma_split_append_word(Seq::<char>::empty(), w);
            assert(Seq::<Seq<char>>::empty().push(w) =~= t);
        } else {
            let d = t.drop_last();
            assert forall|k: int| 0 <= k < d.len() implies is_plain_term(#[trigger] d[k]) by {
                assert(d[k] == t[k]);
            }
            lemma_split_join(d);
            let jd = join(d, seq![' ']);
            let js = jd + seq![' '];
            assert(js.drop_last() =~= jd);
            assert(js.last() == ' ');
            assert(crate::chars::char_is_whitespace(' ')) by {
                reveal(crate::chars::char_is_whitespace);
            }
            assert(split_ws_state(js) == (d, false));
            lemma_split_append_word(js, w);
            assert(join(t, seq![' ']) == js + w);
            assert(d.push(w) =~= t);
        }
    }
}

proof fn lemma_terms_keep(t: Seq<Seq<char>>)
    requires
        forall|k: int| 0 <= k < t.len() ==> !is_query_operator(#[trigger] t[k]),
    ensures
        query_terms(t) == t,
    decreases t.len(),
{
    if t.len() > 0 {
        let d = t.drop_last();
        assert forall|k: int| 0 <= k < d.len() implies !is_query_operator(#[trigger] d[k]) by {
            assert(d[k] == t[k]);
        }
        lemma_terms_keep(d);
        assert(!is_query_operator(t[t.len() - 1]));
        assert(d.push(t.last()) =~= t);
    }
}

proof fn lemma_dedup_keep(t: Seq<Seq<char>>)
    requires
        forall|k: int| 0 <= k < t.len() - 1 ==> #[trigger] t[k] != t[k + 1],
    ensures
        dedup_consecutive(t) == t,
    decreases t.len(),
{
    if t.len() > 0 {
        let d = t.drop_last();
        assert forall|k: int| 0 <= k < d.len() - 1 implies #[trigger] d[k] != d[k + 1] by {
            assert(d[k] == t[k] && d[k + 1] == t[k + 1]);
        }
        lemma_dedup_keep(d);
        if d.len() > 0 {
            assert(t[t.len() - 2] != t[t.len() - 1]);
        }
        assert(d.push(t.last()) =~= t);
    }
}

/// Sanitizing a sanitized query changes nothing.
pub proof fn law_safe_query_idempotent(raw: Seq<char>)
    ensures
        safe_query(safe_query(raw)) == safe_query(raw),
{
    law_safe_query_is_quoted_plain_terms(raw);
    let t = safe_terms(raw);
    let q = safe_query(raw);
    lemma_cleaned_quoted_join(t);
    lemma_split_join(t);
    assert forall|k: int| 0 <= k < t.len() implies !is_query_operator(#[trigger] t[k]) by {
        assert(is_plain_term(t[k]));
    }
    lemma_terms_keep(t);
    lemma_dedup_keep(t);
    assert(split_ws(query_cleaned(q)) == t);
}

} // verus!
