//! Trimming, whitespace splitting and joining, stated over character sequences.

use vstd::prelude::*;
use crate::chars::{
    char_is_alphanumeric, char_is_whitespace, chars_of, is_alphanumeric, is_whitespace,
    string_from_chars,
};

verus! {

/// A class of characters that trimming functions strip from the edges of a string.
#[derive(Clone, Copy, PartialEq, Eq, Structural, Debug)]
pub enum CharClass {
    /// `char::is_whitespace`.
    Whitespace,
    /// The edge symbols stripped from entity values: punctuation, quotes, dashes,
    /// brackets and whitespace, but never an alphanumeric character.
    EntityEdge,
    /// The character `#`.
    Hash,
}

/// Punctuation and quote marks stripped from the edges of entity values.
pub open spec fn is_listed_edge_punct(c: char) -> bool {
    c == '"' || c == '\'' || c == '\u{201C}' || c == '\u{201D}' || c == '\u{2018}'
        || c == '\u{2019}' || c == '-' || c == '\u{2013}' || c == '\u{2014}' || c == '\u{AB}'
        || c == '\u{BB}' || c == '(' || c == ')' || c == '[' || c == ']' || c == '{'
        || c == '}' || c == ':' || c == ';' || c == ',' || c == '.' || c == '!' || c == '?'
        || c == '/' || c == '\\' || c == '|'
}

pub open spec fn in_class(cls: CharClass, c: char) -> bool {
    match cls {
        CharClass::Whitespace => char_is_whitespace(c),
        CharClass::EntityEdge => !char_is_alphanumeric(c) && (is_listed_edge_punct(c)
            || char_is_whitespace(c)),
        CharClass::Hash => c == '#',
    }
}

pub fn class_contains(cls: CharClass, c: char) -> (b: bool)
    ensures
        b == in_class(cls, c),
{
    match cls {
        CharClass::Whitespace => is_whitespace(c),
        CharClass::EntityEdge => {
            if is_alphanumeric(c) {
                false
            } else {
                c == '"' || c == '\'' || c == '\u{201C}' || c == '\u{201D}' || c == '\u{2018}'
                    || c == '\u{2019}' || c == '-' || c == '\u{2013}' || c == '\u{2014}' || c
                    == '\u{AB}' || c == '\u{BB}' || c == '(' || c == ')' || c == '[' || c == ']'
                    || c == '{' || c == '}' || c == ':' || c == ';' || c == ',' || c == '.' || c
                    == '!' || c == '?' || c == '/' || c == '\\' || c == '|' || is_whitespace(c)
            }
        },
        CharClass::Hash => c == '#',
    }
}

/// `s` without its leading characters of class `cls` (`str::trim_start_matches`).
pub open spec fn strip_start(s: Seq<char>, cls: CharClass) -> Seq<char>
    decreases s.len(),
{
    if s.len() > 0 && in_class(cls, s[0]) {
        strip_start(s.drop_first(), cls)
    } else {
        s
    }
}

/// `s` without its trailing characters of class `cls` (`str::trim_end_matches`).
pub open spec fn strip_end(s: Seq<char>, cls: CharClass) -> Seq<char>
    decreases s.len(),
{
    if s.len() > 0 && in_class(cls, s.last()) {
        strip_end(s.drop_last(), cls)
    } else {
        s
    }
}

/// `s` without leading and trailing characters of class `cls` (`str::trim_matches`).
pub open spec fn strip_both(s: Seq<char>, cls: CharClass) -> Seq<char> {
    strip_end(strip_start(s, cls), cls)
}

/// `str::trim`.
pub open spec fn trim(s: Seq<char>) -> Seq<char> {
    strip_both(s, CharClass::Whitespace)
}

proof fn lemma_strip_start_skip(s: Seq<char>, cls: CharClass, i: int)
    requires
        0 <= i <= s.len(),
        forall|k: int| 0 <= k < i ==> in_class(cls, #[trigger] s[k]),
    ensures
        strip_start(s, cls) == strip_start(s.subrange(i, s.len() as int), cls),
    decreases i,
{
    if i > 0 {
        assert(s.drop_first() =~= s.subrange(1, s.len() as int));
        lemma_strip_start_skip(s.drop_first(), cls, i - 1);
        assert(s.drop_first().subrange(i - 1, s.drop_first().len() as int) =~= s.subrange(
            i,
            s.len() as int,
        ));
    } else {
        assert(s.subrange(0, s.len() as int) =~= s);
    }
}

proof fn lemma_strip_end_skip(s: Seq<char>, cls: CharClass, j: int)
    requires
        0 <= j <= s.len(),
        forall|k: int| j <= k < s.len() ==> in_class(cls, #[trigger] s[k]),
    ensures
        strip_end(s, cls) == strip_end(s.subrange(0, j), cls),
    decreases s.len() - j,
{
    if j < s.len() {
        lemma_strip_end_skip(s.drop_last(), cls, j);
        assert(s.drop_last().subrange(0, j) =~= s.subrange(0, j));
    } else {
        assert(s.subrange(0, s.len() as int) =~= s);
    }
}

proof fn lemma_strip_start_head(s: Seq<char>, cls: CharClass)
    ensures
        strip_start(s, cls).len() > 0 ==> !in_class(cls, strip_start(s, cls)[0]),
    decreases s.len(),
{
    if s.len() > 0 && in_class(cls, s[0]) {
        lemma_strip_start_head(s.drop_first(), cls);
    }
}

/// Stripping the end keeps a prefix, which then does not end in the class.
pub proof fn lemma_strip_end_prefix(s: Seq<char>, cls: CharClass)
    ensures
        strip_end(s, cls).len() <= s.len(),
        strip_end(s, cls) == s.subrange(0, strip_end(s, cls).len() as int),
        strip_end(s, cls).len() > 0 ==> !in_class(cls, strip_end(s, cls).last()),
    decreases s.len(),
{
    if s.len() > 0 && in_class(cls, s.last()) {
        lemma_strip_end_prefix(s.drop_last(), cls);
        let r = strip_end(s.drop_last(), cls);
        assert(s.drop_last().subrange(0, r.len() as int) =~= s.subrange(0, r.len() as int));
    } else {
        assert(s.subrange(0, s.len() as int) =~= s);
    }
}

/// The shape of `strip_both`: a contiguous part of `s` whose dropped ends are
/// all of the class and whose own ends are not.
pub proof fn lemma_strip_both_shape(s: Seq<char>, cls: CharClass) -> (ij: (int, int))
    ensures
        0 <= ij.0 <= ij.1 <= s.len(),
        strip_both(s, cls) == s.subrange(ij.0, ij.1),
        forall|k: int| 0 <= k < ij.0 ==> in_class(cls, #[trigger] s[k]),
        forall|k: int| ij.1 <= k < s.len() ==> in_class(cls, #[trigger] s[k]),
        ij.0 < ij.1 ==> !in_class(cls, s[ij.0]) && !in_class(cls, s[ij.1 - 1]),
{
    let i = lemma_strip_start_shape(s, cls);
    let t = s.subrange(i, s.len() as int);
    lemma_strip_end_prefix(t, cls);
    let n = strip_end(t, cls).len() as int;
    lemma_strip_end_tail(t, cls);
    assert(strip_both(s, cls) == t.subrange(0, n));
    assert(t.subrange(0, n) =~= s.subrange(i, i + n));
    assert forall|k: int| i + n <= k < s.len() implies in_class(cls, #[trigger] s[k]) by {
        assert(s[k] == t[k - i]);
    }
    if n > 0 {
        assert(s[i] == t[0]);
        assert(t.subrange(0, n)[0] == t[0]);
        assert(strip_end(t, cls).last() == s[i + n - 1]);
    }
    (i, i + n)
}

/// Stripping the start keeps a suffix from the first character outside the class.
pub proof fn lemma_strip_start_shape(s: Seq<char>, cls: CharClass) -> (i: int)
    ensures
        0 <= i <= s.len(),
        strip_start(s, cls) == s.subrange(i, s.len() as int),
        forall|k: int| 0 <= k < i ==> in_class(cls, #[trigger] s[k]),
        i < s.len() ==> !in_class(cls, s[i]),
    decreases s.len(),
{
    if s.len() > 0 && in_class(cls, s[0]) {
        let i1 = lemma_strip_start_shape(s.drop_first(), cls);
        assert(s.drop_first().subrange(i1, s.drop_first().len() as int) =~= s.subrange(
            i1 + 1,
            s.len() as int,
        ));
        assert forall|k: int| 0 <= k < i1 + 1 implies in_class(cls, #[trigger] s[k]) by {
            if k > 0 {
                assert(s[k] == s.drop_first()[k - 1]);
            }
        }
        if i1 + 1 < s.len() {
            assert(s[i1 + 1] == s.drop_first()[i1]);
        }
        i1 + 1
    } else {
        assert(s.subrange(0, s.len() as int) =~= s);
        0
    }
}

/// Every character stripped from the end is in the class.
pub proof fn lemma_strip_end_tail(s: Seq<char>, cls: CharClass)
    ensures
        forall|k: int|
            strip_end(s, cls).len() <= k < s.len() ==> in_class(cls, #[trigger] s[k]),
    decreases s.len(),
{
    if s.len() > 0 && in_class(cls, s.last()) {
        lemma_strip_end_tail(s.drop_last(), cls);
        assert forall|k: int| strip_end(s, cls).len() <= k < s.len() implies in_class(
            cls,
            #[trigger] s[k],
        ) by {
            if k < s.len() - 1 {
                assert(s[k] == s.drop_last()[k]);
            }
        }
    }
}

/// A sequence whose ends are not of the class is its own `strip_both`.
pub proof fn lemma_strip_both_fixed(s: Seq<char>, cls: CharClass)
    requires
        s.len() > 0 ==> !in_class(cls, s[0]) && !in_class(cls, s.last()),
    ensures
        strip_both(s, cls) == s,
{
    assert(strip_start(s, cls) == s);
    assert(strip_end(s, cls) == s);
}

/// Trimming a trimmed string changes nothing.
pub proof fn lemma_trim_idempotent(s: Seq<char>)
    ensures
        trim(trim(s)) == trim(s),
{
    let cls = CharClass::Whitespace;
    let a = strip_start(s, cls);
    let b = strip_end(a, cls);
    lemma_strip_start_head(s, cls);
    lemma_strip_end_prefix(a, cls);
    if b.len() > 0 {
        assert(b[0] == a[0]);
    }
    assert(strip_start(b, cls) == b);
    assert(strip_end(b, cls) == b);
}

/// The bounds `(start, end)` of `strip_both(v@, cls)` inside `v`.
pub fn strip_bounds(v: &Vec<char>, cls: CharClass) -> (r: (usize, usize))
    ensures
        r.0 <= r.1 <= v.len(),
        v@.subrange(r.0 as int, r.1 as int) == strip_both(v@, cls),
        strip_start(v@, cls) == v@.subrange(r.0 as int, v.len() as int),
{
    let mut i: usize = 0;
    while i < v.len() && class_contains(cls, v[i])
        invariant
            i <= v.len(),
            forall|k: int| 0 <= k < i ==> in_class(cls, #[trigger] v@[k]),
        decreases v.len() - i,
    {
        i += 1;
    }
    proof {
        lemma_strip_start_skip(v@, cls, i as int);
    }
    let ghost rest = v@.subrange(i as int, v.len() as int);
    assert(strip_start(rest, cls) == rest);
    let mut j: usize = v.len();
    while j > i && class_contains(cls, v[j - 1])
        invariant
            i <= j <= v.len(),
            forall|k: int| j <= k < v.len() ==> in_class(cls, #[trigger] v@[k]),
        decreases j,
    {
        j -= 1;
    }
    proof {
        lemma_strip_end_skip(rest, cls, j - i);
        assert(rest.subrange(0, j - i) =~= v@.subrange(i as int, j as int));
        if j > i {
            assert(!in_class(cls, rest.subrange(0, j - i).last()));
        }
    }
    (i, j)
}

/// The length of `strip_end(v@, cls)`: `v[..r]` is `v` without trailing `cls` characters.
pub fn end_bound(v: &Vec<char>, cls: CharClass) -> (r: usize)
    ensures
        r <= v.len(),
        v@.subrange(0, r as int) == strip_end(v@, cls),
{
    let mut j: usize = v.len();
    while j > 0 && class_contains(cls, v[j - 1])
        invariant
            j <= v.len(),
            forall|k: int| j <= k < v.len() ==> in_class(cls, #[trigger] v@[k]),
        decreases j,
    {
        j -= 1;
    }
    proof {
        lemma_strip_end_skip(v@, cls, j as int);
        if j > 0 {
            assert(!in_class(cls, v@.subrange(0, j as int).last()));
        } else {
            assert(v@.subrange(0, 0) =~= Seq::<char>::empty());
        }
    }
    j
}

/// The start of `strip_start(v@, cls)`: `v[r..]` is `v` without leading `cls` characters.
pub fn start_bound(v: &Vec<char>, cls: CharClass) -> (r: usize)
    ensures
        r <= v.len(),
        v@.subrange(r as int, v.len() as int) == strip_start(v@, cls),
{
    let mut i: usize = 0;
    while i < v.len() && class_contains(cls, v[i])
        invariant
            i <= v.len(),
            forall|k: int| 0 <= k < i ==> in_class(cls, #[trigger] v@[k]),
        decreases v.len() - i,
    {
        i += 1;
    }
    proof {
        lemma_strip_start_skip(v@, cls, i as int);
    }
    i
}

/// The characters `v[start..end]` as a vector.
pub fn slice_chars(v: &Vec<char>, start: usize, end: usize) -> (r: Vec<char>)
    requires
        start <= end <= v.len(),
    ensures
        r@ == v@.subrange(start as int, end as int),
{
    let mut r: Vec<char> = Vec::new();
    let mut k = start;
    while k < end
        invariant
            start <= k <= end <= v.len(),
            r@ == v@.subrange(start as int, k as int),
        decreases end - k,
    {
        r.push(v[k]);
        k += 1;
        assert(r@ =~= v@.subrange(start as int, k as int));
    }
    r
}

/// `s` with leading and trailing characters of class `cls` removed.
pub fn trim_class(s: &str, cls: CharClass) -> (r: Vec<char>)
    ensures
        r@ == strip_both(s@, cls),
{
    let v = chars_of(s);
    let (a, b) = strip_bounds(&v, cls);
    slice_chars(&v, a, b)
}

/// `str::trim` as a vector of characters.
pub fn trim_chars(s: &str) -> (r: Vec<char>)
    ensures
        r@ == trim(s@),
{
    trim_class(s, CharClass::Whitespace)
}

/// `str::trim`.
pub fn trim_string(s: &str) -> (r: String)
    ensures
        r@ == trim(s@),
{
    let v = trim_chars(s);
    string_from_chars(&v)
}


/// The words of `s` paired with whether `s` ends inside a word: the state of a
/// left-to-right scan that splits on `char::is_whitespace`.
pub open spec fn split_ws_state(s: Seq<char>) -> (Seq<Seq<char>>, bool)
    decreases s.len(),
{
    if s.len() == 0 {
        (seq![], false)
    } else {
        let (w, in_word) = split_ws_state(s.drop_last());
        let c = s.last();
        if char_is_whitespace(c) {
            (w, false)
        } else if in_word {
            (w.update(w.len() - 1, w.last().push(c)), true)
        } else {
            (w.push(seq![c]), true)
        }
    }
}

/// `str::split_whitespace`: the maximal runs of non-whitespace characters, in order.
pub open spec fn split_ws(s: Seq<char>) -> Seq<Seq<char>> {
    split_ws_state(s).0
}

/// `words.join(sep)`.
pub open spec fn join(words: Seq<Seq<char>>, sep: Seq<char>) -> Seq<char>
    decreases words.len(),
{
    if words.len() == 0 {
        seq![]
    } else if words.len() == 1 {
        words[0]
    } else {
        join(words.drop_last(), sep) + sep + words.last()
    }
}

/// `s.split_whitespace().collect::<Vec<_>>().join(" ")`: the words of `s` separated
/// by single spaces.
pub open spec fn collapse_ws(s: Seq<char>) -> Seq<char> {
    join(split_ws(s), seq![' '])
}

pub open spec fn char_views(v: Seq<Vec<char>>) -> Seq<Seq<char>> {
    v.map_values(|x: Vec<char>| x@)
}

pub proof fn lemma_split_state_nonempty(s: Seq<char>)
    ensures
        split_ws_state(s).1 ==> split_ws_state(s).0.len() > 0,
    decreases s.len(),
{
    if s.len() > 0 {
        lemma_split_state_nonempty(s.drop_last());
    }
}

/// The words of `s`, split on `char::is_whitespace`.
pub fn split_whitespace(s: &Vec<char>) -> (r: Vec<Vec<char>>)
    ensures
        char_views(r@) == split_ws(s@),
{
    let mut words: Vec<Vec<char>> = Vec::new();
    let mut in_word = false;
    let mut i: usize = 0;
    while i < s.len()
        invariant
            i <= s.len(),
            (char_views(words@), in_word) == split_ws_state(s@.take(i as int)),
            in_word ==> words.len() > 0,
        decreases s.len() - i,
    {
        let c = s[i];
        proof {
            assert(s@.take(i + 1).drop_last() =~= s@.take(i as int));
            assert(s@.take(i + 1).last() == c);
        }
        if is_whitespace(c) {
            in_word = false;
        } else if in_word {
            let last = words.len() - 1;
            let mut w = words.remove(last);
            w.push(c);
            words.push(w);
            proof {
                let ghost prev = split_ws_state(s@.take(i as int)).0;
                assert(char_views(words@) =~= prev.update(prev.len() - 1, prev.last().push(c)));
            }
        } else {
            let mut w: Vec<char> = Vec::new();
            w.push(c);
            words.push(w);
            in_word = true;
            proof {
                let ghost prev = split_ws_state(s@.take(i as int)).0;
                assert(char_views(words@) =~= prev.push(seq![c]));
            }
        }
        i += 1;
    }
    assert(s@.take(s.len() as int) =~= s@);
    words
}

/// `words.join(sep)`.
pub fn join_chars(words: &Vec<Vec<char>>, sep: &Vec<char>) -> (r: Vec<char>)
    ensures
        r@ == join(char_views(words@), sep@),
{
    let mut r: Vec<char> = Vec::new();
    let mut i: usize = 0;
    while i < words.len()
        invariant
            i <= words.len(),
            r@ == join(char_views(words@).take(i as int), sep@),
        decreases words.len() - i,
    {
        let ghost prev = r@;
        if i > 0 {
            let mut k: usize = 0;
            while k < sep.len()
                invariant
                    k <= sep.len(),
                    r@ == prev + sep@.take(k as int),
                decreases sep.len() - k,
            {
                r.push(sep[k]);
                k += 1;
                assert(r@ =~= prev + sep@.take(k as int));
            }
        }
        let ghost mid = r@;
        let w = &words[i];
        let mut k: usize = 0;
        while k < w.len()
            invariant
                k <= w.len(),
                r@ == mid + w@.take(k as int),
            decreases w.len() - k,
        {
            r.push(w[k]);
            k += 1;
            assert(r@ =~= mid + w@.take(k as int));
        }
        proof {
            let ghost ws = char_views(words@);
            assert(ws.take(i + 1).drop_last() =~= ws.take(i as int));
            assert(ws.take(i + 1).last() == w@);
            assert(w@.take(w@.len() as int) =~= w@);
            assert(sep@.take(sep@.len() as int) =~= sep@);
            if i == 0 {
                assert(r@ =~= w@);
            } else {
                assert(r@ =~= prev + sep@ + w@);
            }
        }
        i += 1;
    }
    assert(char_views(words@).take(words.len() as int) =~= char_views(words@));
    r
}

/// The words of `s` separated by single spaces.
pub fn collapse_whitespace(s: &Vec<char>) -> (r: Vec<char>)
    ensures
        r@ == collapse_ws(s@),
{
    let words = split_whitespace(s);
    let mut sep: Vec<char> = Vec::new();
    sep.push(' ');
    assert(sep@ =~= seq![' ']);
    join_chars(&words, &sep)
}

} // verus!
