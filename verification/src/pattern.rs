//! Regular expressions, compiled and run by the `regex` crate.
//!
//! What a regular expression matches is given a name here (`regex_matches`,
//! `regex_group`): the library's contracts are stated over those names, and the
//! functions that interpret the matches are verified against them.

use vstd::prelude::*;

verus! {

#[verifier::external_type_specification]
#[verifier::external_body]
pub struct ExRegex(regex::Regex);

/// Whether `regex::Regex::new` accepts the pattern.
pub uninterp spec fn regex_compiles(pattern: Seq<char>) -> bool;

/// The successive non-overlapping matches that `Regex::find_iter` yields for
/// the pattern on the haystack, each as `(start byte, end byte, matched text)`.
pub uninterp spec fn regex_matches(pattern: Seq<char>, haystack: Seq<char>) -> Seq<
    (usize, usize, Seq<char>),
>;

/// `Regex::captures` on the haystack followed by `Captures::name` for the group:
/// `None` when the pattern does not match, `Some(None)` when the named group
/// took no part in the match, `Some(Some(text))` otherwise.
pub uninterp spec fn regex_group(pattern: Seq<char>, haystack: Seq<char>, group: Seq<char>) -> Option<
    Option<Seq<char>>,
>;

/// A compiled regular expression with the pattern it was compiled from.
pub struct CompiledPattern {
    source: String,
    re: regex::Regex,
}

impl View for CompiledPattern {
    type V = Seq<char>;

    closed spec fn view(&self) -> Seq<char> {
        self.source@
    }
}

pub open spec fn match_views(v: Seq<(usize, usize, String)>) -> Seq<(usize, usize, Seq<char>)> {
    v.map_values(|m: (usize, usize, String)| (m.0, m.1, m.2@))
}

pub open spec fn group_view(g: Option<Option<String>>) -> Option<Option<Seq<char>>> {
    match g {
        Some(Some(s)) => Some(Some(s@)),
        Some(None) => Some(None),
        None => None,
    }
}

/// Compiles `pattern` with `regex::Regex::new`; `None` when the crate rejects it.
#[verifier::external_body]
pub(crate) fn compile_pattern(pattern: &str) -> (r: Option<CompiledPattern>)
    ensures
        r.is_some() == regex_compiles(pattern@),
        r matches Some(p) ==> p@ == pattern@,
{
    match regex::Regex::new(pattern) {
        Ok(re) => Some(CompiledPattern { source: pattern.to_string(), re }),
        Err(_) => None,
    }
}

/// The matches of `Regex::find_iter`, in order, as `(start, end, text)`.
/// The crate guarantees `start <= end` for each match, and that each match
/// starts where or after the previous one ended.
#[verifier::external_body]
pub(crate) fn find_all(p: &CompiledPattern, haystack: &str) -> (r: Vec<(usize, usize, String)>)
    ensures
        match_views(r@) == regex_matches(p@, haystack@),
        forall|i: int| 0 <= i < r.len() ==> (#[trigger] r@[i]).0 <= r@[i].1,
        forall|i: int| 0 < i < r.len() ==> r@[i - 1].1 <= (#[trigger] r@[i]).0,
{
    p.re.find_iter(haystack).map(|m| (m.start(), m.end(), m.as_str().to_string())).collect()
}

/// `Regex::captures` followed by `Captures::name(group)`, as owned text.
#[verifier::external_body]
pub(crate) fn capture_group(p: &CompiledPattern, haystack: &str, group: &str) -> (r: Option<
    Option<String>,
>)
    ensures
        group_view(r) == regex_group(p@, haystack@, group@),
{
    match p.re.captures(haystack) {
        Some(caps) => Some(caps.name(group).map(|m| m.as_str().to_string())),
        None => None,
    }
}

} // verus!
