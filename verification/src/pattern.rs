//! Regular-expression replacement through the `regex` crate.
//!
//! What a replacement produces is the `regex` crate's to define; the library
//! names it and states its own rules over those names.
use vstd::prelude::*;

verus! {

#[verifier::external_type_specification]
#[verifier::external_body]
pub struct ExRegex(regex::Regex);

/// Whether `regex::Regex::new` accepts the pattern.
pub uninterp spec fn regex_compiles(pattern: Seq<char>) -> bool;

/// What `regex::Regex::replace` makes of a text: the leftmost-first match of
/// the pattern replaced by the replacement, `$` references expanded.
pub uninterp spec fn regex_replaced(pattern: Seq<char>, haystack: Seq<char>, replacement: Seq<char>) -> Seq<char>;

/// What `regex::Regex::replace_all` makes of a text: every non-overlapping
/// match of the pattern replaced.
pub uninterp spec fn regex_replaced_all(
    pattern: Seq<char>,
    haystack: Seq<char>,
    replacement: Seq<char>,
) -> Seq<char>;

/// A compiled regular expression and the pattern it was compiled from.
pub struct Pattern {
    source: String,
    compiled: regex::Regex,
}

impl Pattern {
    pub closed spec fn source(&self) -> Seq<char> {
        self.source@
    }
}

/// `regex::Regex::new`: compiles a pattern, `None` when the crate refuses it.
#[verifier::external_body]
pub(crate) fn compile_pattern(pattern: &str) -> (r: Option<Pattern>)
    ensures
        (r is Some) == regex_compiles(pattern@),
        r matches Some(p) ==> p.source() == pattern@,
{
    match regex::Regex::new(pattern) {
        Ok(compiled) => Some(Pattern { source: pattern.to_string(), compiled }),
        Err(_) => None,
    }
}

/// `regex::Regex::replace`.
#[verifier::external_body]
pub(crate) fn replace_first(p: &Pattern, haystack: &str, replacement: &str) -> (r: String)
    ensures
        r@ == regex_replaced(p.source(), haystack@, replacement@),
{
    p.compiled.replace(haystack, replacement).into_owned()
}

/// `regex::Regex::replace_all`.
#[verifier::external_body]
pub(crate) fn replace_every(p: &Pattern, haystack: &str, replacement: &str) -> (r: String)
    ensures
        r@ == regex_replaced_all(p.source(), haystack@, replacement@),
{
    p.compiled.replace_all(haystack, replacement).into_owned()
}

/// The text after replacing every match of a pattern, or the text unchanged
/// when the pattern does not compile.
pub open spec fn replaced_all_or_kept(pattern: Seq<char>, text: Seq<char>, replacement: Seq<char>) -> Seq<char> {
    if regex_compiles(pattern) {
        regex_replaced_all(pattern, text, replacement)
    } else {
        text
    }
}

/// The text after replacing the first match of a pattern, or the text
/// unchanged when the pattern does not compile.
pub open spec fn replaced_or_kept(pattern: Seq<char>, text: Seq<char>, replacement: Seq<char>) -> Seq<char> {
    if regex_compiles(pattern) {
        regex_replaced(pattern, text, replacement)
    } else {
        text
    }
}

/// Replaces every match of `pattern` in `text`; a pattern that does not
/// compile leaves the text as it is.
pub fn replace_all_matches(pattern: &str, text: &str, replacement: &str) -> (r: String)
    ensures
        r@ == replaced_all_or_kept(pattern@, text@, replacement@),
{
    match compile_pattern(pattern) {
        Some(p) => replace_every(&p, text, replacement),
        None => text.to_owned(),
    }
}

/// Replaces the first match of `pattern` in `text`; a pattern that does not
/// compile leaves the text as it is.
pub fn replace_first_match(pattern: &str, text: &str, replacement: &str) -> (r: String)
    ensures
        r@ == replaced_or_kept(pattern@, text@, replacement@),
{
    match compile_pattern(pattern) {
        Some(p) => replace_first(&p, text, replacement),
        None => text.to_owned(),
    }
}

} // verus!
