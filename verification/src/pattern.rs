//! Regular expressions, compiled and matched by the `regex` crate.

use vstd::prelude::*;

verus! {

/// A compiled regular expression of the `regex` crate. Nothing is known of what it holds.
#[verifier::external_type_specification]
#[verifier::external_body]
pub struct ExRegex(regex::Regex);

/// Whether `pattern` is a regular expression that the `regex` crate compiles.
pub uninterp spec fn regex_valid(pattern: Seq<char>) -> bool;

/// Whether some part of `text` matches the regular expression `pattern`.
pub uninterp spec fn regex_accepts(pattern: Seq<char>, text: Seq<char>) -> bool;

/// What matching `text` against `pattern` gives: `None` where `pattern` is no regular
/// expression, else whether some part of `text` matches it.
pub open spec fn regex_verdict(pattern: Seq<char>, text: Seq<char>) -> Option<bool> {
    if regex_valid(pattern) {
        Some(regex_accepts(pattern, text))
    } else {
        None
    }
}

/// A regular expression with the text that it was compiled from.
pub struct Pattern {
    source: String,
    compiled: regex::Regex,
}

impl Pattern {
    /// The text that the pattern was compiled from.
    pub closed spec fn source(&self) -> Seq<char> {
        self.source@
    }
}

/// Compiles `pattern` with `regex::Regex::new`.
///
/// Trusted: whether a text compiles depends on the text alone.
#[verifier::external_body]
pub(crate) fn compile(pattern: &str) -> (r: Option<Pattern>)
    ensures
        r is Some <==> regex_valid(pattern@),
        r is Some ==> r->0.source() == pattern@,
{
    match regex::Regex::new(pattern) {
        Ok(compiled) => Some(Pattern { source: pattern.to_string(), compiled }),
        Err(_) => None,
    }
}

/// Asks `regex::Regex::is_match` whether some part of `text` matches the pattern.
///
/// Trusted: the answer depends on the text of the pattern and on `text` alone.
#[verifier::external_body]
pub(crate) fn is_match(pattern: &Pattern, text: &str) -> (b: bool)
    ensures
        b == regex_accepts(pattern.source(), text@),
{
    pattern.compiled.is_match(text)
}

} // verus!
