//! Regular expressions, compiled and run by the `regex` crate.
//!
//! The engine is not verified. What this crate relies on is stated here:
//! whether a pattern compiles depends on the pattern alone, a compiled
//! expression remembers the text it was compiled from, and what it matches
//! depends on the expression and the haystack alone.

use vstd::prelude::*;

verus! {

/// `regex::Regex`, a compiled expression. Nothing is known of what is inside.
#[verifier::external_type_specification]
#[verifier::external_body]
pub struct ExRegex(regex::Regex);

/// `regex::Error`, why a pattern did not compile. Nothing is known of what
/// is inside.
#[verifier::external_type_specification]
#[verifier::external_body]
pub struct ExRegexError(regex::Error);

/// The text a compiled expression was made from (`Regex::as_str`).
pub uninterp spec fn regex_source(re: regex::Regex) -> Seq<char>;

/// Whether the engine compiles `pattern` (`Regex::new` returns `Ok`).
pub uninterp spec fn regex_compiles(pattern: Seq<char>) -> bool;

/// Whether a compiled expression matches somewhere in `text`
/// (`Regex::is_match`).
pub uninterp spec fn regex_accepts(re: regex::Regex, text: Seq<char>) -> bool;

/// `Regex::new`: compiles `pattern` with the engine's default options. It
/// succeeds exactly on the patterns named by [`regex_compiles`], and the
/// expression it returns keeps `pattern` as its source.
#[verifier::external_body]
pub(crate) fn compile(pattern: &str) -> (compiled: Result<regex::Regex, regex::Error>)
    ensures
        compiled is Ok <==> regex_compiles(pattern@),
        compiled matches Ok(re) ==> regex_source(re) == pattern@,
{
    regex::Regex::new(pattern)
}

/// `Regex::is_match`: whether `re` matches anywhere in `text`, which is what
/// [`regex_accepts`] names.
#[verifier::external_body]
pub(crate) fn is_match(re: &regex::Regex, text: &str) -> (matched: bool)
    ensures
        matched == regex_accepts(*re, text@),
{
    re.is_match(text)
}

} // verus!
