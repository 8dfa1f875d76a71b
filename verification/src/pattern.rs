//! Path patterns: what the library takes on trust from the `regex` crate.
//!
//! A compiled pattern is opaque. The library knows two things of it, each
//! by a name of its own: the text it was compiled from, and which texts it
//! matches. A third name says which texts compile at all.

use vstd::prelude::*;
use regex::Regex;

verus! {

/// Trusted: `regex::Regex`, a compiled pattern, carried as an opaque value.
#[verifier::external_type_specification]
#[verifier::external_body]
pub struct ExRegex(Regex);

/// Trusted: `regex::Error`, why a pattern did not compile, carried as an
/// opaque value.
#[verifier::external_type_specification]
#[verifier::external_body]
pub struct ExRegexError(regex::Error);

/// Whether `text` compiles: whether `Regex::new` accepts it, which it does
/// where the text is a well-formed pattern whose compiled program stays
/// within the size limit that `Regex::new` sets.
pub uninterp spec fn spec_compiles(text: Seq<char>) -> bool;

/// The pattern text that a compiled pattern holds: what `Regex::as_str`
/// gives back, the string that the pattern was compiled from.
pub uninterp spec fn spec_pattern_text(re: Regex) -> Seq<char>;

/// Whether the compiled pattern `re` matches somewhere in `haystack`: what
/// `Regex::is_match` answers.
pub uninterp spec fn spec_is_match(re: Regex, haystack: Seq<char>) -> bool;

/// The pattern texts of compiled patterns, in order.
pub open spec fn spec_texts(regexes: Seq<Regex>) -> Seq<Seq<char>> {
    Seq::new(regexes.len(), |i: int| spec_pattern_text(regexes[i]))
}

/// Trusted: `Regex::new` compiles `re`. Whether it succeeds depends on the
/// text alone, and a pattern that it hands back holds the text it was
/// given.
pub assume_specification[ Regex::new ](re: &str) -> (r: Result<Regex, regex::Error>)
    ensures
        r is Ok <==> spec_compiles(re@),
        r matches Ok(compiled) ==> spec_pattern_text(compiled) == re@,
;

/// Trusted: `Regex::is_match` reports whether the pattern matches anywhere
/// in `haystack`; the answer depends on the compiled pattern and the
/// haystack alone.
pub assume_specification[ Regex::is_match ](re: &Regex, haystack: &str) -> (b: bool)
    ensures
        b == spec_is_match(*re, haystack@),
;

/// Trusted: a clone of a `Regex` is the same compiled pattern: it holds the
/// same text and matches the same haystacks.
pub assume_specification[ <Regex as Clone>::clone ](re: &Regex) -> (r: Regex)
    ensures
        r == *re,
;

} // verus!
