//! The regular-expression engine as the rule engine sees it: a compiled
//! pattern is an opaque value that remembers its source text.

use vstd::prelude::*;

verus! {

/// `regex::Regex`, a compiled regular expression. Nothing inside it is
/// visible here.
#[verifier::external_type_specification]
#[verifier::external_body]
pub struct ExRegex(regex::Regex);

/// `regex::Error`, the engine's reason for refusing a pattern.
#[verifier::external_type_specification]
#[verifier::external_body]
pub struct ExRegexError(regex::Error);

/// Whether `Regex::new` accepts `pattern`: it is well formed and its compiled
/// form stays within the engine's default size limit.
pub uninterp spec fn pattern_compiles(pattern: Seq<char>) -> bool;

/// Whether the expression that `Regex::new` makes of `pattern` matches
/// anywhere in `text`.
pub uninterp spec fn pattern_matches(pattern: Seq<char>, text: Seq<char>) -> bool;

/// The pattern text that a compiled expression was made of.
pub uninterp spec fn regex_source(compiled: regex::Regex) -> Seq<char>;

/// `Regex::new` compiles `re` with the default configuration. Whether it
/// succeeds depends on the pattern alone, and the expression it makes keeps
/// the text it was made of.
pub assume_specification[ regex::Regex::new ](re: &str) -> (compiled: Result<
    regex::Regex,
    regex::Error,
>)
    ensures
        compiled is Ok <==> pattern_compiles(re@),
        compiled matches Ok(expression) ==> regex_source(expression) == re@,
;

/// `Regex::is_match` reports whether the expression matches anywhere in the
/// haystack. This is stated of expressions that `Regex::new` made, which are
/// the only ones this library can hold: for them the answer depends on the
/// pattern text and the haystack alone. (An expression configured through a
/// builder could answer differently for the same text.)
pub assume_specification[ regex::Regex::is_match ](expression: &regex::Regex, haystack: &str) -> (found:
    bool)
    ensures
        found == pattern_matches(regex_source(*expression), haystack@),
;

/// `regex::Error` rendered through its `Display` impl: the engine's own
/// account of why a pattern was refused. Nothing is claimed of the wording.
#[verifier::external_body]
pub(crate) fn describe(error: &regex::Error) -> String {
    error.to_string()
}

} // verus!
