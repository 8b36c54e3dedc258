//! Search patterns: regular expressions, and where they match.
//!
//! The matching itself is done by the `regex` crate. What it answers is
//! named here, so that the rest of the library can say exactly what it does
//! with the answer.

use crate::error::NavigatorError;
use vstd::prelude::*;

verus! {

/// A compiled regular expression of the `regex` crate. Nothing is known of
/// what it holds.
#[verifier::external_type_specification]
#[verifier::external_body]
pub struct ExRegex(regex::Regex);

/// The error with which the `regex` crate refuses a pattern. Nothing is known
/// of what it holds.
#[verifier::external_type_specification]
#[verifier::external_body]
pub struct ExRegexError(regex::Error);

/// Whether the `regex` crate accepts `source` as a regular expression.
pub uninterp spec fn pattern_compiles(source: Seq<char>) -> bool;

/// The matches of the regular expression `source` in `text`, as the `regex`
/// crate finds them one after the other: the start and the end of each, as
/// offsets into the bytes of `text`.
pub uninterp spec fn pattern_spans(source: Seq<char>, text: Seq<char>) -> Seq<(usize, usize)>;

/// A regular expression that compiled, together with the text it was
/// compiled from. Only `Pattern::compile` makes one, so the two always belong
/// together.
pub struct Pattern {
    source: String,
    engine: regex::Regex,
}

impl View for Pattern {
    type V = Seq<char>;

    /// The text that the pattern was compiled from.
    closed spec fn view(&self) -> Seq<char> {
        self.source@
    }
}

/// Compiles a regular expression.
///
/// Calls `regex::Regex::new`, which returns an error where the pattern is
/// not valid or would compile to a program over the default size limit.
/// The contract only names the outcome: it succeeds exactly where
/// `pattern_compiles` holds of the text.
#[verifier::external_body]
fn compile_engine(source: &str) -> (r: Result<regex::Regex, regex::Error>)
    ensures
        r is Ok <==> pattern_compiles(source@),
{
    regex::Regex::new(source)
}

/// Finds all matches of a pattern in a text.
///
/// Calls `regex::Regex::find_iter`, which yields the successive matches that
/// do not overlap, and takes from each its `start()` and `end()`, which are
/// byte offsets into `text`. The contract only names the outcome: the matches
/// of a pattern in a text are `pattern_spans` of the two.
#[verifier::external_body]
pub(crate) fn find_spans(pattern: &Pattern, text: &str) -> (spans: Vec<(usize, usize)>)
    ensures
        spans@ == pattern_spans(pattern@, text@),
{
    pattern.engine.find_iter(text).map(|m| (m.start(), m.end())).collect()
}

impl Pattern {
    /// Compiles `source`. Fails with `InvalidRegex` exactly where the `regex`
    /// crate refuses it.
    pub fn compile(source: &str) -> (r: Result<Pattern, NavigatorError>)
        ensures
            match r {
                Ok(p) => pattern_compiles(source@) && p@ == source@,
                Err(e) => !pattern_compiles(source@) && e == NavigatorError::InvalidRegex,
            },
    {
        match compile_engine(source) {
            Ok(engine) => Ok(Pattern { source: source.to_owned(), engine }),
            Err(_) => Err(NavigatorError::InvalidRegex),
        }
    }

    /// The text that the pattern was compiled from.
    pub fn source(&self) -> (s: &String)
        ensures
            s@ == self@,
    {
        &self.source
    }
}

} // verus!
