//! Compiled search patterns.

use crate::text::text_view;
use regex::Regex;
use vstd::prelude::*;

verus! {

/// The regex crate's compiled regular expression, `regex::Regex`: carried
/// through, never looked into.
#[verifier::external_type_specification]
#[verifier::external_body]
pub struct ExRegex(Regex);

/// The regex crate's reason for refusing a pattern, `regex::Error`: never
/// looked into.
#[verifier::external_type_specification]
#[verifier::external_body]
pub struct ExRegexError(regex::Error);

/// Whether the regex crate compiles the regular expression `pattern`.
pub uninterp spec fn pattern_compiles(pattern: Seq<char>) -> bool;

/// `Regex::new` compiles a pattern, or says why it cannot. Whether it
/// compiles depends on the pattern alone: the crate parses it and builds the
/// matcher under limits that are fixed.
pub assume_specification[ Regex::new ](re: &str) -> (r: Result<Regex, regex::Error>)
    ensures
        r is Ok <==> pattern_compiles(re@),
;

/// The part of `text` that the regex crate reports as the first match of
/// the regular expression `pattern`; `None` where it reports no match.
pub uninterp spec fn first_match(pattern: Seq<char>, text: Seq<char>) -> Option<Seq<char>>;

/// A pattern that did not compile.
#[derive(Debug)]
pub struct PatternError {
    pub pattern: String,
}

/// A regular expression, compiled once and searched many times. Its view is
/// the pattern it was compiled from.
pub struct Matcher {
    source: String,
    engine: Regex,
}

impl View for Matcher {
    type V = Seq<char>;

    closed spec fn view(&self) -> Seq<char> {
        self.source@
    }
}

impl Matcher {
    /// Compiles `pattern`. It succeeds exactly where the regex crate
    /// compiles the pattern; the error hands the pattern back.
    pub fn new(pattern: &str) -> (r: Result<Matcher, PatternError>)
        ensures
            r is Ok <==> pattern_compiles(pattern@),
            r matches Ok(matcher) ==> matcher@ == pattern@,
            r matches Err(e) ==> e.pattern@ == pattern@,
    {
        match Regex::new(pattern) {
            Ok(engine) => Ok(Matcher { source: pattern.to_owned(), engine }),
            Err(_) => Err(PatternError { pattern: pattern.to_owned() }),
        }
    }

    /// The first part of `text` that matches, as text of its own.
    pub fn find(&self, text: &str) -> (r: Option<String>)
        ensures
            text_view(r) == first_match(self@, text@),
    {
        search(self, text)
    }
}

/// Calls `Regex::find` on the compiled pattern and copies out
/// `Match::as_str`, the substring that matched. A `Matcher` is only ever
/// built by `Matcher::new`, from the very pattern it keeps as its view, so
/// the result depends on that pattern and on `text` alone.
#[verifier::external_body]
fn search(matcher: &Matcher, text: &str) -> (r: Option<String>)
    ensures
        text_view(r) == first_match(matcher@, text@),
{
    match matcher.engine.find(text) {
        Some(hit) => Some(hit.as_str().to_string()),
        None => None,
    }
}

} // verus!
