//! Regular expressions, compiled once and applied to the text of a field.

use vstd::prelude::*;
use regex::Regex;
use crate::text::optional_texts;

verus! {

/// `regex::Regex`, a compiled regular expression.
#[verifier::external_type_specification]
#[verifier::external_body]
pub struct ExRegex(Regex);

/// `regex::Error`, the reason why a pattern did not compile.
#[verifier::external_type_specification]
#[verifier::external_body]
pub struct ExRegexError(regex::Error);

/// Whether `Regex::new` accepts a pattern.
pub uninterp spec fn compiles(pattern: Seq<char>) -> bool;

/// The pattern that a compiled expression was made from (`Regex::as_str`).
pub uninterp spec fn source_of(expr: Regex) -> Seq<char>;

/// What `Regex::captures` finds in a text, for the expression that
/// `Regex::new` makes of a pattern: `None` where the pattern matches nowhere,
/// else the groups of the leftmost match, group 0 being the whole match and
/// a group that took no part in it being `None`.
pub uninterp spec fn captures_of(pattern: Seq<char>, text: Seq<char>) -> Option<
    Seq<Option<Seq<char>>>,
>;

/// `Regex::new`: compiles a pattern, or says why it cannot. The expression
/// that comes back remembers the pattern it was made from.
#[verifier::external_body]
fn compile_regex(pattern: &str) -> (made: Result<Regex, regex::Error>)
    ensures
        made is Ok <==> compiles(pattern@),
        made matches Ok(expr) ==> source_of(expr) == pattern@,
{
    Regex::new(pattern)
}

/// `Regex::captures` on the expression of a compiled pattern, with each
/// group that took part copied out as a string.
#[verifier::external_body]
fn find_captures(pattern: &Pattern, text: &str) -> (found: Option<Vec<Option<String>>>)
    ensures
        match found {
            Some(groups) => captures_of(source_of(pattern.expr), text@) == Some(
                optional_texts(groups@),
            ),
            None => captures_of(source_of(pattern.expr), text@) is None,
        },
{
    let caps = pattern.expr.captures(text)?;
    let mut groups = Vec::new();
    for group in caps.iter() {
        groups.push(match group {
            Some(part) => Some(part.as_str().to_owned()),
            None => None,
        });
    }
    Some(groups)
}

/// The message of a `regex::Error` (its `Display` form).
#[verifier::external_body]
fn error_message(error: &regex::Error) -> String {
    error.to_string()
}

/// A pattern that did not compile.
#[derive(Debug, PartialEq)]
pub struct PatternError {
    /// The pattern as it was written.
    pub pattern: String,
    /// Why it was refused.
    pub reason: String,
}

/// A compiled pattern. The only way to one is [`Pattern::compile`], so the
/// expression inside is always what `Regex::new` made of the pattern.
#[derive(Debug)]
pub struct Pattern {
    expr: Regex,
}

impl Pattern {
    /// The pattern as it was written.
    pub closed spec fn source(&self) -> Seq<char> {
        source_of(self.expr)
    }

    /// Compiles a pattern. It fails exactly on the patterns that the regex
    /// engine refuses, and the error names the pattern.
    pub fn compile(pattern: &str) -> (made: Result<Pattern, PatternError>)
        ensures
            made is Ok <==> compiles(pattern@),
            made matches Ok(compiled) ==> compiled.source() == pattern@,
            made matches Err(error) ==> error.pattern@ == pattern@,
    {
        match compile_regex(pattern) {
            Ok(expr) => Ok(Pattern { expr }),
            Err(error) => Err(
                PatternError { pattern: pattern.to_owned(), reason: error_message(&error) },
            ),
        }
    }

    /// The capture groups of the leftmost match of the pattern in a text.
    pub fn captures(&self, text: &str) -> (found: Option<Vec<Option<String>>>)
        ensures
            match found {
                Some(groups) => captures_of(self.source(), text@) == Some(optional_texts(groups@)),
                None => captures_of(self.source(), text@) is None,
            },
    {
        find_captures(self, text)
    }
}

} // verus!
