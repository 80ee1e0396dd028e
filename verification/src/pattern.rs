//! The regular-expression engine, reached through the `regex` crate.

use vstd::prelude::*;
use crate::text::is_boundary;

verus! {

#[verifier::external_type_specification]
#[verifier::external_body]
pub struct ExRegex(regex::Regex);

#[verifier::external_type_specification]
#[verifier::external_body]
pub struct ExRegexError(regex::Error);

/// Whether `regex::Regex::new` accepts `pattern` (it refuses invalid syntax and
/// programs larger than its default size limit).
pub uninterp spec fn regex_compiles(pattern: Seq<char>) -> bool;

/// The byte range `(start, end)` of the leftmost-first match of `pattern` in
/// `haystack`, as `regex::Regex::find` reports it.
pub uninterp spec fn regex_first_match(pattern: Seq<char>, haystack: Seq<char>) -> Option<(usize, usize)>;

/// The text that `Display` gives for the error that `regex::Regex::new` returns
/// when it refuses `pattern`.
pub uninterp spec fn regex_error_text(pattern: Seq<char>) -> Seq<char>;

/// The characters that `regex::escape` prefixes with a backslash.
pub open spec fn is_regex_meta(c: char) -> bool {
    ||| c == '\\' || c == '.' || c == '+' || c == '*' || c == '?' || c == '('
    ||| c == ')' || c == '|' || c == '[' || c == ']' || c == '{' || c == '}'
    ||| c == '^' || c == '$' || c == '#' || c == '&' || c == '-' || c == '~'
}

/// `s` with a backslash in front of every regex meta character: a pattern that
/// matches `s` literally.
pub open spec fn escaped(s: Seq<char>) -> Seq<char>
    decreases s.len(),
{
    if s.len() == 0 {
        Seq::empty()
    } else {
        escaped(s.drop_last()) + if is_regex_meta(s.last()) {
            seq!['\\', s.last()]
        } else {
            seq![s.last()]
        }
    }
}

/// A compiled regular expression together with the text it was compiled from.
pub(crate) struct Pattern {
    source: String,
    compiled: regex::Regex,
}

impl View for Pattern {
    type V = Seq<char>;

    closed spec fn view(&self) -> Seq<char> {
        self.source@
    }
}

/// A refusal of the regex engine together with the pattern it refused.
pub(crate) struct PatternError {
    source: String,
    error: regex::Error,
}

impl View for PatternError {
    type V = Seq<char>;

    closed spec fn view(&self) -> Seq<char> {
        self.source@
    }
}

/// Calls `regex::escape`, which puts a backslash before each meta character of
/// `text` and leaves every other character as it is.
#[verifier::external_body]
pub(crate) fn escape(text: &str) -> (r: String)
    ensures
        r@ == escaped(text@),
{
    regex::escape(text)
}

/// Calls `regex::Regex::new`; the contract claims that it succeeds exactly on the
/// patterns named by `regex_compiles`, and that the result, compiled pattern or
/// error, keeps the pattern text.
#[verifier::external_body]
pub(crate) fn compile(pattern: &str) -> (r: Result<Pattern, PatternError>)
    ensures
        r is Ok <==> regex_compiles(pattern@),
        r matches Ok(p) ==> p@ == pattern@,
        r matches Err(e) ==> e@ == pattern@,
{
    match regex::Regex::new(pattern) {
        Ok(compiled) => Ok(Pattern { source: pattern.to_string(), compiled }),
        Err(error) => Err(PatternError { source: pattern.to_string(), error }),
    }
}

/// Calls `regex::Regex::find` and returns the byte offsets of the match. The
/// contract claims that they are the ones named by `regex_first_match` and, as the
/// crate documents, that `start <= end` and both fall on character boundaries.
#[verifier::external_body]
pub(crate) fn find_first(pattern: &Pattern, haystack: &str) -> (r: Option<(usize, usize)>)
    ensures
        r == regex_first_match(pattern@, haystack@),
        r matches Some((start, end)) ==> start <= end && is_boundary(haystack@, start as int)
            && is_boundary(haystack@, end as int),
{
    match pattern.compiled.find(haystack) {
        Some(m) => Some((m.start(), m.end())),
        None => None,
    }
}

/// Calls `Display` on the `regex::Error` of a refused pattern; the contract claims
/// that the text is the one named by `regex_error_text` for that pattern.
#[verifier::external_body]
pub(crate) fn error_text(e: &PatternError) -> (r: String)
    ensures
        r@ == regex_error_text(e@),
{
    e.error.to_string()
}

} // verus!
