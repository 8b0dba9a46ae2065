//! Name patterns: regular expressions, compiled and run by the `regex` crate.

use regex::Regex;
use vstd::prelude::*;
use vstd::string::*;
use vstd::utf8::*;

verus! {

/// `regex::Regex`, a compiled regular expression. Its contents stay hidden.
#[verifier::external_type_specification]
#[verifier::external_body]
pub struct ExRegex(regex::Regex);

/// `regex::Error`, the reason a pattern did not compile.
#[verifier::external_type_specification]
#[verifier::external_body]
pub struct ExRegexError(regex::Error);

/// What `Regex::new` returns for `pattern`: the compiled expression, or
/// the reason the crate rejects the pattern.
pub uninterp spec fn regex_new(pattern: Seq<char>) -> Result<Regex, regex::Error>;

/// The byte offsets of the match that `Regex::find` reports for `regex` in
/// `haystack`, if it reports one: the leftmost match, and of those that
/// start there the one that the pattern prefers.
pub uninterp spec fn leftmost_match(regex: Regex, haystack: Seq<char>) -> Option<(usize, usize)>;

/// Calls `Regex::new`, which compiles the pattern or rejects it, for a
/// syntax error or for a program over the default size limit. The
/// contract claims no more than that the outcome depends on the pattern
/// alone.
#[verifier::external_body]
pub(crate) fn compile(pattern: &str) -> (r: Result<Regex, regex::Error>)
    ensures
        r == regex_new(pattern@),
{
    Regex::new(pattern)
}

/// Calls `Regex::find` and hands out the offsets of the match. The crate
/// documents that the start is no greater than the end, that the haystack
/// can be sliced with them, and that both fall on character boundaries.
#[verifier::external_body]
fn find_offsets(regex: &Regex, haystack: &str) -> (r: Option<(usize, usize)>)
    ensures
        r == leftmost_match(*regex, haystack@),
        r matches Some((start, end)) ==> {
            &&& start <= end <= haystack.spec_bytes().len()
            &&& is_char_boundary(haystack.spec_bytes(), start as int)
            &&& is_char_boundary(haystack.spec_bytes(), end as int)
        },
{
    regex.find(haystack).map(|m| (m.start(), m.end()))
}

/// The byte offsets of a match within a name.
#[derive(Clone, Copy, Debug, PartialEq, Eq, Structural)]
pub struct MatchSpan {
    /// The offset of the first byte of the match.
    pub start: usize,
    /// The offset of the byte after the last byte of the match.
    pub end: usize,
}

impl MatchSpan {
    /// The span lies within the encoding of `name` and cuts no character.
    pub open spec fn fits(self, name: Seq<char>) -> bool {
        &&& self.start <= self.end <= encode_utf8(name).len()
        &&& is_char_boundary(encode_utf8(name), self.start as int)
        &&& is_char_boundary(encode_utf8(name), self.end as int)
    }
}

/// The span that a pair of offsets stands for.
pub open spec fn span_of(offsets: Option<(usize, usize)>) -> Option<MatchSpan> {
    match offsets {
        Some((start, end)) => Some(MatchSpan { start, end }),
        None => None,
    }
}

/// Where `regex` matches in `name`, if it does.
pub open spec fn name_match(regex: Regex, name: Seq<char>) -> Option<MatchSpan> {
    span_of(leftmost_match(regex, name))
}

/// Whether `pattern` is a regular expression that compiles.
pub open spec fn pattern_compiles(pattern: Seq<char>) -> bool {
    regex_new(pattern) is Ok
}

/// Finds where the pattern matches in a name.
pub fn find_in_name(regex: &Regex, name: &str) -> (found: Option<MatchSpan>)
    ensures
        found == name_match(*regex, name@),
        found matches Some(span) ==> span.fits(name@),
{
    match find_offsets(regex, name) {
        Some((start, end)) => Some(MatchSpan { start, end }),
        None => None,
    }
}

} // verus!
