//! The calls into the `regex` crate: compiling a pattern and finding the
//! capture groups of its leftmost match in a byte string.

use regex::bytes::Regex;
use vstd::prelude::*;

use crate::template::spans_within;

verus! {

#[verifier::external_type_specification]
#[verifier::external_body]
pub struct ExRegex(Regex);

#[verifier::external_type_specification]
#[verifier::external_body]
pub struct ExRegexError(regex::Error);

/// The capture groups of the leftmost match of `pattern` in `haystack`, each
/// as the byte span it matched (`None` for a group that took no part), or
/// `None` where `pattern` does not match `haystack` at all.
pub uninterp spec fn regex_captures(pattern: Seq<char>, haystack: Seq<u8>) -> Option<
    Seq<Option<(usize, usize)>>,
>;

/// What a match reports, whatever the pattern: at least the group of the
/// whole match, which always took part, and spans inside the haystack.
pub open spec fn captures_well_formed(groups: Seq<Option<(usize, usize)>>, len: nat) -> bool {
    &&& groups.len() >= 1
    &&& groups[0] is Some
    &&& spans_within(groups, len)
}

/// A regular expression compiled from the pattern that is its view.
pub struct CompiledPattern {
    regex: Regex,
    pattern: Ghost<Seq<char>>,
}

impl View for CompiledPattern {
    type V = Seq<char>;

    closed spec fn view(&self) -> Seq<char> {
        self.pattern@
    }
}

/// Compiles `pattern` with `regex::bytes::Regex::new`. Trusted: the compiled
/// value keeps `pattern` as its view. This is the only place that builds a
/// `CompiledPattern`, so its view is always the pattern its regex came from.
/// Whether the call succeeds is left unsaid: the crate refuses ill-formed
/// patterns, and also well-formed ones whose compiled size exceeds its default
/// limit, a size that depends on the machine. The error value is passed on as
/// the crate gives it.
#[verifier::external_body]
pub(crate) fn compile_pattern(pattern: &str) -> (r: Result<CompiledPattern, regex::Error>)
    ensures
        r matches Ok(c) ==> c@ == pattern@,
{
    match Regex::new(pattern) {
        Ok(regex) => Ok(CompiledPattern { regex, pattern: Ghost(pattern@) }),
        Err(e) => Err(e),
    }
}

/// Runs `regex::bytes::Regex::captures` and reads each group of the result as
/// its byte span (`Match::start`, `Match::end`). Trusted: the result is the one
/// `regex_captures` names for the compiled pattern and the haystack, and, as
/// the crate documents, group 0 is the whole match and is always present, and
/// every span has its start at or before its end, inside the haystack.
#[verifier::external_body]
pub(crate) fn leftmost_captures(pattern: &CompiledPattern, haystack: &[u8]) -> (r: Option<
    Vec<Option<(usize, usize)>>,
>)
    ensures
        match r {
            Some(groups) => regex_captures(pattern@, haystack@) == Some(groups@),
            None => regex_captures(pattern@, haystack@) is None,
        },
        r matches Some(groups) ==> captures_well_formed(groups@, haystack@.len()),
{
    match pattern.regex.captures(haystack) {
        Some(caps) => Some(caps.iter().map(|m| m.map(|m| (m.start(), m.end()))).collect()),
        None => None,
    }
}

} // verus!
