//! Regular expressions, as the `regex` crate matches them.

use vstd::prelude::*;

verus! {

/// The error of the `regex` crate: a pattern that it does not compile.
#[verifier::external_type_specification]
#[verifier::external_body]
pub struct ExRegexError(regex::Error);

/// What searching `haystack` with `pattern` gives for the capture group `group`:
/// nothing at all where the pattern does not compile, else the text of the group in the
/// first match, if there is a match and the group took part in it.
pub uninterp spec fn captured(pattern: Seq<char>, haystack: Seq<char>, group: nat) -> Option<
    Option<Seq<char>>,
>;

/// The outcome of a search as mathematical values.
pub open spec fn capture_view(r: Result<Option<String>, regex::Error>) -> Option<
    Option<Seq<char>>,
> {
    match r {
        Ok(Some(text)) => Some(Some(text@)),
        Ok(None) => Some(None),
        Err(_) => None,
    }
}

/// `Regex::new`, `Regex::captures` and `Captures::get`: compiles `pattern`, searches
/// `haystack` for its first match and hands out the text of capture group `group`.
/// The outcome depends on the three arguments alone.
#[verifier::external_body]
pub(crate) fn capture(pattern: &str, haystack: &str, group: usize) -> (r: Result<
    Option<String>,
    regex::Error,
>)
    ensures
        capture_view(r) == captured(pattern@, haystack@, group as nat),
{
    match regex::Regex::new(pattern) {
        Err(e) => Err(e),
        Ok(re) => match re.captures(haystack) {
            None => Ok(None),
            Some(caps) => match caps.get(group) {
                None => Ok(None),
                Some(m) => Ok(Some(m.as_str().to_string())),
            },
        },
    }
}

} // verus!
