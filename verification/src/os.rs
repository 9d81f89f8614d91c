//! Platform tags of binary distributions.

use vstd::prelude::*;
use crate::error::ParseError;
use crate::pattern::{capture, captured};
use crate::text::{chars_of, has_word_at, is_word, starts_with};

verus! {

/// The platform a binary distribution targets. 64-bit unless the name says otherwise.
#[derive(Copy, Clone, Debug, PartialEq, Eq, Structural)]
pub enum Os {
    Linux32,
    Linux,
    Windows32,
    Windows,
    Mac,
    Any,
}

impl Os {
    /// Whether a distribution built for `self` can be used on `host`.
    pub open spec fn serves(self, host: Os) -> bool {
        self == host || self == Os::Any
    }

    /// Executable form of [`Os::serves`].
    pub fn is_usable_on(self, host: Os) -> (r: bool)
        ensures
            r == self.serves(host),
    {
        self == host || self == Os::Any
    }
}

/// `word` stands somewhere in `s`.
pub open spec fn contains_word(s: Seq<char>, word: Seq<char>) -> bool {
    exists|i: int| 0 <= i <= s.len() && starts_with(#[trigger] s.skip(i), word)
}

/// The platform that a platform tag names: one of the six known tags, or any tag that
/// contains `mac`.
pub open spec fn parse_os(s: Seq<char>) -> Option<Os> {
    if s == "manylinux1_i686"@ {
        Some(Os::Linux32)
    } else if s == "manylinux1_x86_64"@ {
        Some(Os::Linux)
    } else if s == "win32"@ {
        Some(Os::Windows32)
    } else if s == "win_amd64"@ {
        Some(Os::Windows)
    } else if s == "darwin"@ {
        Some(Os::Mac)
    } else if s == "any"@ {
        Some(Os::Any)
    } else if contains_word(s, seq!['m', 'a', 'c']) {
        Some(Os::Mac)
    } else {
        None
    }
}

/// Whether `word` stands somewhere in `s`.
pub fn has_word(s: &Vec<char>, word: &Vec<char>) -> (r: bool)
    ensures
        r == contains_word(s@, word@),
{
    let mut i: usize = 0;
    while i < s.len()
        invariant
            i <= s.len(),
            forall|k: int| 0 <= k < i ==> !starts_with(#[trigger] s@.skip(k), word@),
        decreases s.len() - i,
    {
        if has_word_at(s, i, word) {
            return true;
        }
        i = i + 1;
    }
    has_word_at(s, i, word)
}

/// The pattern that finds the platform tag of a wheel: the last part of the file name
/// that a hyphen precedes, up to `.whl`.
pub open spec fn wheel_pattern() -> Seq<char> {
    "^(?:.*?-)+(.*).whl$"@
}

/// The platform of a wheel, given what the search of its file name for the platform tag
/// found: the platform that the tag names; an error where no tag was found, where the tag
/// names no platform, or where the search pattern was not accepted.
pub open spec fn os_of_tag(found: Option<Option<Seq<char>>>) -> Result<Os, ParseError> {
    match found {
        Some(Some(tag)) => match parse_os(tag) {
            Some(os) => Ok(os),
            None => Err(ParseError::Os),
        },
        Some(None) => Err(ParseError::WheelName),
        None => Err(ParseError::Pattern),
    }
}

/// The platform of the wheel with the given file name.
pub open spec fn wheel_os(filename: Seq<char>) -> Result<Os, ParseError> {
    os_of_tag(captured(wheel_pattern(), filename, 1))
}

impl Os {
    /// Reads a platform tag.
    pub fn from_str(s: &str) -> (r: Result<Os, ParseError>)
        ensures
            r == match parse_os(s@) {
                Some(os) => Ok::<Os, ParseError>(os),
                None => Err::<Os, ParseError>(ParseError::Os),
            },
    {
        let chars = chars_of(s);
        if is_word(&chars, "manylinux1_i686") {
            Ok(Os::Linux32)
        } else if is_word(&chars, "manylinux1_x86_64") {
            Ok(Os::Linux)
        } else if is_word(&chars, "win32") {
            Ok(Os::Windows32)
        } else if is_word(&chars, "win_amd64") {
            Ok(Os::Windows)
        } else if is_word(&chars, "darwin") {
            Ok(Os::Mac)
        } else if is_word(&chars, "any") {
            Ok(Os::Any)
        } else if has_word(&chars, &vec!['m', 'a', 'c']) {
            Ok(Os::Mac)
        } else {
            Err(ParseError::Os)
        }
    }
}

/// The platform of a wheel, given the platform tag that was found in its file name:
/// `None` where the file name does not have the form of a wheel's.
pub fn os_from_tag(tag: Option<String>) -> (r: Result<Os, ParseError>)
    ensures
        r == os_of_tag(
            Some(
                match tag {
                    Some(t) => Some(t@),
                    None => None,
                },
            ),
        ),
{
    match tag {
        Some(t) => Os::from_str(t.as_str()),
        None => Err(ParseError::WheelName),
    }
}

/// The platform that a wheel targets, read from the last part of its file name.
pub fn os_from_wheel_fname(filename: &str) -> (r: Result<Os, ParseError>)
    ensures
        r == wheel_os(filename@),
{
    match capture("^(?:.*?-)+(.*).whl$", filename, 1) {
        Ok(tag) => os_from_tag(tag),
        Err(_) => Err(ParseError::Pattern),
    }
}

} // verus!
