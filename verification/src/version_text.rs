//! How versions are written: the grammar that is read and the canonical form that is shown.

use vstd::prelude::*;
use crate::error::ParseError;
use crate::text::{
    decimal, digit_value, digits, digits_len, has_word_at, is_digit, leading_number,
    lemma_digits_decimal, lemma_digits_len,
    lemma_leading_number_of_digits, push_number, push_str, scan_number, starts_with,
};
use crate::version::{Modifier, Version};

verus! {

/// The version with the numeric components `parts` (one to four of them) and `modifier`.
pub open spec fn version_of(parts: Seq<u32>, modifier: Modifier) -> Version {
    Version {
        major: parts[0],
        minor: if parts.len() > 1 {
            Some(parts[1])
        } else {
            None
        },
        patch: if parts.len() > 2 {
            Some(parts[2])
        } else {
            None
        },
        extra: if parts.len() > 3 {
            Some(parts[3])
        } else {
            None
        },
        modifier,
    }
}

/// The numeric components after the major one that are written, in order.
pub open spec fn minor_parts(v: Version) -> Seq<u32> {
    match (v.minor, v.patch, v.extra) {
        (Some(a), Some(b), Some(c)) => seq![a, b, c],
        (Some(a), Some(b), None) => seq![a, b],
        (Some(a), None, _) => seq![a],
        (None, _, _) => Seq::empty(),
    }
}

/// What the dotted part of a version text holds behind the major number.
pub struct DottedTail {
    /// The numeric components read so far, the major one first.
    pub parts: Seq<u32>,
    /// Whether the text ended in `.*`.
    pub wildcard: bool,
    /// The text behind the last component.
    pub rest: Seq<char>,
}

/// Reads `.NUM` groups from the front of `s`, up to four components in all, or a final `.*`
/// behind at most two components.
pub open spec fn parse_parts(s: Seq<char>, have: Seq<u32>) -> Option<DottedTail>
    decreases 4 - have.len(),
{
    if s.len() >= 2 && s[0] == '.' && s[1] == '*' {
        if s.len() == 2 && have.len() <= 2 {
            Some(DottedTail { parts: have, wildcard: true, rest: Seq::empty() })
        } else {
            None
        }
    } else if s.len() >= 1 && s[0] == '.' && have.len() < 4 {
        match leading_number(s.skip(1)) {
            None => None,
            Some((value, n)) => parse_parts(s.skip(1 + n), have.push(value)),
        }
    } else {
        Some(DottedTail { parts: have, wildcard: false, rest: s })
    }
}

/// The number behind a modifier's name: nothing stands for zero.
pub open spec fn stage_number(s: Seq<char>) -> Option<u32> {
    if s.len() == 0 {
        Some(0)
    } else if digits_len(s) == s.len() && decimal(s) <= u32::MAX {
        Some(decimal(s) as u32)
    } else {
        None
    }
}

/// The modifier that `s` spells: nothing, or one of `dev`, `alpha`, `a`, `beta`, `b`, `rc`,
/// `c`, `post`, with an optional number.
pub open spec fn parse_modifier(s: Seq<char>) -> Option<Modifier> {
    if s.len() == 0 {
        Some(Modifier::Release)
    } else if starts_with(s, seq!['d', 'e', 'v']) {
        match stage_number(s.skip(3)) {
            Some(n) => Some(Modifier::Dev(n)),
            None => None,
        }
    } else if starts_with(s, seq!['a', 'l', 'p', 'h', 'a']) {
        match stage_number(s.skip(5)) {
            Some(n) => Some(Modifier::Alpha(n)),
            None => None,
        }
    } else if starts_with(s, seq!['a']) {
        match stage_number(s.skip(1)) {
            Some(n) => Some(Modifier::Alpha(n)),
            None => None,
        }
    } else if starts_with(s, seq!['b', 'e', 't', 'a']) {
        match stage_number(s.skip(4)) {
            Some(n) => Some(Modifier::Beta(n)),
            None => None,
        }
    } else if starts_with(s, seq!['b']) {
        match stage_number(s.skip(1)) {
            Some(n) => Some(Modifier::Beta(n)),
            None => None,
        }
    } else if starts_with(s, seq!['r', 'c']) {
        match stage_number(s.skip(2)) {
            Some(n) => Some(Modifier::Rc(n)),
            None => None,
        }
    } else if starts_with(s, seq!['c']) {
        match stage_number(s.skip(1)) {
            Some(n) => Some(Modifier::Rc(n)),
            None => None,
        }
    } else if starts_with(s, seq!['p', 'o', 's', 't']) {
        match stage_number(s.skip(4)) {
            Some(n) => Some(Modifier::Post(n)),
            None => None,
        }
    } else {
        None
    }
}

/// The version that a dotted text spells, and whether it ended in a wildcard:
/// `NUM ("." NUM)* SUFFIX?`, `NUM ".*"` or `NUM "." NUM ".*"`.
pub open spec fn parse_dotted(s: Seq<char>) -> Option<(Version, bool)> {
    match leading_number(s) {
        None => None,
        Some((major, n)) => match parse_parts(s.skip(n), seq![major]) {
            None => None,
            Some(tail) => match parse_modifier(tail.rest) {
                None => None,
                Some(modifier) => Some((version_of(tail.parts, modifier), tail.wildcard)),
            },
        },
    }
}

/// The version that an interpreter tag spells: `cp` or `py`, one digit for the major
/// number and at least one more for the minor number. The patch number is zero.
pub open spec fn parse_tag(s: Seq<char>) -> Option<Version> {
    if s.len() >= 4 && (starts_with(s, seq!['c', 'p']) || starts_with(s, seq!['p', 'y']))
        && digits_len(s.skip(2)) == s.len() - 2 && decimal(s.skip(3)) <= u32::MAX {
        Some(
            Version {
                major: digit_value(s[2]) as u32,
                minor: Some(decimal(s.skip(3)) as u32),
                patch: Some(0),
                extra: None,
                modifier: Modifier::Release,
            },
        )
    } else {
        None
    }
}

/// The version that `s` spells in any of the three grammars.
pub open spec fn parse_version(s: Seq<char>) -> Option<Version> {
    match parse_tag(s) {
        Some(v) => Some(v),
        None => match parse_dotted(s) {
            Some((v, _)) => Some(v),
            None => None,
        },
    }
}

/// Reads the number behind a modifier's name, which must reach to the end of `s`.
fn read_stage_number(s: &Vec<char>, from: usize) -> (r: Option<u32>)
    requires
        from <= s.len(),
    ensures
        r == stage_number(s@.skip(from as int)),
{
    if from == s.len() {
        return Some(0);
    }
    let ghost t = s@.skip(from as int);
    match scan_number(s, from) {
        Some((value, end)) => {
            if end == s.len() {
                proof {
                    assert(t.take(t.len() as int) == t);
                }
                Some(value)
            } else {
                None
            }
        },
        None => {
            proof {
                if digits_len(t) == t.len() {
                    assert(t.take(t.len() as int) == t);
                }
            }
            None
        },
    }
}

/// Where `word` stands at position `from` of `s`: the number that follows it to the end.
fn read_stage(s: &Vec<char>, from: usize, word: &Vec<char>) -> (r: Option<Option<u32>>)
    requires
        from <= s.len(),
    ensures
        r == if starts_with(s@.skip(from as int), word@) {
            Some(stage_number(s@.skip(from as int).skip(word@.len() as int)))
        } else {
            None::<Option<u32>>
        },
{
    if has_word_at(s, from, word) {
        assert(s@.skip(from as int).skip(word@.len() as int) == s@.skip(from + word@.len()));
        Some(read_stage_number(s, from + word.len()))
    } else {
        None
    }
}

/// Reads a modifier that reaches from position `from` to the end of `s`.
pub(crate) fn read_modifier(s: &Vec<char>, from: usize) -> (r: Option<Modifier>)
    requires
        from <= s.len(),
    ensures
        r == parse_modifier(s@.skip(from as int)),
{
    if from == s.len() {
        return Some(Modifier::Release);
    }
    if let Some(n) = read_stage(s, from, &vec!['d', 'e', 'v']) {
        return match n {
            Some(n) => Some(Modifier::Dev(n)),
            None => None,
        };
    }
    if let Some(n) = read_stage(s, from, &vec!['a', 'l', 'p', 'h', 'a']) {
        return match n {
            Some(n) => Some(Modifier::Alpha(n)),
            None => None,
        };
    }
    let w = vec!['a'];
    assert(w@ =~= seq!['a']);
    if let Some(n) = read_stage(s, from, &w) {
        return match n {
            Some(n) => Some(Modifier::Alpha(n)),
            None => None,
        };
    }
    if let Some(n) = read_stage(s, from, &vec!['b', 'e', 't', 'a']) {
        return match n {
            Some(n) => Some(Modifier::Beta(n)),
            None => None,
        };
    }
    let w = vec!['b'];
    assert(w@ =~= seq!['b']);
    if let Some(n) = read_stage(s, from, &w) {
        return match n {
            Some(n) => Some(Modifier::Beta(n)),
            None => None,
        };
    }
    if let Some(n) = read_stage(s, from, &vec!['r', 'c']) {
        return match n {
            Some(n) => Some(Modifier::Rc(n)),
            None => None,
        };
    }
    let w = vec!['c'];
    assert(w@ =~= seq!['c']);
    if let Some(n) = read_stage(s, from, &w) {
        return match n {
            Some(n) => Some(Modifier::Rc(n)),
            None => None,
        };
    }
    if let Some(n) = read_stage(s, from, &vec!['p', 'o', 's', 't']) {
        return match n {
            Some(n) => Some(Modifier::Post(n)),
            None => None,
        };
    }
    None
}

/// Reads a dotted version text, telling whether it ended in a wildcard.
pub fn read_dotted(s: &Vec<char>) -> (r: Option<(Version, bool)>)
    ensures
        r == parse_dotted(s@),
        r matches Some((v, _)) ==> v.well_formed(),
{
    assert(s@.skip(0) == s@);
    let (major, start) = match scan_number(s, 0) {
        Some(found) => found,
        None => {
            return None;
        },
    };
    let mut parts: Vec<u32> = vec![major];
    assert(parts@ =~= seq![major]);
    let mut i: usize = start;
    let mut wildcard = false;
    let mut done = false;
    while !done
        invariant
            start <= i <= s.len(),
            1 <= parts.len() <= 4,
            wildcard ==> done && i == s.len(),
            parse_parts(s@.skip(start as int), seq![major]) == if done {
                Some(DottedTail { parts: parts@, wildcard, rest: s@.skip(i as int) })
            } else {
                parse_parts(s@.skip(i as int), parts@)
            },
            leading_number(s@) == Some((major, start as int)),
        decreases
                (if done {
                    0int
                } else {
                    5 - parts.len()
                }),
    {
        let ghost t = s@.skip(i as int);
        if s.len() - i >= 2 && s[i] == '.' && s[i + 1] == '*' {
            if s.len() - i == 2 && parts.len() <= 2 {
                wildcard = true;
                done = true;
                i = s.len();
                assert(s@.skip(i as int) == Seq::<char>::empty());
            } else {
                return None;
            }
        } else if i < s.len() && s[i] == '.' && parts.len() < 4 {
            assert(t.skip(1) == s@.skip(i + 1));
            match scan_number(s, i + 1) {
                None => {
                    return None;
                },
                Some((value, end)) => {
                    assert(t.skip(1 + (end - (i + 1))) == s@.skip(end as int));
                    parts.push(value);
                    i = end;
                },
            }
        } else {
            done = true;
        }
    }
    let modifier = match read_modifier(s, i) {
        Some(m) => m,
        None => {
            return None;
        },
    };
    let minor = if parts.len() > 1 {
        Some(parts[1])
    } else {
        None
    };
    let patch = if parts.len() > 2 {
        Some(parts[2])
    } else {
        None
    };
    let extra = if parts.len() > 3 {
        Some(parts[3])
    } else {
        None
    };
    Some((Version { major: parts[0], minor, patch, extra, modifier }, wildcard))
}

/// Reads an interpreter tag such as `cp37`.
pub fn read_tag(s: &Vec<char>) -> (r: Option<Version>)
    ensures
        r == parse_tag(s@),
{
    if s.len() < 4 {
        return None;
    }
    assert(s@.skip(0) == s@);
    if !has_word_at(s, 0, &vec!['c', 'p']) && !has_word_at(s, 0, &vec!['p', 'y']) {
        return None;
    }
    assert(s@.skip(2).skip(1) == s@.skip(3));
    assert(s@.skip(2)[0] == s@[2]);
    if !crate::text::char_is_digit(s[2]) {
        return None;
    }
    let major = crate::text::char_digit_value(s[2]);
    let ghost t = s@.skip(3);
    match scan_number(s, 3) {
        Some((minor, end)) => {
            if end == s.len() {
                assert(t.take(t.len() as int) == t);
                Some(
                    Version {
                        major,
                        minor: Some(minor),
                        patch: Some(0),
                        extra: None,
                        modifier: Modifier::Release,
                    },
                )
            } else {
                None
            }
        },
        None => {
            proof {
                if digits_len(t) == t.len() {
                    assert(t.take(t.len() as int) == t);
                }
            }
            None
        },
    }
}

impl Version {
    /// Reads a version in any of the three grammars: dotted numbers with an optional
    /// modifier, an interpreter tag, or dotted numbers that end in a wildcard.
    pub fn from_str(s: &str) -> (r: Result<Version, ParseError>)
        ensures
            r == match parse_version(s@) {
                Some(v) => Ok::<Version, ParseError>(v),
                None => Err::<Version, ParseError>(ParseError::Version),
            },
            r matches Ok(v) ==> v.well_formed(),
    {
        let chars = crate::text::chars_of(s);
        match read_tag(&chars) {
            Some(v) => Ok(v),
            None => match read_dotted(&chars) {
                Some((v, _)) => Ok(v),
                None => Err(ParseError::Version),
            },
        }
    }

    /// Reads an interpreter tag: `cp37` and `py37` are version 3.7.0.
    pub fn from_cp_str(s: &str) -> (r: Result<Version, ParseError>)
        ensures
            r == match parse_tag(s@) {
                Some(v) => Ok::<Version, ParseError>(v),
                None => Err::<Version, ParseError>(ParseError::Tag),
            },
            r matches Ok(v) ==> v.well_formed(),
    {
        let chars = crate::text::chars_of(s);
        match read_tag(&chars) {
            Some(v) => Ok(v),
            None => Err(ParseError::Tag),
        }
    }
}

/// How a numeric component behind the major one is shown: a dot and its digits, or nothing
/// where the component is absent.
pub open spec fn render_part(part: Option<u32>) -> Seq<char> {
    match part {
        Some(n) => seq!['.'] + digits(n as nat),
        None => Seq::empty(),
    }
}

/// How the number of a modifier is shown: zero is left out.
pub open spec fn render_stage_number(n: u32) -> Seq<char> {
    if n == 0 {
        Seq::empty()
    } else {
        digits(n as nat)
    }
}

/// How a modifier is shown: `dev`, `a`, `b`, `rc` or `post` with its number; a release
/// shows nothing.
pub open spec fn render_modifier(m: Modifier) -> Seq<char> {
    match m {
        Modifier::Dev(n) => seq!['d', 'e', 'v'] + render_stage_number(n),
        Modifier::Alpha(n) => seq!['a'] + render_stage_number(n),
        Modifier::Beta(n) => seq!['b'] + render_stage_number(n),
        Modifier::Rc(n) => seq!['r', 'c'] + render_stage_number(n),
        Modifier::Release => Seq::empty(),
        Modifier::Post(n) => seq!['p', 'o', 's', 't'] + render_stage_number(n),
    }
}

/// The canonical text of a version.
pub open spec fn render(v: Version) -> Seq<char> {
    digits(v.major as nat) + render_part(v.minor) + render_part(v.patch) + render_part(v.extra)
        + render_modifier(v.modifier)
}

fn push_part(out: &mut Vec<char>, part: Option<u32>)
    ensures
        final(out)@ == old(out)@ + render_part(part),
{
    match part {
        Some(n) => {
            out.push('.');
            push_number(out, n);
            assert(out@ == old(out)@ + (seq!['.'] + digits(n as nat)));
        },
        None => {
            assert(out@ == old(out)@ + Seq::<char>::empty());
        },
    }
}

fn push_stage(out: &mut Vec<char>, word: &str, n: u32)
    ensures
        final(out)@ == old(out)@ + (word@ + render_stage_number(n)),
{
    push_str(out, word);
    if n != 0 {
        push_number(out, n);
    }
    assert(out@ == old(out)@ + (word@ + render_stage_number(n)));
}

/// Appends the canonical text of `v` to `out`.
pub fn push_version(out: &mut Vec<char>, v: &Version)
    ensures
        final(out)@ == old(out)@ + render(*v),
{
    push_number(out, v.major);
    push_part(out, v.minor);
    push_part(out, v.patch);
    push_part(out, v.extra);
    let ghost before = out@;
    proof {
        reveal_strlit("dev");
        reveal_strlit("a");
        reveal_strlit("b");
        reveal_strlit("rc");
        reveal_strlit("post");
    }
    match v.modifier {
        Modifier::Dev(n) => {
            push_stage(out, "dev", n);
            assert("dev"@ =~= seq!['d', 'e', 'v']);
        },
        Modifier::Alpha(n) => {
            push_stage(out, "a", n);
            assert("a"@ =~= seq!['a']);
        },
        Modifier::Beta(n) => {
            push_stage(out, "b", n);
            assert("b"@ =~= seq!['b']);
        },
        Modifier::Rc(n) => {
            push_stage(out, "rc", n);
            assert("rc"@ =~= seq!['r', 'c']);
        },
        Modifier::Release => {
            assert(out@ == before + Seq::<char>::empty());
        },
        Modifier::Post(n) => {
            push_stage(out, "post", n);
            assert("post"@ =~= seq!['p', 'o', 's', 't']);
        },
    }
    assert(out@ == before + render_modifier(v.modifier));
    assert(out@ == old(out)@ + render(*v));
}

impl Version {
    /// The canonical text of the version: absent components are left out, and a modifier is
    /// written with its short name and, unless it is zero, its number.
    pub fn to_string(&self) -> (r: String)
        ensures
            r@ == render(*self),
    {
        let mut out: Vec<char> = Vec::new();
        push_version(&mut out, self);
        assert(out@ == render(*self));
        crate::text::string_of(&out)
    }
}

/// The text of the numeric components `parts`, each behind a dot.
pub open spec fn render_parts(parts: Seq<u32>) -> Seq<char>
    decreases parts.len(),
{
    if parts.len() == 0 {
        Seq::empty()
    } else {
        seq!['.'] + digits(parts[0] as nat) + render_parts(parts.skip(1))
    }
}

/// Dotted components, followed by text that begins with neither a dot nor a digit, are read
/// back one by one, and that text is what is left.
proof fn lemma_parse_rendered_parts(have: Seq<u32>, parts: Seq<u32>, tail: Seq<char>)
    requires
        have.len() + parts.len() <= 4,
        tail.len() == 0 || (tail[0] != '.' && !is_digit(tail[0])),
    ensures
        parse_parts(render_parts(parts) + tail, have) == Some(
            DottedTail { parts: have + parts, wildcard: false, rest: tail },
        ),
    decreases parts.len(),
{
    let s = render_parts(parts) + tail;
    if parts.len() == 0 {
        assert(s == tail);
        assert(have + parts == have);
    } else {
        let d = digits(parts[0] as nat);
        let later = render_parts(parts.skip(1)) + tail;
        lemma_digits_decimal(parts[0] as nat);
        assert(s == seq!['.'] + (d + later));
        assert(s[0] == '.');
        assert(s[1] == d[0]);
        assert(s.skip(1) == d + later);
        if parts.skip(1).len() > 0 {
            assert(later[0] == '.');
        } else {
            assert(later == tail);
        }
        lemma_leading_number_of_digits(parts[0], later);
        assert(s.skip(1 + d.len() as int) == s.skip(1).skip(d.len() as int));
        lemma_parse_rendered_parts(have.push(parts[0]), parts.skip(1), tail);
        assert(have.push(parts[0]) + parts.skip(1) == have + parts);
    }
}

/// A modifier's text begins with a letter and is read back as that modifier.
proof fn lemma_parse_rendered_modifier(m: Modifier)
    ensures
        parse_modifier(render_modifier(m)) == Some(m),
        render_modifier(m).len() == 0 || (render_modifier(m)[0] != '.' && !is_digit(
            render_modifier(m)[0],
        )),
{
    let s = render_modifier(m);
    let n = match m {
        Modifier::Dev(n) => n,
        Modifier::Alpha(n) => n,
        Modifier::Beta(n) => n,
        Modifier::Rc(n) => n,
        Modifier::Release => 0,
        Modifier::Post(n) => n,
    };
    let num = render_stage_number(n);
    lemma_digits_decimal(n as nat);
    if n != 0 {
        lemma_digits_len(num, num.len() as int);
    }
    assert(stage_number(num) == Some(n));
    assert(num.len() > 0 ==> is_digit(num[0]));
    match m {
        Modifier::Dev(_) => {
            let w = seq!['d', 'e', 'v'];
            assert(s.take(3) == w);
            assert(s.skip(3) == num);
        },
        Modifier::Alpha(_) => {
            let w = seq!['a'];
            assert(s[0] == 'a');
            assert(s.len() >= 3 ==> s.take(3)[0] == 'a');
            assert(s.len() >= 5 ==> s.take(5)[1] == num[0]);
            assert(!starts_with(s, seq!['d', 'e', 'v']));
            assert(!starts_with(s, seq!['a', 'l', 'p', 'h', 'a']));
            assert(s.take(1) == w);
            assert(s.skip(1) == num);
        },
        Modifier::Beta(_) => {
            let w = seq!['b'];
            assert(s[0] == 'b');
            assert(s.len() >= 3 ==> s.take(3)[0] == 'b');
            assert(s.len() >= 5 ==> s.take(5)[0] == 'b');
            assert(s.len() >= 4 ==> s.take(4)[1] == num[0]);
            assert(s.take(1)[0] == 'b');
            assert(!starts_with(s, seq!['d', 'e', 'v']));
            assert(!starts_with(s, seq!['a', 'l', 'p', 'h', 'a']));
            assert(!starts_with(s, seq!['a']));
            assert(!starts_with(s, seq!['b', 'e', 't', 'a']));
            assert(s.take(1) == w);
            assert(s.skip(1) == num);
        },
        Modifier::Rc(_) => {
            let w = seq!['r', 'c'];
            assert(s[0] == 'r');
            assert(s.len() >= 3 ==> s.take(3)[0] == 'r');
            assert(s.len() >= 5 ==> s.take(5)[0] == 'r');
            assert(s.len() >= 4 ==> s.take(4)[0] == 'r');
            assert(s.take(1)[0] == 'r');
            assert(!starts_with(s, seq!['d', 'e', 'v']));
            assert(!starts_with(s, seq!['a', 'l', 'p', 'h', 'a']));
            assert(!starts_with(s, seq!['a']));
            assert(!starts_with(s, seq!['b', 'e', 't', 'a']));
            assert(!starts_with(s, seq!['b']));
            assert(s.take(2) == w);
            assert(s.skip(2) == num);
        },
        Modifier::Release => {},
        Modifier::Post(_) => {
            let w = seq!['p', 'o', 's', 't'];
            assert(s[0] == 'p');
            assert(s.take(3)[0] == 'p');
            assert(s.len() >= 5 ==> s.take(5)[0] == 'p');
            assert(s.take(4)[0] == 'p');
            assert(s.take(2)[0] == 'p');
            assert(s.take(1)[0] == 'p');
            assert(!starts_with(s, seq!['d', 'e', 'v']));
            assert(!starts_with(s, seq!['a', 'l', 'p', 'h', 'a']));
            assert(!starts_with(s, seq!['a']));
            assert(!starts_with(s, seq!['b', 'e', 't', 'a']));
            assert(!starts_with(s, seq!['b']));
            assert(!starts_with(s, seq!['r', 'c']));
            assert(!starts_with(s, seq!['c']));
            assert(s.take(4) == w);
            assert(s.skip(4) == num);
        },
    }
}

/// The dotted components of a well-formed version, each shown behind a dot, are the text
/// of the components that are present.
proof fn lemma_render_minor_parts(v: Version)
    requires
        v.well_formed(),
    ensures
        render_part(v.minor) + render_part(v.patch) + render_part(v.extra) == render_parts(
            minor_parts(v),
        ),
        version_of(seq![v.major] + minor_parts(v), v.modifier) == v,
        minor_parts(v).len() <= 3,
{
    let parts = minor_parts(v);
    let none = Seq::<u32>::empty();
    assert(render_parts(none) == Seq::<char>::empty());
    match (v.minor, v.patch, v.extra) {
        (Some(a), Some(b), Some(c)) => {
            assert(seq![c].skip(1) == none);
            assert(render_parts(seq![c]) == seq!['.'] + digits(c as nat));
            assert(seq![b, c].skip(1) == seq![c]);
            assert(render_parts(seq![b, c]) == seq!['.'] + digits(b as nat) + render_parts(
                seq![c],
            ));
            assert(parts.skip(1) == seq![b, c]);
            assert(render_parts(parts) == seq!['.'] + digits(a as nat) + render_parts(
                seq![b, c],
            ));
            assert(render_part(v.minor) + render_part(v.patch) + render_part(v.extra)
                == render_parts(parts));
        },
        (Some(a), Some(b), None) => {
            assert(seq![b].skip(1) == none);
            assert(render_parts(seq![b]) == seq!['.'] + digits(b as nat));
            assert(parts.skip(1) == seq![b]);
            assert(render_parts(parts) == seq!['.'] + digits(a as nat) + render_parts(seq![b]));
            assert(render_part(v.minor) + render_part(v.patch) + render_part(v.extra)
                == render_parts(parts));
        },
        (Some(a), None, _) => {
            assert(parts.skip(1) == none);
            assert(render_parts(parts) == seq!['.'] + digits(a as nat));
            assert(render_part(v.minor) + render_part(v.patch) + render_part(v.extra)
                == render_parts(parts));
        },
        (None, _, _) => {
            assert(render_part(v.minor) + render_part(v.patch) + render_part(v.extra)
                == render_parts(parts));
        },
    }
}

/// Reading the canonical text of a well-formed version gives that version back,
/// component for component, and finds no wildcard.
pub proof fn lemma_parse_render(v: Version)
    requires
        v.well_formed(),
    ensures
        parse_dotted(render(v)) == Some((v, false)),
        parse_version(render(v)) == Some(v),
{
    let s = render(v);
    let d = digits(v.major as nat);
    let parts = minor_parts(v);
    let m = render_modifier(v.modifier);
    let later = render_parts(parts) + m;
    lemma_digits_decimal(v.major as nat);
    lemma_parse_rendered_modifier(v.modifier);
    lemma_render_minor_parts(v);
    assert(s == d + later);
    assert(later.len() == 0 || !is_digit(later[0])) by {
        if parts.len() > 0 {
            assert(later[0] == '.');
        } else {
            assert(later == m);
        }
    }
    lemma_leading_number_of_digits(v.major, later);
    lemma_parse_rendered_parts(seq![v.major], parts, m);
    assert(parse_dotted(s) == Some((v, false)));
    assert(parse_tag(s) is None) by {
        assert(s[0] == d[0]);
        assert(s.len() >= 2 ==> s.take(2)[0] == s[0]);
    }
}

/// The canonical text of a version begins with a digit and ends with a digit or a letter.
pub proof fn lemma_render_ends(v: Version)
    ensures
        render(v).len() > 0,
        is_digit(render(v)[0]),
        render(v).last() != ' ',
{
    let s = render(v);
    lemma_digits_decimal(v.major as nat);
    let d = digits(v.major as nat);
    assert(s[0] == d[0]);
    let m = render_modifier(v.modifier);
    let n = v.modifier.number() as nat;
    lemma_digits_decimal(n);
    let front = d + render_part(v.minor) + render_part(v.patch) + render_part(v.extra);
    assert(s == front + m);
    if m.len() > 0 {
        assert(s.last() == m.last());
        match v.modifier {
            Modifier::Dev(k) => {
                let num = render_stage_number(k);
                if num.len() > 0 {
                    assert(m.last() == num.last());
                }
            },
            Modifier::Alpha(k) => {
                let num = render_stage_number(k);
                if num.len() > 0 {
                    assert(m.last() == num.last());
                }
            },
            Modifier::Beta(k) => {
                let num = render_stage_number(k);
                if num.len() > 0 {
                    assert(m.last() == num.last());
                }
            },
            Modifier::Rc(k) => {
                let num = render_stage_number(k);
                if num.len() > 0 {
                    assert(m.last() == num.last());
                }
            },
            Modifier::Release => {},
            Modifier::Post(k) => {
                let num = render_stage_number(k);
                if num.len() > 0 {
                    assert(m.last() == num.last());
                }
            },
        }
    } else {
        assert(s == front);
        lemma_part_ends(v.minor);
        lemma_part_ends(v.patch);
        lemma_part_ends(v.extra);
        let a = render_part(v.minor);
        let b = render_part(v.patch);
        let c = render_part(v.extra);
        if c.len() > 0 {
            assert(s.last() == c.last());
        } else if b.len() > 0 {
            assert(s == d + a + b);
            assert(s.last() == b.last());
        } else if a.len() > 0 {
            assert(s == d + a);
            assert(s.last() == a.last());
        } else {
            assert(s == d);
        }
    }
}

/// The text of a component that is present ends with a digit.
proof fn lemma_part_ends(part: Option<u32>)
    ensures
        render_part(part).len() > 0 ==> is_digit(render_part(part).last()),
{
    match part {
        Some(n) => {
            lemma_digits_decimal(n as nat);
            assert(render_part(part).last() == digits(n as nat).last());
        },
        None => {},
    }
}

} // verus!
