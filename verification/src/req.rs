//! Requirements: a package name with the constraints placed on its version.

use vstd::prelude::*;
use crate::constraint::{
    parse_constraints, push_constraints, read_constraints, render_constraints, Constraint,
};
use crate::error::ParseError;
use crate::text::{
    chars_of, find_char, first_index, is_word, string_of, sub_vec, trim, trimmed,
};

verus! {

/// A requirement as it was declared.
#[derive(Clone, Debug)]
pub struct Req {
    /// The package's name, as written.
    pub name: String,
    /// The constraints on the package's version; all of them must hold.
    pub constraints: Vec<Constraint>,
    /// The optional groups of the package that are asked for, where any were named.
    pub extras: Option<Vec<String>>,
    /// The kind of source the package comes from, where one was given.
    pub source: Option<String>,
}

/// What a requirement holds, as mathematical values.
pub struct ReqView {
    pub name: Seq<char>,
    pub constraints: Seq<Constraint>,
    pub extras: Option<Seq<Seq<char>>>,
    pub source: Option<Seq<char>>,
}

/// The texts that a list of strings holds.
pub open spec fn texts(list: Seq<String>) -> Seq<Seq<char>> {
    list.map_values(|s: String| s@)
}

impl View for Req {
    type V = ReqView;

    open spec fn view(&self) -> ReqView {
        ReqView {
            name: self.name@,
            constraints: self.constraints@,
            extras: match self.extras {
                Some(list) => Some(texts(list@)),
                None => None,
            },
            source: match self.source {
                Some(s) => Some(s@),
                None => None,
            },
        }
    }
}

/// The requirements of a list, as mathematical values.
pub open spec fn req_views(reqs: Seq<Req>) -> Seq<ReqView> {
    reqs.map_values(|r: Req| r@)
}

/// A character that may stand in a name: a letter, a digit, `-`, `_` or `.`.
pub open spec fn is_name_char(c: char) -> bool {
    ('a' <= c && c <= 'z') || ('A' <= c && c <= 'Z') || ('0' <= c && c <= '9') || c == '-' || c
        == '_' || c == '.'
}

/// A name: one or more name characters.
pub open spec fn is_name(s: Seq<char>) -> bool {
    s.len() > 0 && forall|i: int| 0 <= i < s.len() ==> is_name_char(#[trigger] s[i])
}

/// The names that the comma-separated items of `s` spell, spaces around each left out.
pub open spec fn parse_extras(s: Seq<char>) -> Option<Seq<Seq<char>>>
    decreases s.len(),
{
    let k = first_index(s, ',');
    if 0 <= k < s.len() {
        match parse_extras(s.skip(k + 1)) {
            Some(rest) => if is_name(trim(s.take(k))) {
                Some(seq![trim(s.take(k))] + rest)
            } else {
                None
            },
            None => None,
        }
    } else if is_name(trim(s)) {
        Some(seq![trim(s)])
    } else {
        None
    }
}

/// The name, and the extras where brackets follow it, that `s` spells:
/// `NAME` or `NAME "[" NAME ("," NAME)* "]"`.
pub open spec fn parse_name_part(s: Seq<char>) -> Option<(Seq<char>, Option<Seq<Seq<char>>>)> {
    let t = trim(s);
    let k = first_index(t, '[');
    if !(0 <= k < t.len()) {
        if is_name(t) {
            Some((t, None))
        } else {
            None
        }
    } else if t.last() == ']' && is_name(trim(t.take(k))) {
        match parse_extras(t.subrange(k + 1, t.len() - 1)) {
            Some(extras) => Some((trim(t.take(k)), Some(extras))),
            None => None,
        }
    } else {
        None
    }
}

/// The requirement with the given name part and constraints, where both were read.
pub open spec fn req_of(
    name_part: Option<(Seq<char>, Option<Seq<Seq<char>>>)>,
    constraints: Option<Seq<Constraint>>,
) -> Option<ReqView> {
    match (name_part, constraints) {
        (Some((name, extras)), Some(constraints)) => Some(
            ReqView { name, constraints, extras, source: None },
        ),
        _ => None,
    }
}

/// The requirement that a manifest line spells: a name part alone, or a name part, `=` and
/// a list of constraints in double quotes.
pub open spec fn parse_req_line(s: Seq<char>) -> Option<ReqView> {
    let t = trim(s);
    let k = first_index(t, '=');
    if !(0 <= k < t.len()) {
        req_of(parse_name_part(t), Some(Seq::empty()))
    } else {
        let value = trim(t.skip(k + 1));
        if value.len() >= 2 && value[0] == '"' && value.last() == '"' {
            req_of(
                parse_name_part(t.take(k)),
                parse_constraints(value.subrange(1, value.len() - 1)),
            )
        } else {
            None
        }
    }
}

/// The requirement that an index entry spells: a name part alone, or a name part and a list
/// of constraints in round brackets.
pub open spec fn parse_req_entry(s: Seq<char>) -> Option<ReqView> {
    let t = trim(s);
    let k = first_index(t, '(');
    if !(0 <= k < t.len()) {
        req_of(parse_name_part(t), Some(Seq::empty()))
    } else if t.last() == ')' {
        req_of(parse_name_part(t.take(k)), parse_constraints(t.subrange(k + 1, t.len() - 1)))
    } else {
        None
    }
}

/// Whether `c` may stand in a name.
pub fn char_is_name_char(c: char) -> (r: bool)
    ensures
        r == is_name_char(c),
{
    ('a' <= c && c <= 'z') || ('A' <= c && c <= 'Z') || ('0' <= c && c <= '9') || c == '-' || c
        == '_' || c == '.'
}

/// Whether `s` is a name.
pub fn chars_are_name(s: &Vec<char>) -> (r: bool)
    ensures
        r == is_name(s@),
{
    if s.len() == 0 {
        return false;
    }
    let mut i: usize = 0;
    while i < s.len()
        invariant
            i <= s.len(),
            forall|k: int| 0 <= k < i ==> is_name_char(#[trigger] s@[k]),
        decreases s.len() - i,
    {
        if !char_is_name_char(s[i]) {
            return false;
        }
        i = i + 1;
    }
    true
}

fn read_extras(s: &Vec<char>) -> (r: Option<Vec<String>>)
    ensures
        match r {
            Some(list) => parse_extras(s@) == Some(texts(list@)),
            None => parse_extras(s@) is None,
        },
{
    let mut list: Vec<String> = Vec::new();
    let mut i: usize = 0;
    let mut done = false;
    assert(s@.skip(0) == s@);
    assert(texts(list@) =~= Seq::<Seq<char>>::empty());
    while !done
        invariant
            i <= s.len(),
            parse_extras(s@) == if done {
                Some(texts(list@))
            } else {
                match parse_extras(s@.skip(i as int)) {
                    Some(rest) => Some(texts(list@) + rest),
                    None => None,
                }
            },
        decreases
                (if done {
                    0int
                } else {
                    s.len() - i + 1
                }),
    {
        let ghost rest = s@.skip(i as int);
        let k = find_char(s, i, ',');
        let item = trimmed(&sub_vec(s, i, k));
        assert(s@.subrange(i as int, k as int) == rest.take(k - i));
        if k == s.len() {
            assert(rest.take(rest.len() as int) == rest);
        }
        if !chars_are_name(&item) {
            return None;
        }
        let ghost before = texts(list@);
        list.push(string_of(&item));
        assert(texts(list@) =~= before.push(item@));
        if k < s.len() {
            assert(rest.skip(k - i + 1) == s@.skip(k + 1));
            proof {
                match parse_extras(s@.skip(k + 1)) {
                    Some(later) => {
                        assert(before + (seq![item@] + later) == before.push(item@) + later);
                    },
                    None => {},
                }
            }
            i = k + 1;
        } else {
            assert(before + seq![item@] == before.push(item@));
            done = true;
        }
    }
    Some(list)
}

fn read_name_part(s: &Vec<char>) -> (r: Option<(String, Option<Vec<String>>)>)
    ensures
        match r {
            Some((name, extras)) => parse_name_part(s@) == Some(
                (
                    name@,
                    match extras {
                        Some(list) => Some(texts(list@)),
                        None => None,
                    },
                ),
            ),
            None => parse_name_part(s@) is None,
        },
{
    let t = trimmed(s);
    assert(t@.skip(0) == t@);
    let k = find_char(&t, 0, '[');
    if k == t.len() {
        if chars_are_name(&t) {
            Some((string_of(&t), None))
        } else {
            None
        }
    } else if t[t.len() - 1] == ']' {
        let name = trimmed(&sub_vec(&t, 0, k));
        assert(t@.subrange(0, k as int) == t@.take(k as int));
        if !chars_are_name(&name) {
            return None;
        }
        match read_extras(&sub_vec(&t, k + 1, t.len() - 1)) {
            Some(extras) => Some((string_of(&name), Some(extras))),
            None => None,
        }
    } else {
        None
    }
}

fn build_req(
    name_part: Option<(String, Option<Vec<String>>)>,
    constraints: Option<Vec<Constraint>>,
) -> (r: Option<Req>)
    ensures
        match r {
            Some(req) => Some(req@),
            None => None,
        } == req_of(
            match name_part {
                Some((name, extras)) => Some(
                    (
                        name@,
                        match extras {
                            Some(list) => Some(texts(list@)),
                            None => None,
                        },
                    ),
                ),
                None => None,
            },
            match constraints {
                Some(list) => Some(list@),
                None => None,
            },
        ),
{
    match (name_part, constraints) {
        (Some((name, extras)), Some(constraints)) => Some(
            Req { name, constraints, extras, source: None },
        ),
        _ => None,
    }
}

/// Reads a requirement from a manifest line.
pub fn read_req_line(s: &Vec<char>) -> (r: Option<Req>)
    ensures
        match r {
            Some(req) => Some(req@),
            None => None,
        } == parse_req_line(s@),
{
    let t = trimmed(s);
    assert(t@.skip(0) == t@);
    let k = find_char(&t, 0, '=');
    if k == t.len() {
        build_req(read_name_part(&t), Some(Vec::new()))
    } else {
        let value = trimmed(&sub_vec(&t, k + 1, t.len()));
        assert(t@.subrange(k + 1, t.len() as int) == t@.skip(k + 1));
        if value.len() >= 2 && value[0] == '"' && value[value.len() - 1] == '"' {
            let name_part = read_name_part(&sub_vec(&t, 0, k));
            assert(t@.subrange(0, k as int) == t@.take(k as int));
            let constraints = read_constraints(&sub_vec(&value, 1, value.len() - 1));
            build_req(name_part, constraints)
        } else {
            None
        }
    }
}

/// Reads a requirement from an index entry.
pub fn read_req_entry(s: &Vec<char>) -> (r: Option<Req>)
    ensures
        match r {
            Some(req) => Some(req@),
            None => None,
        } == parse_req_entry(s@),
{
    let t = trimmed(s);
    assert(t@.skip(0) == t@);
    let k = find_char(&t, 0, '(');
    if k == t.len() {
        build_req(read_name_part(&t), Some(Vec::new()))
    } else if t[t.len() - 1] == ')' {
        let name_part = read_name_part(&sub_vec(&t, 0, k));
        assert(t@.subrange(0, k as int) == t@.take(k as int));
        let constraints = read_constraints(&sub_vec(&t, k + 1, t.len() - 1));
        build_req(name_part, constraints)
    } else {
        None
    }
}

/// The text of a requirement in a manifest: the name alone where there is no constraint,
/// else the name, ` = ` and the constraints in double quotes.
pub open spec fn render_req(req: ReqView) -> Seq<char> {
    if req.constraints.len() == 0 {
        req.name
    } else {
        req.name + seq![' ', '=', ' ', '"'] + render_constraints(req.constraints) + seq!['"']
    }
}

/// Whether `text` is one of `list`.
pub fn has_text(list: &Vec<String>, text: &str) -> (r: bool)
    ensures
        r == texts(list@).contains(text@),
{
    let mut i: usize = 0;
    while i < list.len()
        invariant
            i <= list.len(),
            forall|k: int| 0 <= k < i ==> texts(list@)[k] != text@,
        decreases list.len() - i,
    {
        if chars_equal(list[i].as_str(), text) {
            assert(texts(list@)[i as int] == text@);
            return true;
        }
        i = i + 1;
    }
    false
}

fn chars_equal(a: &str, b: &str) -> (r: bool)
    ensures
        r == (a@ == b@),
{
    let x = chars_of(a);
    is_word(&x, b)
}

/// A copy of a list of strings.
pub fn copy_texts(list: &Vec<String>) -> (r: Vec<String>)
    ensures
        texts(r@) == texts(list@),
{
    let mut r: Vec<String> = Vec::new();
    let mut i: usize = 0;
    while i < list.len()
        invariant
            i <= list.len(),
            r@.len() == i,
            forall|k: int| 0 <= k < i ==> (#[trigger] r@[k])@ == list@[k]@,
        decreases list.len() - i,
    {
        r.push(list[i].clone());
        i = i + 1;
    }
    assert(texts(r@) =~= texts(list@));
    r
}

/// A copy of a list of constraints.
pub fn copy_constraints(list: &Vec<Constraint>) -> (r: Vec<Constraint>)
    ensures
        r@ == list@,
{
    let mut r: Vec<Constraint> = Vec::new();
    let mut i: usize = 0;
    while i < list.len()
        invariant
            i <= list.len(),
            r@ == list@.take(i as int),
        decreases list.len() - i,
    {
        r.push(list[i]);
        assert(list@.take(i + 1) == list@.take(i as int).push(list@[i as int]));
        i = i + 1;
    }
    assert(list@.take(list.len() as int) == list@);
    r
}

impl Req {
    /// A copy of the requirement.
    pub fn duplicate(&self) -> (r: Req)
        ensures
            r@ == self@,
    {
        self.with_constraints(copy_constraints(&self.constraints))
    }

    /// A copy of the requirement in which `constraints` take the place of its own.
    pub fn with_constraints(&self, constraints: Vec<Constraint>) -> (r: Req)
        ensures
            r@ == (ReqView { constraints: constraints@, ..self@ }),
    {
        Req {
            name: self.name.clone(),
            constraints,
            extras: match &self.extras {
                Some(list) => Some(copy_texts(list)),
                None => None,
            },
            source: match &self.source {
                Some(s) => Some(s.clone()),
                None => None,
            },
        }
    }

    /// The requirement on `name` with the given constraints, without extras or source.
    pub fn new(name: String, constraints: Vec<Constraint>) -> (r: Req)
        ensures
            r@ == (ReqView { name: name@, constraints: constraints@, extras: None, source: None }),
    {
        Req { name, constraints, extras: None, source: None }
    }

    /// Reads a requirement: from an index entry such as `requests (>=2.0, <3)` where
    /// `pypi_fmt` is set, else from a manifest line such as `requests = "^2.0"`.
    pub fn from_str(s: &str, pypi_fmt: bool) -> (r: Result<Req, ParseError>)
        ensures
            match r {
                Ok(req) => Some(req@) == if pypi_fmt {
                    parse_req_entry(s@)
                } else {
                    parse_req_line(s@)
                },
                Err(e) => e == ParseError::Requirement && if pypi_fmt {
                    parse_req_entry(s@)
                } else {
                    parse_req_line(s@)
                } is None,
            },
    {
        let chars = chars_of(s);
        let read = if pypi_fmt {
            read_req_entry(&chars)
        } else {
            read_req_line(&chars)
        };
        match read {
            Some(req) => Ok(req),
            None => Err(ParseError::Requirement),
        }
    }

    /// The requirement as a line of the manifest.
    pub fn to_cfg_string(&self) -> (r: String)
        ensures
            r@ == render_req(self@),
    {
        let mut out = chars_of(self.name.as_str());
        if self.constraints.len() > 0 {
            out.push(' ');
            out.push('=');
            out.push(' ');
            out.push('"');
            assert(out@ == self.name@ + seq![' ', '=', ' ', '"']);
            push_constraints(&mut out, &self.constraints);
            out.push('"');
            assert(out@ == self.name@ + seq![' ', '=', ' ', '"'] + render_constraints(
                self.constraints@,
            ) + seq!['"']);
        }
        string_of(&out)
    }
}

} // verus!
