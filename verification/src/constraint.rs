//! Constraints: predicates over versions formed from an operator and a reference version.

use vstd::prelude::*;
use crate::error::ParseError;
use crate::text::{
    chars_of, digits, find_char, first_index, has_word_at, is_digit, lemma_digits_decimal,
    lemma_leading_number_of_digits, lemma_trim_unchanged, push_str, skip_spaces, starts_with,
    string_of, sub_vec, trim, trim_start, trimmed,
};
use crate::version::{component_or_zero, or_zero, Modifier, Version, VersionKey};
use crate::version_text::{
    lemma_parse_render, lemma_render_ends, parse_dotted, push_version, read_dotted, render,
};

verus! {

/// The operator of a constraint.
#[derive(Clone, Copy, Debug, PartialEq, Eq, Structural)]
pub enum ReqType {
    Exact,
    Gte,
    Lte,
    Gt,
    Lt,
    Ne,
    Caret,
    Tilde,
}

/// An operator applied to a reference version.
#[derive(Clone, Copy, Debug)]
pub struct Constraint {
    pub type_: ReqType,
    pub version: Version,
}

/// `Exact`: the candidate has the components that the reference writes. Where the reference
/// leaves out the minor or the patch number, that component and all behind it are free.
pub open spec fn exact_admits(reference: Version, candidate: Version) -> bool {
    &&& candidate.major == reference.major
    &&& reference.minor is Some ==> {
        &&& or_zero(candidate.minor) == or_zero(reference.minor)
        &&& reference.patch is Some ==> {
            &&& or_zero(candidate.patch) == or_zero(reference.patch)
            &&& or_zero(candidate.extra) == or_zero(reference.extra)
            &&& candidate.modifier.rank() == reference.modifier.rank()
            &&& candidate.modifier.number() == reference.modifier.number()
        }
    }
}

/// `Caret`: the candidate agrees with the reference up to and including the reference's
/// first component that is not zero. Where the reference holds only zeros, they agree on
/// every component that the reference writes.
pub open spec fn caret_shares(reference: Version, candidate: Version) -> bool {
    if reference.major != 0 {
        candidate.major == reference.major
    } else if reference.minor is None {
        candidate.major == 0
    } else if or_zero(reference.minor) != 0 {
        candidate.major == 0 && or_zero(candidate.minor) == or_zero(reference.minor)
    } else if reference.patch is None {
        candidate.major == 0 && or_zero(candidate.minor) == 0
    } else {
        candidate.major == 0 && or_zero(candidate.minor) == 0 && or_zero(candidate.patch)
            == or_zero(reference.patch)
    }
}

/// `Tilde`: the candidate has the reference's major number and, where the reference writes
/// a minor number, that minor number.
pub open spec fn tilde_shares(reference: Version, candidate: Version) -> bool {
    &&& candidate.major == reference.major
    &&& reference.minor is Some ==> or_zero(candidate.minor) == or_zero(reference.minor)
}

/// The least key having the numbers `major`, `minor` and `patch`.
pub open spec fn least_key(major: int, minor: int, patch: int) -> VersionKey {
    VersionKey { major, minor, patch, extra: 0, rank: 0, number: 0 }
}

/// The key at which the range of a caret constraint ends: the shared components with the
/// last of them raised by one.
pub open spec fn caret_end(reference: Version) -> VersionKey {
    if reference.major != 0 {
        least_key(reference.major + 1, 0, 0)
    } else if reference.minor is None {
        least_key(1, 0, 0)
    } else if or_zero(reference.minor) != 0 {
        least_key(0, or_zero(reference.minor) + 1, 0)
    } else if reference.patch is None {
        least_key(0, 1, 0)
    } else {
        least_key(0, 0, or_zero(reference.patch) + 1)
    }
}

/// The key at which the range of a tilde constraint ends.
pub open spec fn tilde_end(reference: Version) -> VersionKey {
    if reference.minor is Some {
        least_key(reference.major as int, or_zero(reference.minor) + 1, 0)
    } else {
        least_key(reference.major + 1, 0, 0)
    }
}

impl Constraint {
    /// Whether the constraint is satisfied by `candidate`.
    pub open spec fn admits(self, candidate: Version) -> bool {
        match self.type_ {
            ReqType::Exact => exact_admits(self.version, candidate),
            ReqType::Gte => self.version.at_most(candidate),
            ReqType::Lte => candidate.at_most(self.version),
            ReqType::Gt => self.version.precedes(candidate),
            ReqType::Lt => candidate.precedes(self.version),
            ReqType::Ne => !candidate.same(self.version),
            ReqType::Caret => self.version.at_most(candidate) && caret_shares(
                self.version,
                candidate,
            ),
            ReqType::Tilde => self.version.at_most(candidate) && tilde_shares(
                self.version,
                candidate,
            ),
        }
    }

    /// The constraint `type_ major.minor.patch`.
    pub fn new(type_: ReqType, major: u32, minor: u32, patch: u32) -> (c: Constraint)
        ensures
            c.type_ == type_,
            c.version == (Version {
                major,
                minor: Some(minor),
                patch: Some(patch),
                extra: None,
                modifier: Modifier::Release,
            }),
    {
        Constraint { type_, version: Version::new(major, minor, patch) }
    }

    /// The reference version.
    pub fn version(&self) -> (v: Version)
        ensures
            v == self.version,
    {
        self.version
    }

    /// Whether the constraint is satisfied by `candidate`.
    pub fn is_compatible(&self, candidate: &Version) -> (r: bool)
        ensures
            r == self.admits(*candidate),
    {
        let v = &self.version;
        let c_minor = component_or_zero(candidate.minor);
        let c_patch = component_or_zero(candidate.patch);
        let v_minor = component_or_zero(v.minor);
        let v_patch = component_or_zero(v.patch);
        match self.type_ {
            ReqType::Exact => {
                if candidate.major != v.major {
                    false
                } else if v.minor.is_none() {
                    true
                } else if c_minor != v_minor {
                    false
                } else if v.patch.is_none() {
                    true
                } else {
                    c_patch == v_patch && component_or_zero(candidate.extra) == component_or_zero(
                        v.extra,
                    ) && candidate.modifier.rank_of() == v.modifier.rank_of()
                        && candidate.modifier.number_of() == v.modifier.number_of()
                }
            },
            ReqType::Gte => v.is_at_most(candidate),
            ReqType::Lte => candidate.is_at_most(v),
            ReqType::Gt => v.is_before(candidate),
            ReqType::Lt => candidate.is_before(v),
            ReqType::Ne => !candidate.is_same(v),
            ReqType::Caret => {
                let shares = if v.major != 0 {
                    candidate.major == v.major
                } else if v.minor.is_none() {
                    candidate.major == 0
                } else if v_minor != 0 {
                    candidate.major == 0 && c_minor == v_minor
                } else if v.patch.is_none() {
                    candidate.major == 0 && c_minor == 0
                } else {
                    candidate.major == 0 && c_minor == 0 && c_patch == v_patch
                };
                shares && v.is_at_most(candidate)
            },
            ReqType::Tilde => {
                candidate.major == v.major && (v.minor.is_none() || c_minor == v_minor)
                    && v.is_at_most(candidate)
            },
        }
    }
}

/// Whether `candidate` satisfies every constraint of `constraints`.
pub open spec fn admits_all(constraints: Seq<Constraint>, candidate: Version) -> bool {
    forall|i: int| 0 <= i < constraints.len() ==> (#[trigger] constraints[i]).admits(candidate)
}

/// Whether `candidate` satisfies every constraint of `constraints`.
pub fn all_compatible(constraints: &Vec<Constraint>, candidate: &Version) -> (r: bool)
    ensures
        r == admits_all(constraints@, *candidate),
{
    let mut i: usize = 0;
    while i < constraints.len()
        invariant
            i <= constraints.len(),
            forall|k: int| 0 <= k < i ==> (#[trigger] constraints@[k]).admits(*candidate),
        decreases constraints.len() - i,
    {
        if !constraints[i].is_compatible(candidate) {
            return false;
        }
        i = i + 1;
    }
    true
}

/// What a satisfied constraint says of the candidate in terms of the order of versions:
/// a comparison holds as written, a caret or tilde constraint holds exactly on the
/// versions from the reference up to, not including, the end of its range, and a
/// reference that writes all of major, minor and patch is matched exactly by the
/// versions that are the same as it.
pub proof fn lemma_compatible_is_arithmetic(c: Constraint, candidate: Version)
    ensures
        c.type_ == ReqType::Gte ==> (c.admits(candidate) <==> !candidate.precedes(c.version)),
        c.type_ == ReqType::Lte ==> (c.admits(candidate) <==> !c.version.precedes(candidate)),
        c.type_ == ReqType::Gt ==> (c.admits(candidate) <==> c.version.precedes(candidate)),
        c.type_ == ReqType::Lt ==> (c.admits(candidate) <==> candidate.precedes(c.version)),
        c.type_ == ReqType::Ne ==> (c.admits(candidate) <==> (candidate.precedes(c.version)
            || c.version.precedes(candidate))),
        c.type_ == ReqType::Caret ==> (c.admits(candidate) <==> (!candidate.precedes(c.version)
            && candidate.key().below(caret_end(c.version)))),
        c.type_ == ReqType::Tilde ==> (c.admits(candidate) <==> (!candidate.precedes(c.version)
            && candidate.key().below(tilde_end(c.version)))),
        c.type_ == ReqType::Exact && c.version.patch is Some && c.version.minor is Some ==> (
        c.admits(candidate) <==> candidate.same(c.version)),
        c.type_ == ReqType::Exact && c.version.minor is None ==> (c.admits(candidate)
            <==> candidate.major == c.version.major),
        c.type_ == ReqType::Exact && c.version.minor is Some && c.version.patch is None ==> (
        c.admits(candidate) <==> candidate.major == c.version.major && or_zero(candidate.minor)
            == or_zero(c.version.minor)),
{
}

/// The operator written at the front of `s`, with the number of characters it takes.
pub open spec fn leading_operator(s: Seq<char>) -> Option<(ReqType, int)> {
    if starts_with(s, seq!['>', '=']) {
        Some((ReqType::Gte, 2))
    } else if starts_with(s, seq!['<', '=']) {
        Some((ReqType::Lte, 2))
    } else if starts_with(s, seq!['=', '=']) {
        Some((ReqType::Exact, 2))
    } else if starts_with(s, seq!['!', '=']) {
        Some((ReqType::Ne, 2))
    } else if s.len() > 0 && s[0] == '^' {
        Some((ReqType::Caret, 1))
    } else if s.len() > 0 && s[0] == '~' {
        Some((ReqType::Tilde, 1))
    } else if s.len() > 0 && s[0] == '=' {
        Some((ReqType::Exact, 1))
    } else if s.len() > 0 && s[0] == '>' {
        Some((ReqType::Gt, 1))
    } else if s.len() > 0 && s[0] == '<' {
        Some((ReqType::Lt, 1))
    } else {
        None
    }
}

/// The constraint that `s` spells: an optional operator and a dotted version, with spaces
/// allowed around both. Without an operator the constraint is a caret constraint, or an
/// exact one where the version ends in a wildcard.
pub open spec fn parse_constraint(s: Seq<char>) -> Option<Constraint> {
    let t = trim(s);
    match leading_operator(t) {
        Some((type_, n)) => match parse_dotted(trim_start(t.skip(n))) {
            Some((version, _)) => Some(Constraint { type_, version }),
            None => None,
        },
        None => match parse_dotted(t) {
            Some((version, wildcard)) => Some(
                Constraint {
                    type_: if wildcard {
                        ReqType::Exact
                    } else {
                        ReqType::Caret
                    },
                    version,
                },
            ),
            None => None,
        },
    }
}

/// The constraints that the comma-separated clauses of `s` spell, in order.
pub open spec fn parse_clauses(s: Seq<char>) -> Option<Seq<Constraint>>
    decreases s.len(),
{
    let k = first_index(s, ',');
    if 0 <= k < s.len() {
        match (parse_constraint(s.take(k)), parse_clauses(s.skip(k + 1))) {
            (Some(c), Some(rest)) => Some(seq![c] + rest),
            _ => None,
        }
    } else {
        match parse_constraint(s) {
            Some(c) => Some(seq![c]),
            None => None,
        }
    }
}

/// The constraints that `s` spells: none where `s` is blank, else one for each of its
/// comma-separated clauses.
pub open spec fn parse_constraints(s: Seq<char>) -> Option<Seq<Constraint>> {
    if trim(s).len() == 0 {
        Some(Seq::empty())
    } else {
        parse_clauses(s)
    }
}

fn read_operator(s: &Vec<char>) -> (r: Option<(ReqType, usize)>)
    ensures
        match r {
            Some((type_, n)) => leading_operator(s@) == Some((type_, n as int)) && n <= s.len(),
            None => leading_operator(s@) is None,
        },
{
    assert(s@.skip(0) == s@);
    if has_word_at(s, 0, &vec!['>', '=']) {
        Some((ReqType::Gte, 2))
    } else if has_word_at(s, 0, &vec!['<', '=']) {
        Some((ReqType::Lte, 2))
    } else if has_word_at(s, 0, &vec!['=', '=']) {
        Some((ReqType::Exact, 2))
    } else if has_word_at(s, 0, &vec!['!', '=']) {
        Some((ReqType::Ne, 2))
    } else if s.len() > 0 && s[0] == '^' {
        Some((ReqType::Caret, 1))
    } else if s.len() > 0 && s[0] == '~' {
        Some((ReqType::Tilde, 1))
    } else if s.len() > 0 && s[0] == '=' {
        Some((ReqType::Exact, 1))
    } else if s.len() > 0 && s[0] == '>' {
        Some((ReqType::Gt, 1))
    } else if s.len() > 0 && s[0] == '<' {
        Some((ReqType::Lt, 1))
    } else {
        None
    }
}

/// Reads one constraint.
pub fn read_constraint(s: &Vec<char>) -> (r: Option<Constraint>)
    ensures
        r == parse_constraint(s@),
{
    let t = trimmed(s);
    match read_operator(&t) {
        Some((type_, n)) => {
            let start = skip_spaces(&t, n);
            let body = sub_vec(&t, start, t.len());
            assert(body@ == trim_start(t@.skip(n as int)));
            match read_dotted(&body) {
                Some((version, _)) => Some(Constraint { type_, version }),
                None => None,
            }
        },
        None => match read_dotted(&t) {
            Some((version, wildcard)) => Some(
                Constraint {
                    type_: if wildcard {
                        ReqType::Exact
                    } else {
                        ReqType::Caret
                    },
                    version,
                },
            ),
            None => None,
        },
    }
}

/// Reads a comma-separated list of constraints; a blank text holds none.
pub fn read_constraints(s: &Vec<char>) -> (r: Option<Vec<Constraint>>)
    ensures
        match r {
            Some(list) => parse_constraints(s@) == Some(list@),
            None => parse_constraints(s@) is None,
        },
{
    let mut list: Vec<Constraint> = Vec::new();
    let t = trimmed(s);
    if t.len() == 0 {
        return Some(list);
    }
    let mut i: usize = 0;
    let mut done = false;
    assert(s@.skip(0) == s@);
    while !done
        invariant
            i <= s.len(),
            trim(s@).len() > 0,
            parse_clauses(s@) == if done {
                Some(list@)
            } else {
                match parse_clauses(s@.skip(i as int)) {
                    Some(rest) => Some(list@ + rest),
                    None => None,
                }
            },
        decreases
                (if done {
                    0int
                } else {
                    s.len() - i + 1
                }),
    {
        let ghost rest = s@.skip(i as int);
        let k = find_char(s, i, ',');
        let clause = sub_vec(s, i, k);
        assert(clause@ == rest.take(k - i));
        let c = match read_constraint(&clause) {
            Some(c) => c,
            None => {
                assert(rest.take(rest.len() as int) == rest);
                return None;
            },
        };
        if k < s.len() {
            assert(rest.skip(k - i + 1) == s@.skip(k + 1));
            proof {
                match parse_clauses(s@.skip(k + 1)) {
                    Some(later) => {
                        assert(list@ + (seq![c] + later) == list@.push(c) + later);
                    },
                    None => {},
                }
            }
            list.push(c);
            i = k + 1;
        } else {
            assert(rest.take(rest.len() as int) == rest);
            assert(list@ + seq![c] == list@.push(c));
            list.push(c);
            done = true;
        }
    }
    Some(list)
}

/// How an operator is written.
pub open spec fn render_operator(type_: ReqType) -> Seq<char> {
    match type_ {
        ReqType::Exact => seq!['=', '='],
        ReqType::Gte => seq!['>', '='],
        ReqType::Lte => seq!['<', '='],
        ReqType::Gt => seq!['>'],
        ReqType::Lt => seq!['<'],
        ReqType::Ne => seq!['!', '='],
        ReqType::Caret => seq!['^'],
        ReqType::Tilde => seq!['~'],
    }
}

/// The canonical text of a constraint: its operator, then its version.
pub open spec fn render_constraint(c: Constraint) -> Seq<char> {
    render_operator(c.type_) + render(c.version)
}

/// The canonical text of a list of constraints: the texts of its members, each two
/// separated by a comma and a space.
pub open spec fn render_constraints(list: Seq<Constraint>) -> Seq<char>
    decreases list.len(),
{
    if list.len() == 0 {
        Seq::empty()
    } else if list.len() == 1 {
        render_constraint(list[0])
    } else {
        render_constraints(list.drop_last()) + seq![',', ' '] + render_constraint(list.last())
    }
}

/// Appends the canonical text of `c` to `out`.
pub fn push_constraint(out: &mut Vec<char>, c: &Constraint)
    ensures
        final(out)@ == old(out)@ + render_constraint(*c),
{
    proof {
        reveal_strlit("==");
        reveal_strlit(">=");
        reveal_strlit("<=");
        reveal_strlit(">");
        reveal_strlit("<");
        reveal_strlit("!=");
        reveal_strlit("^");
        reveal_strlit("~");
    }
    let word = match c.type_ {
        ReqType::Exact => "==",
        ReqType::Gte => ">=",
        ReqType::Lte => "<=",
        ReqType::Gt => ">",
        ReqType::Lt => "<",
        ReqType::Ne => "!=",
        ReqType::Caret => "^",
        ReqType::Tilde => "~",
    };
    assert(word@ =~= render_operator(c.type_));
    push_str(out, word);
    push_version(out, &c.version);
    assert(out@ == old(out)@ + (render_operator(c.type_) + render(c.version)));
}

/// Appends the canonical text of `list` to `out`.
pub fn push_constraints(out: &mut Vec<char>, list: &Vec<Constraint>)
    ensures
        final(out)@ == old(out)@ + render_constraints(list@),
{
    let mut i: usize = 0;
    assert(out@ == old(out)@ + Seq::<char>::empty());
    while i < list.len()
        invariant
            i <= list.len(),
            out@ == old(out)@ + render_constraints(list@.take(i as int)),
        decreases list.len() - i,
    {
        let ghost before = list@.take(i as int);
        let ghost now = list@.take(i + 1);
        assert(now.drop_last() == before);
        assert(now.last() == list@[i as int]);
        if i > 0 {
            out.push(',');
            out.push(' ');
        }
        let ghost mid = out@;
        push_constraint(out, &list[i]);
        proof {
            if i > 0 {
                assert(mid == old(out)@ + render_constraints(before) + seq![',', ' ']);
                assert(out@ == old(out)@ + (render_constraints(before) + seq![',', ' ']
                    + render_constraint(list@[i as int])));
            } else {
                assert(render_constraints(before) == Seq::<char>::empty());
                assert(out@ == old(out)@ + render_constraint(list@[i as int]));
            }
        }
        i = i + 1;
    }
    assert(list@.take(list.len() as int) == list@);
}

impl Constraint {
    /// Reads one constraint, such as `^1.2`, `>= 2.0` or `1.*`.
    pub fn from_str(s: &str) -> (r: Result<Constraint, ParseError>)
        ensures
            r == match parse_constraint(s@) {
                Some(c) => Ok::<Constraint, ParseError>(c),
                None => Err::<Constraint, ParseError>(ParseError::Constraint),
            },
    {
        let chars = chars_of(s);
        match read_constraint(&chars) {
            Some(c) => Ok(c),
            None => Err(ParseError::Constraint),
        }
    }

    /// The canonical text of the constraint.
    pub fn to_string(&self) -> (r: String)
        ensures
            r@ == render_constraint(*self),
    {
        let mut out: Vec<char> = Vec::new();
        push_constraint(&mut out, self);
        assert(out@ == render_constraint(*self));
        string_of(&out)
    }
}

/// Reads a comma-separated list of constraints; a blank text holds none.
pub fn constraints_from_str(s: &str) -> (r: Result<Vec<Constraint>, ParseError>)
    ensures
        match r {
            Ok(list) => parse_constraints(s@) == Some(list@),
            Err(e) => parse_constraints(s@) is None && e == ParseError::Constraint,
        },
{
    let chars = chars_of(s);
    match read_constraints(&chars) {
        Some(list) => Ok(list),
        None => Err(ParseError::Constraint),
    }
}

/// A text that begins with a digit has no operator at its front.
proof fn lemma_no_operator(s: Seq<char>)
    requires
        s.len() > 0,
        is_digit(s[0]),
    ensures
        leading_operator(s) is None,
{
    assert(s.len() >= 2 ==> s.take(2)[0] == s[0]);
}

/// A major number followed by `.*` is read as the constraint that holds exactly of the
/// versions with that major number.
pub proof fn lemma_wildcard_is_major(major: u32, candidate: Version)
    ensures
        parse_constraint(digits(major as nat) + seq!['.', '*']) is Some,
        parse_constraint(digits(major as nat) + seq!['.', '*']).unwrap().admits(candidate) <==> (
        candidate.major == major),
{
    let d = digits(major as nat);
    let s = d + seq!['.', '*'];
    lemma_digits_decimal(major as nat);
    assert(s[0] == d[0]);
    assert(s.last() == '*');
    lemma_trim_unchanged(s);
    lemma_no_operator(s);
    lemma_leading_number_of_digits(major, seq!['.', '*']);
    let tail = crate::version_text::parse_parts(seq!['.', '*'], seq![major]);
    assert(tail == Some(
        crate::version_text::DottedTail {
            parts: seq![major],
            wildcard: true,
            rest: Seq::<char>::empty(),
        },
    ));
    assert(parse_dotted(s) == Some(
        (
            Version {
                major,
                minor: None,
                patch: None,
                extra: None,
                modifier: Modifier::Release,
            },
            true,
        ),
    ));
}

/// An operator's text in front of a text that begins with a digit is read as that
/// operator.
proof fn lemma_operator_read(type_: ReqType, body: Seq<char>)
    requires
        body.len() > 0,
        is_digit(body[0]),
    ensures
        leading_operator(render_operator(type_) + body) == Some(
            (type_, render_operator(type_).len() as int),
        ),
{
    let op = render_operator(type_);
    let s = op + body;
    assert(s.len() >= 2);
    assert(s[0] == op[0]);
    assert(s.take(2)[0] == s[0]);
    assert(s.take(2)[1] == s[1]);
    match type_ {
        ReqType::Exact => {
            assert(s.take(2) == op);
        },
        ReqType::Gte => {
            assert(s.take(2) == op);
        },
        ReqType::Lte => {
            assert(s.take(2) == op);
        },
        ReqType::Ne => {
            assert(s.take(2) == op);
        },
        ReqType::Gt => {
            assert(s[1] == body[0]);
        },
        ReqType::Lt => {
            assert(s[1] == body[0]);
        },
        ReqType::Caret => {},
        ReqType::Tilde => {},
    }
}

/// Reading the canonical text of a constraint on a well-formed version gives that
/// constraint back.
pub proof fn lemma_parse_render_constraint(c: Constraint)
    requires
        c.version.well_formed(),
    ensures
        parse_constraint(render_constraint(c)) == Some(c),
{
    let op = render_operator(c.type_);
    let body = render(c.version);
    let s = op + body;
    lemma_render_ends(c.version);
    lemma_parse_render(c.version);
    lemma_operator_read(c.type_, body);
    assert(trim(s) == s) by {
        assert(s[0] == op[0]);
        assert(s.last() == body.last());
        lemma_trim_unchanged(s);
    }
    assert(trim_start(s.skip(op.len() as int)) == body) by {
        assert(s.skip(op.len() as int) == body);
        lemma_trim_unchanged(body);
    }
}

} // verus!
