//! Package versions: their components, their order and their equality.

use std::cmp::Ordering;
use vstd::prelude::*;

verus! {

/// The release stage of a version, in increasing order of precedence.
#[derive(Clone, Copy, Debug, PartialEq, Eq, Structural)]
pub enum Modifier {
    Dev(u32),
    Alpha(u32),
    Beta(u32),
    Rc(u32),
    /// An ordinary release: no modifier is written.
    Release,
    Post(u32),
}

impl Modifier {
    /// The position of the stage among the six stages.
    pub open spec fn rank(self) -> int {
        match self {
            Modifier::Dev(_) => 0,
            Modifier::Alpha(_) => 1,
            Modifier::Beta(_) => 2,
            Modifier::Rc(_) => 3,
            Modifier::Release => 4,
            Modifier::Post(_) => 5,
        }
    }

    /// The number written after the stage, zero where there is none.
    pub open spec fn number(self) -> int {
        match self {
            Modifier::Dev(n) => n as int,
            Modifier::Alpha(n) => n as int,
            Modifier::Beta(n) => n as int,
            Modifier::Rc(n) => n as int,
            Modifier::Release => 0,
            Modifier::Post(n) => n as int,
        }
    }

    /// Executable form of [`Modifier::rank`].
    pub fn rank_of(&self) -> (r: u8)
        ensures
            r == self.rank(),
    {
        match self {
            Modifier::Dev(_) => 0,
            Modifier::Alpha(_) => 1,
            Modifier::Beta(_) => 2,
            Modifier::Rc(_) => 3,
            Modifier::Release => 4,
            Modifier::Post(_) => 5,
        }
    }

    /// Executable form of [`Modifier::number`].
    pub fn number_of(&self) -> (r: u32)
        ensures
            r == self.number(),
    {
        match self {
            Modifier::Dev(n) => *n,
            Modifier::Alpha(n) => *n,
            Modifier::Beta(n) => *n,
            Modifier::Rc(n) => *n,
            Modifier::Release => 0,
            Modifier::Post(n) => *n,
        }
    }
}

/// A component that was not written counts as zero.
pub open spec fn or_zero(c: Option<u32>) -> int {
    match c {
        Some(n) => n as int,
        None => 0,
    }
}

/// Executable form of [`or_zero`].
pub fn component_or_zero(c: Option<u32>) -> (r: u32)
    ensures
        r == or_zero(c),
{
    match c {
        Some(n) => n,
        None => 0,
    }
}

/// A version: a major number, up to three further numbers and a release stage.
///
/// A component that is absent is not displayed; in comparisons it counts as zero.
#[derive(Clone, Copy, Debug)]
pub struct Version {
    pub major: u32,
    pub minor: Option<u32>,
    pub patch: Option<u32>,
    pub extra: Option<u32>,
    pub modifier: Modifier,
}

/// The six numbers by which versions are ordered.
pub struct VersionKey {
    pub major: int,
    pub minor: int,
    pub patch: int,
    pub extra: int,
    pub rank: int,
    pub number: int,
}

impl VersionKey {
    /// Lexicographic order on the six numbers.
    pub open spec fn below(self, other: VersionKey) -> bool {
        if self.major != other.major {
            self.major < other.major
        } else if self.minor != other.minor {
            self.minor < other.minor
        } else if self.patch != other.patch {
            self.patch < other.patch
        } else if self.extra != other.extra {
            self.extra < other.extra
        } else if self.rank != other.rank {
            self.rank < other.rank
        } else {
            self.number < other.number
        }
    }
}

impl Version {
    /// The numbers that decide order and equality, absent components read as zero.
    pub open spec fn key(self) -> VersionKey {
        VersionKey {
            major: self.major as int,
            minor: or_zero(self.minor),
            patch: or_zero(self.patch),
            extra: or_zero(self.extra),
            rank: self.modifier.rank(),
            number: self.modifier.number(),
        }
    }

    /// No component is present behind an absent one.
    pub open spec fn well_formed(self) -> bool {
        &&& self.minor is None ==> self.patch is None
        &&& self.patch is None ==> self.extra is None
    }

    /// `self` and `other` denote the same version.
    pub open spec fn same(self, other: Version) -> bool {
        self.key() == other.key()
    }

    /// `self` comes strictly before `other`.
    pub open spec fn precedes(self, other: Version) -> bool {
        self.key().below(other.key())
    }

    /// `self` comes before `other` or denotes the same version.
    pub open spec fn at_most(self, other: Version) -> bool {
        self.precedes(other) || self.same(other)
    }

    /// The release `major.minor.patch`.
    pub fn new(major: u32, minor: u32, patch: u32) -> (v: Version)
        ensures
            v == (Version {
                major,
                minor: Some(minor),
                patch: Some(patch),
                extra: None,
                modifier: Modifier::Release,
            }),
            v.well_formed(),
    {
        Version {
            major,
            minor: Some(minor),
            patch: Some(patch),
            extra: None,
            modifier: Modifier::Release,
        }
    }

    /// The release `major.minor`, with no patch number.
    pub fn new_short(major: u32, minor: u32) -> (v: Version)
        ensures
            v == (Version {
                major,
                minor: Some(minor),
                patch: None,
                extra: None,
                modifier: Modifier::Release,
            }),
            v.well_formed(),
    {
        Version { major, minor: Some(minor), patch: None, extra: None, modifier: Modifier::Release }
    }

    /// Executable form of [`Version::well_formed`].
    pub fn is_well_formed(&self) -> (r: bool)
        ensures
            r == self.well_formed(),
    {
        (self.minor.is_some() || self.patch.is_none()) && (self.patch.is_some()
            || self.extra.is_none())
    }

    /// Whether `self` comes strictly before `other`.
    pub fn is_before(&self, other: &Version) -> (r: bool)
        ensures
            r == self.precedes(*other),
    {
        let a1 = component_or_zero(self.minor);
        let b1 = component_or_zero(other.minor);
        let a2 = component_or_zero(self.patch);
        let b2 = component_or_zero(other.patch);
        let a3 = component_or_zero(self.extra);
        let b3 = component_or_zero(other.extra);
        let a4 = self.modifier.rank_of();
        let b4 = other.modifier.rank_of();
        if self.major != other.major {
            self.major < other.major
        } else if a1 != b1 {
            a1 < b1
        } else if a2 != b2 {
            a2 < b2
        } else if a3 != b3 {
            a3 < b3
        } else if a4 != b4 {
            a4 < b4
        } else {
            self.modifier.number_of() < other.modifier.number_of()
        }
    }

    /// Whether `self` and `other` denote the same version.
    pub fn is_same(&self, other: &Version) -> (r: bool)
        ensures
            r == self.same(*other),
    {
        self.major == other.major && component_or_zero(self.minor) == component_or_zero(
            other.minor,
        ) && component_or_zero(self.patch) == component_or_zero(other.patch)
            && component_or_zero(self.extra) == component_or_zero(other.extra)
            && self.modifier.rank_of() == other.modifier.rank_of() && self.modifier.number_of()
            == other.modifier.number_of()
    }

    /// Whether `self` comes before `other` or denotes the same version.
    pub fn is_at_most(&self, other: &Version) -> (r: bool)
        ensures
            r == self.at_most(*other),
    {
        self.is_before(other) || self.is_same(other)
    }
}

impl PartialEq for Version {
    fn eq(&self, other: &Version) -> (r: bool) {
        self.is_same(other)
    }
}

impl vstd::std_specs::cmp::PartialEqSpecImpl for Version {
    open spec fn obeys_eq_spec() -> bool {
        true
    }

    open spec fn eq_spec(&self, other: &Version) -> bool {
        self.same(*other)
    }
}

impl PartialOrd for Version {
    fn partial_cmp(&self, other: &Version) -> (r: Option<Ordering>) {
        if self.is_before(other) {
            Some(Ordering::Less)
        } else if other.is_before(self) {
            Some(Ordering::Greater)
        } else {
            Some(Ordering::Equal)
        }
    }
}

impl vstd::std_specs::cmp::PartialOrdSpecImpl for Version {
    open spec fn obeys_partial_cmp_spec() -> bool {
        true
    }

    open spec fn partial_cmp_spec(&self, other: &Version) -> Option<Ordering> {
        if self.precedes(*other) {
            Some(Ordering::Less)
        } else if other.precedes(*self) {
            Some(Ordering::Greater)
        } else {
            Some(Ordering::Equal)
        }
    }
}

/// Equality of versions is an equivalence, and any two versions are comparable:
/// exactly one of "before", "same" and "after" holds.
pub proof fn lemma_version_order_total(a: Version, b: Version, c: Version)
    ensures
        a.same(a),
        a.same(b) ==> b.same(a),
        a.same(b) && b.same(c) ==> a.same(c),
        a.precedes(b) || a.same(b) || b.precedes(a),
        !(a.precedes(b) && a.same(b)),
        !(a.precedes(b) && b.precedes(a)),
        a.precedes(b) && b.precedes(c) ==> a.precedes(c),
        a.same(b) ==> (a.precedes(c) <==> b.precedes(c)),
        a.same(b) ==> (c.precedes(a) <==> c.precedes(b)),
{
}

} // verus!
