//! A package at one version, as it is resolved, installed and locked.

use vstd::prelude::*;
use crate::names::{lowercased, names_match, same_name};
use crate::version::{Version, VersionKey};

verus! {

/// A package's name and one version of it.
#[derive(Clone, Debug)]
pub struct Pin {
    pub name: String,
    pub version: Version,
}

/// A package's name and one version of it, as mathematical values.
pub struct PinView {
    pub name: Seq<char>,
    pub version: Version,
}

impl View for Pin {
    type V = PinView;

    open spec fn view(&self) -> PinView {
        PinView { name: self.name@, version: self.version }
    }
}

/// The pins of a list, as mathematical values.
pub open spec fn pin_views(pins: Seq<Pin>) -> Seq<PinView> {
    pins.map_values(|p: Pin| p@)
}

impl PinView {
    /// What identifies the pin: the lowercase form of the name and the numbers of the
    /// version.
    pub open spec fn entry(self) -> (Seq<char>, VersionKey) {
        (lowercased(self.name), self.version.key())
    }

    /// `self` and `other` are the same package at the same version.
    pub open spec fn matches(self, other: PinView) -> bool {
        same_name(self.name, other.name) && self.version.same(other.version)
    }
}

/// Some pin of `list` is the package `pin` at the same version.
pub open spec fn listed(list: Seq<PinView>, pin: PinView) -> bool {
    exists|i: int| 0 <= i < list.len() && (#[trigger] list[i]).matches(pin)
}

/// No two pins of `list` are of the same package.
pub open spec fn unique_names(list: Seq<PinView>) -> bool {
    forall|i: int, j: int|
        0 <= i < j < list.len() ==> !same_name((#[trigger] list[i]).name, (#[trigger] list[j]).name)
}

/// What identifies the pins of `list`, as a set.
pub open spec fn entries(list: Seq<PinView>) -> Set<(Seq<char>, VersionKey)> {
    Set::new(
        |e: (Seq<char>, VersionKey)|
            exists|i: int| 0 <= i < list.len() && (#[trigger] list[i]).entry() == e,
    )
}

impl Pin {
    /// The package `name` at `version`.
    pub fn new(name: String, version: Version) -> (p: Pin)
        ensures
            p@ == (PinView { name: name@, version }),
    {
        Pin { name, version }
    }

    /// A copy of the pin.
    pub fn duplicate(&self) -> (p: Pin)
        ensures
            p@ == self@,
    {
        Pin { name: self.name.clone(), version: self.version }
    }

    /// Whether `self` and `other` are the same package at the same version.
    pub fn is_match(&self, other: &Pin) -> (r: bool)
        ensures
            r == self@.matches(other@),
    {
        names_match(self.name.as_str(), other.name.as_str()) && self.version.is_same(
            &other.version,
        )
    }
}

/// Whether some pin of `list` is the package `pin` at the same version.
pub fn is_listed(list: &Vec<Pin>, pin: &Pin) -> (r: bool)
    ensures
        r == listed(pin_views(list@), pin@),
{
    let mut i: usize = 0;
    while i < list.len()
        invariant
            i <= list.len(),
            forall|k: int| 0 <= k < i ==> !(#[trigger] pin_views(list@)[k]).matches(pin@),
        decreases list.len() - i,
    {
        if list[i].is_match(pin) {
            assert(pin_views(list@)[i as int].matches(pin@));
            return true;
        }
        i = i + 1;
    }
    false
}

/// Two pins are the same package at the same version exactly where what identifies them
/// is equal.
pub proof fn lemma_matches_is_entry_equality(a: PinView, b: PinView)
    ensures
        a.matches(b) <==> a.entry() == b.entry(),
{
}

} // verus!
