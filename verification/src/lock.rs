//! The lock: the record of a resolution, from which the installation can be repeated.

use vstd::prelude::*;
use crate::constraint::{admits_all, all_compatible, Constraint, ReqType};
use crate::names::{names_match, same_name};
use crate::package::{Pin, PinView};
use crate::req::{Req, ReqView};
use crate::text::{chars_of, push_str, string_of};
use crate::version::{component_or_zero, or_zero, Version};
use crate::version_text::{parse_version, render};

verus! {

/// One package of the lock.
#[derive(Clone, Debug)]
pub struct LockPackage {
    pub name: String,
    /// The version, in its canonical text.
    pub version: String,
    /// Where the package comes from.
    pub source: Option<String>,
    /// The package's own dependencies; not recorded at present.
    pub dependencies: Option<Vec<String>>,
}

/// The lock: the packages of a resolution, with free-form metadata.
#[derive(Clone, Debug)]
pub struct Lock {
    pub package: Option<Vec<LockPackage>>,
    /// Keys with their values.
    pub metadata: Option<Vec<(String, String)>>,
}

impl Default for Lock {
    fn default() -> (r: Lock)
        ensures
            r.package is None,
            r.metadata is None,
    {
        Lock { package: None, metadata: None }
    }
}

/// The place a locked package comes from: the address of its description in the index.
pub open spec fn source_of(pin: PinView) -> Seq<char> {
    "pypi+https://pypi.org/pypi/"@ + pin.name + "/"@ + render(pin.version) + "/json"@
}

/// The lock holds the package `pin`: its name, its version's canonical text, its source,
/// and no dependencies.
pub open spec fn locks(package: LockPackage, pin: PinView) -> bool {
    &&& package.name@ == pin.name
    &&& package.version@ == render(pin.version)
    &&& match package.source {
        Some(source) => source@ == source_of(pin),
        None => false,
    }
    &&& package.dependencies is None
}

/// The lock entry of a resolved package.
pub fn lock_package(pin: &Pin) -> (r: LockPackage)
    ensures
        locks(r, pin@),
{
    let version = pin.version.to_string();
    let mut source = chars_of("pypi+https://pypi.org/pypi/");
    push_str(&mut source, pin.name.as_str());
    push_str(&mut source, "/");
    push_str(&mut source, version.as_str());
    push_str(&mut source, "/json");
    LockPackage {
        name: pin.name.clone(),
        version,
        source: Some(string_of(&source)),
        dependencies: None,
    }
}

/// The lock of a resolution: one entry for each resolved package, in order, and no
/// metadata.
pub fn lock_from_resolved(resolved: &Vec<Pin>) -> (r: Lock)
    ensures
        r.metadata is None,
        match r.package {
            Some(packages) => packages@.len() == resolved@.len() && forall|i: int|
                0 <= i < resolved@.len() ==> locks(#[trigger] packages@[i], resolved@[i]@),
            None => false,
        },
{
    let mut packages: Vec<LockPackage> = Vec::new();
    let mut i: usize = 0;
    while i < resolved.len()
        invariant
            i <= resolved.len(),
            packages@.len() == i,
            forall|k: int| 0 <= k < i ==> locks(#[trigger] packages@[k], resolved@[k]@),
        decreases resolved.len() - i,
    {
        packages.push(lock_package(&resolved[i]));
        i = i + 1;
    }
    Lock { package: Some(packages), metadata: None }
}

/// The constraint that only `version` satisfies: the exact constraint on `version` with
/// every absent component written as zero.
pub open spec fn exactly(version: Version) -> Constraint {
    Constraint {
        type_: ReqType::Exact,
        version: Version {
            major: version.major,
            minor: Some(or_zero(version.minor) as u32),
            patch: Some(or_zero(version.patch) as u32),
            extra: version.extra,
            modifier: version.modifier,
        },
    }
}

/// The locked package `package` fixes the requirement on `name` with `constraints`: it is
/// of that name, its version can be read, and the version satisfies the constraints.
pub open spec fn fixes(package: LockPackage, name: Seq<char>, constraints: Seq<Constraint>) -> bool {
    same_name(package.name@, name) && match parse_version(package.version@) {
        Some(version) => admits_all(constraints, version),
        None => false,
    }
}

/// The constraints of a requirement once the lock is taken into account: where a locked
/// package fixes the requirement, the first such package's version exactly; else the
/// requirement's own constraints.
pub open spec fn fixed_constraints(
    packages: Seq<LockPackage>,
    name: Seq<char>,
    constraints: Seq<Constraint>,
) -> Seq<Constraint>
    decreases packages.len(),
{
    if packages.len() == 0 {
        constraints
    } else if fixes(packages[0], name, constraints) {
        seq![exactly(parse_version(packages[0].version@).unwrap())]
    } else {
        fixed_constraints(packages.skip(1), name, constraints)
    }
}

/// The exact constraint on `version`.
pub fn exact_constraint(version: &Version) -> (c: Constraint)
    ensures
        c == exactly(*version),
        forall|candidate: Version| c.admits(candidate) <==> candidate.same(*version),
{
    Constraint {
        type_: ReqType::Exact,
        version: Version {
            major: version.major,
            minor: Some(component_or_zero(version.minor)),
            patch: Some(component_or_zero(version.patch)),
            extra: version.extra,
            modifier: version.modifier,
        },
    }
}

/// Ties each requirement to the lock where it can be: a requirement whose constraints the
/// locked version of its package satisfies is given that version as its only constraint.
/// Names and all else stay as they are.
pub fn pin_to_lock(reqs: &mut Vec<Req>, packages: &Vec<LockPackage>)
    ensures
        final(reqs)@.len() == old(reqs)@.len(),
        forall|i: int|
            0 <= i < old(reqs)@.len() ==> (#[trigger] final(reqs)@[i])@ == (ReqView {
                constraints: fixed_constraints(
                    packages@,
                    old(reqs)@[i].name@,
                    old(reqs)@[i].constraints@,
                ),
                ..old(reqs)@[i]@
            }),
{
    let mut i: usize = 0;
    while i < reqs.len()
        invariant
            i <= reqs.len(),
            reqs@.len() == old(reqs)@.len(),
            forall|k: int| i <= k < reqs@.len() ==> #[trigger] reqs@[k] == old(reqs)@[k],
            forall|k: int|
                0 <= k < i ==> (#[trigger] reqs@[k])@ == (ReqView {
                    constraints: fixed_constraints(
                        packages@,
                        old(reqs)@[k].name@,
                        old(reqs)@[k].constraints@,
                    ),
                    ..old(reqs)@[k]@
                }),
        decreases reqs.len() - i,
    {
        let mut j: usize = 0;
        let mut fixed: Option<Constraint> = None;
        let ghost name = reqs@[i as int].name@;
        let ghost constraints = reqs@[i as int].constraints@;
        assert(packages@.skip(0) == packages@);
        while j < packages.len() && fixed.is_none()
            invariant
                j <= packages.len(),
                i < reqs.len(),
                name == reqs@[i as int].name@,
                constraints == reqs@[i as int].constraints@,
                fixed_constraints(packages@, name, constraints) == match fixed {
                    Some(c) => seq![c],
                    None => fixed_constraints(packages@.skip(j as int), name, constraints),
                },
            decreases packages.len() - j + (if fixed is None { 1int } else { 0int }),
        {
            assert(packages@.skip(j as int).skip(1) == packages@.skip(j + 1));
            if names_match(packages[j].name.as_str(), reqs[i].name.as_str()) {
                match Version::from_str(packages[j].version.as_str()) {
                    Ok(version) => {
                        if all_compatible(&reqs[i].constraints, &version) {
                            fixed = Some(exact_constraint(&version));
                        }
                    },
                    Err(_) => {},
                }
            }
            if fixed.is_none() {
                j = j + 1;
            }
        }
        if let Some(c) = fixed {
            let mut only: Vec<Constraint> = Vec::new();
            only.push(c);
            assert(only@ =~= seq![c]);
            let req = reqs[i].with_constraints(only);
            reqs.set(i, req);
        }
        i = i + 1;
    }
}

} // verus!
