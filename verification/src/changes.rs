//! Changes to the requirements of a project: packages added or removed by the user, and
//! the interpreter environment that the project runs in.

use vstd::prelude::*;
use crate::constraint::{Constraint, ReqType};
use crate::names::{names_match, same_name};
use crate::req::{has_text, req_views, texts, Req, ReqView};
use crate::text::{push_number, string_of};
use crate::version::{component_or_zero, or_zero, Modifier, Version};

verus! {

/// Whether two versions are written alike, component for component.
pub fn versions_identical(a: &Version, b: &Version) -> (r: bool)
    ensures
        r == (*a == *b),
{
    a.major == b.major && options_identical(a.minor, b.minor) && options_identical(
        a.patch,
        b.patch,
    ) && options_identical(a.extra, b.extra) && a.modifier == b.modifier
}

fn options_identical(a: Option<u32>, b: Option<u32>) -> (r: bool)
    ensures
        r == (a == b),
{
    match (a, b) {
        (Some(x), Some(y)) => x == y,
        (None, None) => true,
        _ => false,
    }
}

/// Whether two lists hold the same constraints, written alike, in the same order.
pub fn constraints_identical(a: &Vec<Constraint>, b: &Vec<Constraint>) -> (r: bool)
    ensures
        r == (a@ == b@),
{
    if a.len() != b.len() {
        return false;
    }
    let mut i: usize = 0;
    while i < a.len()
        invariant
            i <= a.len(),
            a.len() == b.len(),
            forall|k: int| 0 <= k < i ==> a@[k] == b@[k],
        decreases a.len() - i,
    {
        if !(a[i].type_ == b[i].type_ && versions_identical(&a[i].version, &b[i].version)) {
            return false;
        }
        i = i + 1;
    }
    assert(a@ =~= b@);
    true
}

fn texts_identical(a: &Vec<String>, b: &Vec<String>) -> (r: bool)
    ensures
        r == (texts(a@) == texts(b@)),
{
    if a.len() != b.len() {
        assert(texts(a@).len() != texts(b@).len());
        return false;
    }
    let mut i: usize = 0;
    while i < a.len()
        invariant
            i <= a.len(),
            a.len() == b.len(),
            forall|k: int| 0 <= k < i ==> texts(a@)[k] == texts(b@)[k],
        decreases a.len() - i,
    {
        if a[i] != b[i] {
            assert(texts(a@)[i as int] != texts(b@)[i as int]);
            return false;
        }
        i = i + 1;
    }
    assert(texts(a@) =~= texts(b@));
    true
}

/// Whether two requirements hold the same: name, constraints, extras and source.
pub fn reqs_identical(a: &Req, b: &Req) -> (r: bool)
    ensures
        r == (a@ == b@),
{
    let extras = match (&a.extras, &b.extras) {
        (Some(x), Some(y)) => texts_identical(x, y),
        (None, None) => true,
        _ => false,
    };
    let source = match (&a.source, &b.source) {
        (Some(x), Some(y)) => *x == *y,
        (None, None) => true,
        _ => false,
    };
    a.name == b.name && constraints_identical(&a.constraints, &b.constraints) && extras && source
}

/// The project declares what the added requirement asks for: it holds the same
/// requirement, or the added one names a package of the project without a constraint.
pub open spec fn declares(declared: Seq<ReqView>, added: ReqView) -> bool {
    exists|i: int|
        0 <= i < declared.len() && (#[trigger] declared[i] == added || (same_name(
            declared[i].name,
            added.name,
        ) && added.constraints.len() == 0))
}

/// The added requirements that the project does not declare, in order.
pub open spec fn new_among(declared: Seq<ReqView>, added: Seq<ReqView>) -> Seq<ReqView>
    decreases added.len(),
{
    if added.len() == 0 {
        Seq::empty()
    } else if declares(declared, added.last()) {
        new_among(declared, added.drop_last())
    } else {
        new_among(declared, added.drop_last()).push(added.last())
    }
}

/// Whether the project declares what the added requirement asks for.
pub fn is_declared(declared: &Vec<Req>, added: &Req) -> (r: bool)
    ensures
        r == declares(req_views(declared@), added@),
{
    let mut i: usize = 0;
    while i < declared.len()
        invariant
            i <= declared.len(),
            forall|k: int|
                0 <= k < i ==> !(#[trigger] req_views(declared@)[k] == added@ || (same_name(
                    req_views(declared@)[k].name,
                    added@.name,
                ) && added@.constraints.len() == 0)),
        decreases declared.len() - i,
    {
        assert(req_views(declared@)[i as int] == declared@[i as int]@);
        if reqs_identical(&declared[i], added) || (names_match(
            declared[i].name.as_str(),
            added.name.as_str(),
        ) && added.constraints.len() == 0) {
            return true;
        }
        i = i + 1;
    }
    false
}

/// The requirements among `added` that have to be written to the manifest: those that the
/// project does not declare yet.
pub fn new_requirements(declared: &Vec<Req>, added: &Vec<Req>) -> (r: Vec<Req>)
    ensures
        req_views(r@) == new_among(req_views(declared@), req_views(added@)),
{
    let ghost all = req_views(added@);
    let mut r: Vec<Req> = Vec::new();
    let mut i: usize = 0;
    assert(all.take(0) == Seq::<ReqView>::empty());
    assert(req_views(r@) =~= Seq::<ReqView>::empty());
    while i < added.len()
        invariant
            i <= added.len(),
            all == req_views(added@),
            req_views(r@) == new_among(req_views(declared@), all.take(i as int)),
        decreases added.len() - i,
    {
        proof {
            let upto = all.take(i + 1);
            assert(upto.drop_last() == all.take(i as int));
            assert(upto.last() == added@[i as int]@);
        }
        if !is_declared(declared, &added[i]) {
            let ghost before = req_views(r@);
            r.push(added[i].duplicate());
            assert(req_views(r@) =~= before.push(added@[i as int]@));
        }
        i = i + 1;
    }
    assert(all.take(added.len() as int) == all);
    r
}

/// The caret constraint on the release `major.minor.patch` of `latest`.
pub open spec fn caret_latest(latest: Version) -> Constraint {
    Constraint {
        type_: ReqType::Caret,
        version: Version {
            major: latest.major,
            minor: Some(or_zero(latest.minor) as u32),
            patch: Some(or_zero(latest.patch) as u32),
            extra: None,
            modifier: Modifier::Release,
        },
    }
}

/// A requirement without constraints is given the caret constraint on the latest version
/// of its package; one with constraints is left as it is.
pub fn default_to_latest(req: &Req, latest: &Version) -> (r: Req)
    ensures
        r@ == if req@.constraints.len() == 0 {
            ReqView { constraints: seq![caret_latest(*latest)], ..req@ }
        } else {
            req@
        },
{
    if req.constraints.len() == 0 {
        let mut only: Vec<Constraint> = Vec::new();
        only.push(
            Constraint::new(
                ReqType::Caret,
                latest.major,
                component_or_zero(latest.minor),
                component_or_zero(latest.patch),
            ),
        );
        assert(only@ =~= seq![caret_latest(*latest)]);
        req.with_constraints(only)
    } else {
        req.duplicate()
    }
}

/// What takes the place of a declared requirement: the first added requirement of the
/// same name, as written, with other constraints; the declared one where there is none.
pub open spec fn replacement(added: Seq<ReqView>, declared: ReqView) -> ReqView
    decreases added.len(),
{
    if added.len() == 0 {
        declared
    } else if added[0].name == declared.name && added[0].constraints != declared.constraints {
        added[0]
    } else {
        replacement(added.skip(1), declared)
    }
}

/// The requirements to resolve once `added` have been added: each declared requirement or
/// what takes its place, then the added ones.
pub open spec fn merged(declared: Seq<ReqView>, added: Seq<ReqView>) -> Seq<ReqView> {
    declared.map_values(|d: ReqView| replacement(added, d)) + added
}

fn replace_req(added: &Vec<Req>, declared: &Req) -> (r: Req)
    ensures
        r@ == replacement(req_views(added@), declared@),
{
    let ghost all = req_views(added@);
    let mut i: usize = 0;
    assert(all.skip(0) == all);
    while i < added.len()
        invariant
            i <= added.len(),
            all == req_views(added@),
            replacement(all, declared@) == replacement(all.skip(i as int), declared@),
        decreases added.len() - i,
    {
        assert(all.skip(i as int)[0] == added@[i as int]@);
        assert(all.skip(i as int).skip(1) == all.skip(i + 1));
        if added[i].name == declared.name && !constraints_identical(
            &added[i].constraints,
            &declared.constraints,
        ) {
            return added[i].duplicate();
        }
        i = i + 1;
    }
    declared.duplicate()
}

/// The requirements to resolve once `added` have been added to the declared ones.
pub fn merge_requirements(declared: &Vec<Req>, added: &Vec<Req>) -> (r: Vec<Req>)
    ensures
        req_views(r@) == merged(req_views(declared@), req_views(added@)),
{
    let mut r: Vec<Req> = Vec::new();
    let mut i: usize = 0;
    while i < declared.len()
        invariant
            i <= declared.len(),
            r@.len() == i,
            forall|k: int|
                0 <= k < i ==> (#[trigger] r@[k])@ == replacement(
                    req_views(added@),
                    declared@[k]@,
                ),
        decreases declared.len() - i,
    {
        r.push(replace_req(added, &declared[i]));
        i = i + 1;
    }
    let mut j: usize = 0;
    while j < added.len()
        invariant
            j <= added.len(),
            r@.len() == declared.len() + j,
            forall|k: int|
                0 <= k < declared.len() ==> (#[trigger] r@[k])@ == replacement(
                    req_views(added@),
                    declared@[k]@,
                ),
            forall|k: int| 0 <= k < j ==> (#[trigger] r@[declared.len() + k])@ == added@[k]@,
        decreases added.len() - j,
    {
        r.push(added[j].duplicate());
        j = j + 1;
    }
    proof {
        let front = req_views(declared@).map_values(
            |d: ReqView| replacement(req_views(added@), d),
        );
        let all = merged(req_views(declared@), req_views(added@));
        assert(front.len() == declared.len());
        assert(all.len() == r@.len());
        assert forall|k: int| 0 <= k < r@.len() implies req_views(r@)[k] == all[k] by {
            if k < declared.len() {
                assert(all[k] == front[k]);
                assert(req_views(declared@)[k] == declared@[k]@);
            } else {
                assert(all[k] == req_views(added@)[k - declared.len()]);
                assert(r@[declared.len() + (k - declared.len())]@ == added@[k - declared.len()]@);
            }
        }
        assert(req_views(r@) =~= all);
    }
    r
}

/// The declared requirements whose name, as written, is none of `removed`, in order.
pub open spec fn without_names(declared: Seq<ReqView>, removed: Seq<Seq<char>>) -> Seq<ReqView>
    decreases declared.len(),
{
    if declared.len() == 0 {
        Seq::empty()
    } else if removed.contains(declared.last().name) {
        without_names(declared.drop_last(), removed)
    } else {
        without_names(declared.drop_last(), removed).push(declared.last())
    }
}

/// The requirements that stay once the packages named `removed` are taken out.
pub fn remove_requirements(declared: &Vec<Req>, removed: &Vec<String>) -> (r: Vec<Req>)
    ensures
        req_views(r@) == without_names(req_views(declared@), texts(removed@)),
{
    let ghost all = req_views(declared@);
    let mut r: Vec<Req> = Vec::new();
    let mut i: usize = 0;
    assert(all.take(0) == Seq::<ReqView>::empty());
    assert(req_views(r@) =~= Seq::<ReqView>::empty());
    while i < declared.len()
        invariant
            i <= declared.len(),
            all == req_views(declared@),
            req_views(r@) == without_names(all.take(i as int), texts(removed@)),
        decreases declared.len() - i,
    {
        proof {
            let upto = all.take(i + 1);
            assert(upto.drop_last() == all.take(i as int));
            assert(upto.last() == declared@[i as int]@);
        }
        if !has_text(removed, declared[i].name.as_str()) {
            let ghost before = req_views(r@);
            r.push(declared[i].duplicate());
            assert(req_views(r@) =~= before.push(declared@[i as int]@));
        }
        i = i + 1;
    }
    assert(all.take(declared.len() as int) == all);
    r
}

/// What to do about the interpreter environment of a project whose manifest does not fix
/// the interpreter's version.
#[derive(Clone, Copy, Debug)]
pub enum Environment {
    /// No environment exists: one has to be created.
    Create,
    /// Exactly one exists: it is used, as the release `major.minor`.
    Use(Version),
    /// Several exist: the manifest has to say which one is meant.
    Ambiguous,
}

/// Picks the environment among those found, each named by the version of its interpreter.
pub fn choose_environment(found: &Vec<Version>) -> (r: Environment)
    ensures
        match r {
            Environment::Create => found@.len() == 0,
            Environment::Use(v) => found@.len() == 1 && v == (Version {
                major: found@[0].major,
                minor: Some(or_zero(found@[0].minor) as u32),
                patch: None,
                extra: None,
                modifier: Modifier::Release,
            }),
            Environment::Ambiguous => found@.len() >= 2,
        },
{
    if found.len() == 0 {
        Environment::Create
    } else if found.len() == 1 {
        Environment::Use(Version::new_short(found[0].major, component_or_zero(found[0].minor)))
    } else {
        Environment::Ambiguous
    }
}

/// The name of the directory of the environment for the interpreter `version`: the major
/// and the minor number with a dot between them; the patch number is left out.
pub open spec fn environment_dir(version: Version) -> Seq<char> {
    crate::text::digits(version.major as nat) + seq!['.'] + crate::text::digits(
        or_zero(version.minor) as nat,
    )
}

/// The name of the directory of the environment for the interpreter `version`.
pub fn environment_name(version: &Version) -> (r: String)
    ensures
        r@ == environment_dir(*version),
{
    let mut out: Vec<char> = Vec::new();
    push_number(&mut out, version.major);
    out.push('.');
    push_number(&mut out, component_or_zero(version.minor));
    assert(out@ == environment_dir(*version));
    string_of(&out)
}

} // verus!
