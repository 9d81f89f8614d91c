//! The resolver: from the requirements of a project to one version of each package needed.
//!
//! The resolver is a machine that the caller drives. It names the package whose published
//! versions it needs next; the caller obtains them from the index and feeds them in; the
//! resolver selects a version and queues the dependencies of that version. When nothing
//! is queued any more, the selections are the resolution.

use vstd::prelude::*;
use crate::constraint::{admits_all, all_compatible, Constraint};
use crate::names::{is_text_before, lowercased, name_key, names_match, same_name, text_before};
use crate::package::{pin_views, Pin, PinView};
use crate::req::{
    copy_constraints, copy_texts, has_text, req_views, texts, Req, ReqView,
};
use crate::version::Version;

verus! {

/// A requirement of a published version: it holds always, or only where the optional
/// group `extra` of the package was asked for.
#[derive(Clone, Debug)]
pub struct Dependency {
    pub req: Req,
    pub extra: Option<String>,
}

/// A requirement of a published version, as mathematical values.
pub struct DependencyView {
    pub req: ReqView,
    pub extra: Option<Seq<char>>,
}

impl View for Dependency {
    type V = DependencyView;

    open spec fn view(&self) -> DependencyView {
        DependencyView {
            req: self.req@,
            extra: match self.extra {
                Some(e) => Some(e@),
                None => None,
            },
        }
    }
}

/// The dependencies of a list, as mathematical values.
pub open spec fn dependency_views(deps: Seq<Dependency>) -> Seq<DependencyView> {
    deps.map_values(|d: Dependency| d@)
}

/// One published version of a package: what it requires of the interpreter and which
/// packages it depends on.
#[derive(Clone, Debug)]
pub struct Candidate {
    pub version: Version,
    pub requires_python: Vec<Constraint>,
    pub dependencies: Vec<Dependency>,
}

/// One published version of a package, as mathematical values.
pub struct CandidateView {
    pub version: Version,
    pub requires_python: Seq<Constraint>,
    pub dependencies: Seq<DependencyView>,
}

impl View for Candidate {
    type V = CandidateView;

    open spec fn view(&self) -> CandidateView {
        CandidateView {
            version: self.version,
            requires_python: self.requires_python@,
            dependencies: dependency_views(self.dependencies@),
        }
    }
}

/// The published versions of a list, as mathematical values.
pub open spec fn candidate_views(candidates: Seq<Candidate>) -> Seq<CandidateView> {
    candidates.map_values(|c: Candidate| c@)
}

/// The version selected for a package, with every constraint met so far on that package.
#[derive(Clone, Debug)]
pub struct Selected {
    /// The package's name, as first written.
    pub name: String,
    pub version: Version,
    pub constraints: Vec<Constraint>,
    /// Whether the selection has been revised already. It is revised once at most.
    pub reselected: bool,
}

/// A selection, as mathematical values.
pub struct SelectedView {
    pub name: Seq<char>,
    pub version: Version,
    pub constraints: Seq<Constraint>,
    pub reselected: bool,
}

impl View for Selected {
    type V = SelectedView;

    open spec fn view(&self) -> SelectedView {
        SelectedView {
            name: self.name@,
            version: self.version,
            constraints: self.constraints@,
            reselected: self.reselected,
        }
    }
}

/// The selections of a list, as mathematical values.
pub open spec fn selected_views(selected: Seq<Selected>) -> Seq<SelectedView> {
    selected.map_values(|s: Selected| s@)
}

/// Why a resolution failed.
#[derive(Clone, Debug)]
pub enum ResolveError {
    /// No published version of the package satisfies the constraints and the interpreter.
    Unsatisfiable { name: String, constraints: Vec<Constraint> },
    /// The package was selected at version `first`, and a later requirement, which alone
    /// would select version `second`, cannot be met together with the earlier ones.
    Conflict { name: String, constraints: Vec<Constraint>, first: Version, second: Version },
    /// The index does not know the package.
    Missing { name: String },
}

/// Why a resolution failed, as mathematical values.
pub enum ResolveErrorView {
    Unsatisfiable { name: Seq<char>, constraints: Seq<Constraint> },
    Conflict { name: Seq<char>, constraints: Seq<Constraint>, first: Version, second: Version },
    Missing { name: Seq<char> },
}

impl View for ResolveError {
    type V = ResolveErrorView;

    open spec fn view(&self) -> ResolveErrorView {
        match self {
            ResolveError::Unsatisfiable { name, constraints } => ResolveErrorView::Unsatisfiable {
                name: name@,
                constraints: constraints@,
            },
            ResolveError::Conflict {
                name,
                constraints,
                first,
                second,
            } => ResolveErrorView::Conflict {
                name: name@,
                constraints: constraints@,
                first: *first,
                second: *second,
            },
            ResolveError::Missing { name } => ResolveErrorView::Missing { name: name@ },
        }
    }
}

/// The state of a resolution, as mathematical values.
pub struct ResolverView {
    /// The interpreter's version.
    pub python: Version,
    /// The optional groups that were asked for.
    pub extras: Seq<Seq<char>>,
    /// The requirements still to be looked at, ordered by name.
    pub pending: Seq<ReqView>,
    /// The selections made so far, in the order in which the packages were first met.
    pub selected: Seq<SelectedView>,
}

/// A published version can be selected: it satisfies the constraints, and the interpreter
/// satisfies what the version requires of it.
pub open spec fn eligible(candidate: CandidateView, constraints: Seq<Constraint>, python: Version) -> bool {
    admits_all(constraints, candidate.version) && admits_all(candidate.requires_python, python)
}

/// The position of the highest published version that can be selected, the first of them
/// where several are the same version; none where no version can be selected.
pub open spec fn best(candidates: Seq<CandidateView>, constraints: Seq<Constraint>, python: Version) -> Option<int>
    decreases candidates.len(),
{
    if candidates.len() == 0 {
        None
    } else {
        let last = candidates.len() - 1;
        match best(candidates.drop_last(), constraints, python) {
            Some(b) => if eligible(candidates[last], constraints, python)
                && candidates[b].version.precedes(candidates[last].version) {
                Some(last)
            } else {
                Some(b)
            },
            None => if eligible(candidates[last], constraints, python) {
                Some(last)
            } else {
                None
            },
        }
    }
}

/// The position of the first selection for the package named `name`.
pub open spec fn position(selected: Seq<SelectedView>, name: Seq<char>) -> Option<int>
    decreases selected.len(),
{
    if selected.len() == 0 {
        None
    } else {
        match position(selected.drop_last(), name) {
            Some(j) => Some(j),
            None => if same_name(selected.last().name, name) {
                Some(selected.len() - 1)
            } else {
                None
            },
        }
    }
}

/// A dependency holds for the optional groups `extras`: it holds always, or its group is
/// one of them.
pub open spec fn applies(dep: DependencyView, extras: Seq<Seq<char>>) -> bool {
    match dep.extra {
        Some(e) => extras.contains(e),
        None => true,
    }
}

/// The requirements of the dependencies that hold for `extras`, in order.
pub open spec fn applicable(deps: Seq<DependencyView>, extras: Seq<Seq<char>>) -> Seq<ReqView>
    decreases deps.len(),
{
    if deps.len() == 0 {
        Seq::empty()
    } else if applies(deps.last(), extras) {
        applicable(deps.drop_last(), extras).push(deps.last().req)
    } else {
        applicable(deps.drop_last(), extras)
    }
}

/// The package named `a` comes before the package named `b`: so do their lowercase names
/// in dictionary order.
pub open spec fn name_before(a: Seq<char>, b: Seq<char>) -> bool {
    text_before(lowercased(a), lowercased(b))
}

/// Where a requirement on `name` enters the queue: before the first requirement whose
/// name comes after `name`.
pub open spec fn insertion_point(pending: Seq<ReqView>, name: Seq<char>) -> int
    decreases pending.len(),
{
    if pending.len() == 0 || name_before(name, pending[0].name) {
        0
    } else {
        1 + insertion_point(pending.skip(1), name)
    }
}

/// The queue with `req` added in its place.
pub open spec fn enqueue(pending: Seq<ReqView>, req: ReqView) -> Seq<ReqView> {
    pending.insert(insertion_point(pending, req.name), req)
}

/// The queue with each of `reqs` added in its place, one after the other.
pub open spec fn enqueue_all(pending: Seq<ReqView>, reqs: Seq<ReqView>) -> Seq<ReqView>
    decreases reqs.len(),
{
    if reqs.len() == 0 {
        pending
    } else {
        enqueue(enqueue_all(pending, reqs.drop_last()), reqs.last())
    }
}

/// The state in which a resolution of `reqs` begins: all of them queued, nothing selected.
pub open spec fn initial(reqs: Seq<ReqView>, python: Version, extras: Seq<Seq<char>>) -> ResolverView {
    ResolverView {
        python,
        extras,
        pending: enqueue_all(Seq::empty(), reqs),
        selected: Seq::empty(),
    }
}

/// The state after the first queued requirement has been looked at, given the published
/// versions `candidates` of its package.
///
/// Where the package has no selection yet, the highest version that satisfies the
/// requirement and the interpreter is selected and its dependencies are queued; where
/// there is no such version the package is unsatisfiable. Where the package has a
/// selection that satisfies the requirement, the requirement's constraints are added to
/// those of the selection. Where the selection does not satisfy it, the selection is
/// revised, once: the highest version that satisfies all constraints met so far takes its
/// place and its dependencies are queued. Where the requirement alone can be satisfied but
/// no version satisfies all constraints, or the selection was revised before, the
/// requirements conflict.
pub open spec fn advance(state: ResolverView, candidates: Seq<CandidateView>) -> Result<
    ResolverView,
    ResolveErrorView,
> {
    let req = state.pending[0];
    let rest = state.pending.skip(1);
    match position(state.selected, req.name) {
        None => match best(candidates, req.constraints, state.python) {
            None => Err(
                ResolveErrorView::Unsatisfiable { name: req.name, constraints: req.constraints },
            ),
            Some(b) => Ok(
                ResolverView {
                    pending: enqueue_all(
                        rest,
                        applicable(candidates[b].dependencies, state.extras),
                    ),
                    selected: state.selected.push(
                        SelectedView {
                            name: req.name,
                            version: candidates[b].version,
                            constraints: req.constraints,
                            reselected: false,
                        },
                    ),
                    ..state
                },
            ),
        },
        Some(j) => {
            let held = state.selected[j];
            let all = held.constraints + req.constraints;
            if admits_all(req.constraints, held.version) {
                Ok(
                    ResolverView {
                        pending: rest,
                        selected: state.selected.update(
                            j,
                            SelectedView { constraints: all, ..held },
                        ),
                        ..state
                    },
                )
            } else {
                match best(candidates, req.constraints, state.python) {
                    None => Err(
                        ResolveErrorView::Unsatisfiable {
                            name: req.name,
                            constraints: req.constraints,
                        },
                    ),
                    Some(alone) => match best(candidates, all, state.python) {
                        Some(b) if !held.reselected => Ok(
                            ResolverView {
                                pending: enqueue_all(
                                    rest,
                                    applicable(candidates[b].dependencies, state.extras),
                                ),
                                selected: state.selected.update(
                                    j,
                                    SelectedView {
                                        name: held.name,
                                        version: candidates[b].version,
                                        constraints: all,
                                        reselected: true,
                                    },
                                ),
                                ..state
                            },
                        ),
                        _ => Err(
                            ResolveErrorView::Conflict {
                                name: req.name,
                                constraints: all,
                                first: held.version,
                                second: candidates[alone].version,
                            },
                        ),
                    },
                }
            }
        },
    }
}

/// The resolution that a state holds: each package selected, at its selected version.
pub open spec fn selections(selected: Seq<SelectedView>) -> Seq<PinView> {
    selected.map_values(|s: SelectedView| PinView { name: s.name, version: s.version })
}

/// The position of the highest published version that can be selected.
pub fn pick_best(candidates: &Vec<Candidate>, constraints: &Vec<Constraint>, python: &Version) -> (r:
    Option<usize>)
    ensures
        match r {
            Some(b) => b < candidates.len() && best(
                candidate_views(candidates@),
                constraints@,
                *python,
            ) == Some(b as int),
            None => best(candidate_views(candidates@), constraints@, *python) is None,
        },
{
    let ghost all = candidate_views(candidates@);
    let mut found: Option<usize> = None;
    let mut i: usize = 0;
    assert(all.take(0) == Seq::<CandidateView>::empty());
    while i < candidates.len()
        invariant
            i <= candidates.len(),
            all == candidate_views(candidates@),
            match found {
                Some(b) => b < i && best(all.take(i as int), constraints@, *python) == Some(
                    b as int,
                ),
                None => best(all.take(i as int), constraints@, *python) is None,
            },
        decreases candidates.len() - i,
    {
        proof {
            let upto = all.take(i + 1);
            assert(upto.drop_last() == all.take(i as int));
            assert(upto[i as int] == candidates@[i as int]@);
            match found {
                Some(b) => {
                    assert(upto[b as int] == candidates@[b as int]@);
                },
                None => {},
            }
        }
        let fits = all_compatible(constraints, &candidates[i].version) && all_compatible(
            &candidates[i].requires_python,
            python,
        );
        if fits {
            match found {
                Some(b) => {
                    if candidates[b].version.is_before(&candidates[i].version) {
                        found = Some(i);
                    }
                },
                None => {
                    found = Some(i);
                },
            }
        }
        i = i + 1;
    }
    assert(all.take(candidates.len() as int) == all);
    found
}

/// A selection found among the first selections is the one found among all of them.
pub proof fn lemma_position_prefix(selected: Seq<SelectedView>, name: Seq<char>, n: int)
    requires
        0 <= n <= selected.len(),
        position(selected.take(n), name) is Some,
    ensures
        position(selected, name) == position(selected.take(n), name),
    decreases selected.len() - n,
{
    if n < selected.len() {
        assert(selected.take(n + 1).drop_last() == selected.take(n));
        lemma_position_prefix(selected, name, n + 1);
    } else {
        assert(selected.take(n) == selected);
    }
}

/// The position of the selection for the package named `name`.
pub fn find_selected(selected: &Vec<Selected>, name: &str) -> (r: Option<usize>)
    ensures
        match r {
            Some(j) => j < selected.len() && position(selected_views(selected@), name@) == Some(
                j as int,
            ),
            None => position(selected_views(selected@), name@) is None,
        },
{
    let ghost all = selected_views(selected@);
    let mut i: usize = 0;
    assert(all.take(0) == Seq::<SelectedView>::empty());
    while i < selected.len()
        invariant
            i <= selected.len(),
            all == selected_views(selected@),
            position(all.take(i as int), name@) is None,
        decreases selected.len() - i,
    {
        proof {
            let upto = all.take(i + 1);
            assert(upto.drop_last() == all.take(i as int));
            assert(upto.last() == selected@[i as int]@);
        }
        if names_match(selected[i].name.as_str(), name) {
            proof {
                lemma_position_prefix(all, name@, i + 1);
            }
            return Some(i);
        }
        i = i + 1;
    }
    assert(all.take(selected.len() as int) == all);
    None
}

/// The requirements of the dependencies that hold for the optional groups `extras`.
pub fn applicable_reqs(deps: &Vec<Dependency>, extras: &Vec<String>) -> (r: Vec<Req>)
    ensures
        req_views(r@) == applicable(dependency_views(deps@), texts(extras@)),
{
    let ghost all = dependency_views(deps@);
    let mut r: Vec<Req> = Vec::new();
    let mut i: usize = 0;
    assert(all.take(0) == Seq::<DependencyView>::empty());
    assert(req_views(r@) =~= Seq::<ReqView>::empty());
    while i < deps.len()
        invariant
            i <= deps.len(),
            all == dependency_views(deps@),
            req_views(r@) == applicable(all.take(i as int), texts(extras@)),
        decreases deps.len() - i,
    {
        proof {
            let upto = all.take(i + 1);
            assert(upto.drop_last() == all.take(i as int));
            assert(upto.last() == deps@[i as int]@);
        }
        let holds = match &deps[i].extra {
            Some(e) => has_text(extras, e.as_str()),
            None => true,
        };
        if holds {
            let ghost before = req_views(r@);
            r.push(deps[i].req.duplicate());
            assert(req_views(r@) =~= before.push(deps@[i as int]@.req));
        }
        i = i + 1;
    }
    assert(all.take(deps.len() as int) == all);
    r
}

/// Whether the package named `a` comes before the package named `b`.
pub fn is_name_before(a: &str, b: &str) -> (r: bool)
    ensures
        r == name_before(a@, b@),
{
    is_text_before(&name_key(a), &name_key(b))
}

/// Adds `req` to the queue in its place.
pub fn enqueue_req(pending: &mut Vec<Req>, req: Req)
    ensures
        req_views(final(pending)@) == enqueue(req_views(old(pending)@), req@),
{
    let ghost all = req_views(pending@);
    let mut j: usize = 0;
    assert(all.skip(0) == all);
    while j < pending.len() && !is_name_before(req.name.as_str(), pending[j].name.as_str())
        invariant
            j <= pending.len(),
            *pending == *old(pending),
            all == req_views(pending@),
            insertion_point(all, req@.name) == j + insertion_point(all.skip(j as int), req@.name),
        decreases pending.len() - j,
    {
        assert(all.skip(j as int).skip(1) == all.skip(j + 1));
        assert(all.skip(j as int)[0] == pending@[j as int]@);
        j = j + 1;
    }
    proof {
        if j < pending.len() {
            assert(all.skip(j as int)[0] == pending@[j as int]@);
        }
    }
    let ghost view = req@;
    pending.insert(j, req);
    assert(req_views(pending@) =~= all.insert(j as int, view));
}

/// Adds each of `reqs` to the queue in its place, one after the other.
pub fn enqueue_reqs(pending: &mut Vec<Req>, reqs: &Vec<Req>)
    ensures
        req_views(final(pending)@) == enqueue_all(req_views(old(pending)@), req_views(reqs@)),
{
    let ghost all = req_views(reqs@);
    let mut i: usize = 0;
    assert(all.take(0) == Seq::<ReqView>::empty());
    while i < reqs.len()
        invariant
            i <= reqs.len(),
            all == req_views(reqs@),
            req_views(pending@) == enqueue_all(req_views(old(pending)@), all.take(i as int)),
        decreases reqs.len() - i,
    {
        proof {
            let upto = all.take(i + 1);
            assert(upto.drop_last() == all.take(i as int));
            assert(upto.last() == reqs@[i as int]@);
        }
        enqueue_req(pending, reqs[i].duplicate());
        i = i + 1;
    }
    assert(all.take(reqs.len() as int) == all);
}

/// A resolution in progress.
#[derive(Debug)]
pub struct Resolver {
    /// The interpreter's version.
    pub python: Version,
    /// The optional groups that were asked for.
    pub extras: Vec<String>,
    /// The requirements still to be looked at, ordered by name.
    pub pending: Vec<Req>,
    /// The selections made so far.
    pub selected: Vec<Selected>,
}

impl View for Resolver {
    type V = ResolverView;

    open spec fn view(&self) -> ResolverView {
        ResolverView {
            python: self.python,
            extras: texts(self.extras@),
            pending: req_views(self.pending@),
            selected: selected_views(self.selected@),
        }
    }
}

fn joined(first: &Vec<Constraint>, second: &Vec<Constraint>) -> (r: Vec<Constraint>)
    ensures
        r@ == first@ + second@,
{
    let mut r = copy_constraints(first);
    let mut i: usize = 0;
    assert(r@ == first@ + second@.take(0));
    while i < second.len()
        invariant
            i <= second.len(),
            r@ == first@ + second@.take(i as int),
        decreases second.len() - i,
    {
        r.push(second[i]);
        assert(second@.take(i + 1) == second@.take(i as int).push(second@[i as int]));
        assert(r@ == first@ + second@.take(i + 1));
        i = i + 1;
    }
    assert(second@.take(second.len() as int) == second@);
    r
}

impl Resolver {
    /// Begins the resolution of `reqs` for the interpreter `python` and the optional
    /// groups `extras`.
    pub fn new(reqs: &Vec<Req>, python: Version, extras: &Vec<String>) -> (r: Resolver)
        ensures
            r@ == initial(req_views(reqs@), python, texts(extras@)),
    {
        let mut pending: Vec<Req> = Vec::new();
        assert(req_views(pending@) =~= Seq::<ReqView>::empty());
        enqueue_reqs(&mut pending, reqs);
        let selected: Vec<Selected> = Vec::new();
        assert(selected_views(selected@) =~= Seq::<SelectedView>::empty());
        Resolver { python, extras: copy_texts(extras), pending, selected }
    }

    /// Whether nothing is queued any more: the selections are the resolution.
    pub fn is_done(&self) -> (r: bool)
        ensures
            r == (self@.pending.len() == 0),
    {
        self.pending.len() == 0
    }

    /// The name of the package whose published versions are needed next.
    pub fn next_name(&self) -> (r: &str)
        requires
            self@.pending.len() > 0,
        ensures
            r@ == self@.pending[0].name,
    {
        self.pending[0].name.as_str()
    }

    /// Looks at the first queued requirement, given the published versions `candidates`
    /// of its package. On an error the state is left as it was.
    pub fn feed(&mut self, candidates: &Vec<Candidate>) -> (r: Result<(), ResolveError>)
        requires
            old(self)@.pending.len() > 0,
        ensures
            match r {
                Ok(_) => advance(old(self)@, candidate_views(candidates@)) == Ok::<
                    ResolverView,
                    ResolveErrorView,
                >(final(self)@),
                Err(e) => advance(old(self)@, candidate_views(candidates@)) == Err::<
                    ResolverView,
                    ResolveErrorView,
                >(e@) && final(self)@ == old(self)@,
            },
    {
        let ghost state = self@;
        let ghost views = candidate_views(candidates@);
        let req = self.pending[0].duplicate();
        assert(req@ == state.pending[0]);
        match find_selected(&self.selected, req.name.as_str()) {
            None => match pick_best(candidates, &req.constraints, &self.python) {
                None => {
                    return Err(
                        ResolveError::Unsatisfiable {
                            name: req.name,
                            constraints: req.constraints,
                        },
                    );
                },
                Some(b) => {
                    assert(views[b as int] == candidates@[b as int]@);
                    let deps = applicable_reqs(&candidates[b].dependencies, &self.extras);
                    self.pending.remove(0);
                    assert(req_views(self.pending@) =~= state.pending.skip(1));
                    enqueue_reqs(&mut self.pending, &deps);
                    let entry = Selected {
                        name: req.name,
                        version: candidates[b].version,
                        constraints: req.constraints,
                        reselected: false,
                    };
                    let ghost entry_view = entry@;
                    self.selected.push(entry);
                    assert(selected_views(self.selected@) =~= state.selected.push(entry_view));
                    return Ok(());
                },
            },
            Some(j) => {
                let version = self.selected[j].version;
                let reselected = self.selected[j].reselected;
                let name = self.selected[j].name.clone();
                assert(state.selected[j as int] == self.selected@[j as int]@);
                let all = joined(&self.selected[j].constraints, &req.constraints);
                if all_compatible(&req.constraints, &version) {
                    self.pending.remove(0);
                    assert(req_views(self.pending@) =~= state.pending.skip(1));
                    let entry = Selected { name, version, constraints: all, reselected };
                    let ghost entry_view = entry@;
                    self.selected.set(j, entry);
                    assert(selected_views(self.selected@) =~= state.selected.update(
                        j as int,
                        entry_view,
                    ));
                    return Ok(());
                } else {
                    match pick_best(candidates, &req.constraints, &self.python) {
                        None => {
                            return Err(
                                ResolveError::Unsatisfiable {
                                    name: req.name,
                                    constraints: req.constraints,
                                },
                            );
                        },
                        Some(alone) => {
                            assert(views[alone as int] == candidates@[alone as int]@);
                            let again = pick_best(candidates, &all, &self.python);
                            if reselected || again.is_none() {
                                return Err(
                                    ResolveError::Conflict {
                                        name: req.name,
                                        constraints: all,
                                        first: version,
                                        second: candidates[alone].version,
                                    },
                                );
                            }
                            let b = again.unwrap();
                            assert(views[b as int] == candidates@[b as int]@);
                            let deps = applicable_reqs(&candidates[b].dependencies, &self.extras);
                            self.pending.remove(0);
                            assert(req_views(self.pending@) =~= state.pending.skip(1));
                            enqueue_reqs(&mut self.pending, &deps);
                            let entry = Selected {
                                name,
                                version: candidates[b].version,
                                constraints: all,
                                reselected: true,
                            };
                            let ghost entry_view = entry@;
                            self.selected.set(j, entry);
                            assert(selected_views(self.selected@) =~= state.selected.update(
                                j as int,
                                entry_view,
                            ));
                            Ok(())
                        },
                    }
                }
            },
        }
    }

    /// The packages selected so far, each at its selected version, in the order in which
    /// they were first met.
    pub fn resolved(&self) -> (r: Vec<Pin>)
        ensures
            pin_views(r@) == selections(self@.selected),
    {
        let mut r: Vec<Pin> = Vec::new();
        let mut i: usize = 0;
        while i < self.selected.len()
            invariant
                i <= self.selected.len(),
                r@.len() == i,
                forall|k: int|
                    0 <= k < i ==> (#[trigger] r@[k])@ == (PinView {
                        name: self.selected@[k].name@,
                        version: self.selected@[k].version,
                    }),
            decreases self.selected.len() - i,
        {
            r.push(Pin::new(self.selected[i].name.clone(), self.selected[i].version));
            i = i + 1;
        }
        assert(pin_views(r@) =~= selections(self@.selected));
        r
    }
}

/// The position found for a name is that of a selection for a package of that name.
pub proof fn lemma_position_found(selected: Seq<SelectedView>, name: Seq<char>)
    ensures
        match position(selected, name) {
            Some(j) => 0 <= j < selected.len() && same_name(selected[j].name, name),
            None => forall|i: int|
                0 <= i < selected.len() ==> !same_name((#[trigger] selected[i]).name, name),
        },
    decreases selected.len(),
{
    if selected.len() > 0 {
        lemma_position_found(selected.drop_last(), name);
        match position(selected.drop_last(), name) {
            Some(j) => {
                assert(selected.drop_last()[j] == selected[j]);
            },
            None => {
                assert forall|i: int| 0 <= i < selected.len() - 1 implies !same_name(
                    (#[trigger] selected[i]).name,
                    name,
                ) by {
                    assert(selected.drop_last()[i] == selected[i]);
                }
            },
        }
    }
}

/// Two names of the same package are found at the same position.
pub proof fn lemma_position_same_name(selected: Seq<SelectedView>, a: Seq<char>, b: Seq<char>)
    requires
        same_name(a, b),
    ensures
        position(selected, a) == position(selected, b),
    decreases selected.len(),
{
    if selected.len() > 0 {
        lemma_position_same_name(selected.drop_last(), a, b);
    }
}

/// Replacing a selection by one for the same name leaves every position as it was.
pub proof fn lemma_position_update(
    selected: Seq<SelectedView>,
    j: int,
    entry: SelectedView,
    name: Seq<char>,
)
    requires
        0 <= j < selected.len(),
        entry.name == selected[j].name,
    ensures
        position(selected.update(j, entry), name) == position(selected, name),
    decreases selected.len(),
{
    let changed = selected.update(j, entry);
    if j < selected.len() - 1 {
        assert(changed.drop_last() == selected.drop_last().update(j, entry));
        lemma_position_update(selected.drop_last(), j, entry, name);
    } else {
        assert(changed.drop_last() == selected.drop_last());
    }
}

} // verus!
