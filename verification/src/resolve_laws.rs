//! What holds of every resolution.

use vstd::prelude::*;
use crate::constraint::{admits_all, Constraint};
use crate::names::same_name;
use crate::package::{unique_names, PinView};
use crate::req::ReqView;
use crate::resolution::{
    lemma_advance_decreases, lemma_lookup_found, lookup, run, total_slack, IndexEntryView,
};
use crate::resolve::{
    advance, applicable, best, eligible, enqueue, enqueue_all, initial, insertion_point,
    lemma_position_found, position, selections, CandidateView, ResolverView,
};
use crate::version::Version;

verus! {

/// Every selected version satisfies the constraints met on its package, and no package
/// is selected twice.
pub open spec fn sound(state: ResolverView) -> bool {
    &&& forall|j: int|
        0 <= j < state.selected.len() ==> admits_all(
            (#[trigger] state.selected[j]).constraints,
            state.selected[j].version,
        )
    &&& forall|i: int, j: int|
        0 <= i < j < state.selected.len() ==> !same_name(
            (#[trigger] state.selected[i]).name,
            (#[trigger] state.selected[j]).name,
        )
}

/// Each of the constraints `wanted` is among the constraints `have`.
pub open spec fn holds_all(have: Seq<Constraint>, wanted: Seq<Constraint>) -> bool {
    forall|k: int| 0 <= k < wanted.len() ==> have.contains(#[trigger] wanted[k])
}

/// The requirement is still queued, or its package is selected and its constraints are
/// among those met on that package.
pub open spec fn covered(state: ResolverView, req: ReqView) -> bool {
    state.pending.contains(req) || exists|j: int|
        0 <= j < state.selected.len() && same_name((#[trigger] state.selected[j]).name, req.name)
            && holds_all(state.selected[j].constraints, req.constraints)
}

/// The resolution holds a version of the requirement's package that satisfies the
/// requirement.
pub open spec fn satisfied(pins: Seq<PinView>, req: ReqView) -> bool {
    exists|j: int|
        0 <= j < pins.len() && same_name((#[trigger] pins[j]).name, req.name) && admits_all(
            req.constraints,
            pins[j].version,
        )
}

/// The version picked is one that can be selected, and no version that can be selected is
/// higher; where none is picked, none can be selected.
pub proof fn lemma_best_is_highest(
    candidates: Seq<CandidateView>,
    constraints: Seq<Constraint>,
    python: Version,
)
    ensures
        match best(candidates, constraints, python) {
            Some(b) => {
                &&& 0 <= b < candidates.len()
                &&& eligible(candidates[b], constraints, python)
                &&& forall|k: int|
                    0 <= k < candidates.len() && eligible(
                        #[trigger] candidates[k],
                        constraints,
                        python,
                    ) ==> !candidates[b].version.precedes(candidates[k].version)
            },
            None => forall|k: int|
                0 <= k < candidates.len() ==> !eligible(
                    #[trigger] candidates[k],
                    constraints,
                    python,
                ),
        },
    decreases candidates.len(),
{
    if candidates.len() > 0 {
        let front = candidates.drop_last();
        let last = candidates.len() - 1;
        lemma_best_is_highest(front, constraints, python);
        assert forall|k: int| 0 <= k < last implies front[k] == #[trigger] candidates[k] by {}
        match best(front, constraints, python) {
            Some(b) => {
                assert(front[b] == candidates[b]);
                let now = best(candidates, constraints, python).unwrap();
                assert forall|k: int|
                    0 <= k < candidates.len() && eligible(
                        #[trigger] candidates[k],
                        constraints,
                        python,
                    ) implies !candidates[now].version.precedes(candidates[k].version) by {
                    if k < last {
                        assert(front[k] == candidates[k]);
                        crate::version::lemma_version_order_total(
                            candidates[b].version,
                            candidates[last].version,
                            candidates[k].version,
                        );
                        crate::version::lemma_version_order_total(
                            candidates[last].version,
                            candidates[k].version,
                            candidates[b].version,
                        );
                    }
                }
            },
            None => {},
        }
    }
}

/// A requirement enters the queue at a position within it.
pub proof fn lemma_insertion_point_bounds(pending: Seq<ReqView>, name: Seq<char>)
    ensures
        0 <= insertion_point(pending, name) <= pending.len(),
    decreases pending.len(),
{
    if !(pending.len() == 0 || crate::resolve::name_before(name, pending[0].name)) {
        lemma_insertion_point_bounds(pending.skip(1), name);
    }
}

/// The queue with a requirement added holds that requirement and all it held before.
pub proof fn lemma_enqueue_keeps(pending: Seq<ReqView>, req: ReqView, x: ReqView)
    requires
        pending.contains(x) || x == req,
    ensures
        enqueue(pending, req).contains(x),
{
    lemma_insertion_point_bounds(pending, req.name);
    let at = insertion_point(pending, req.name);
    let longer = enqueue(pending, req);
    if x == req {
        assert(longer[at] == req);
    } else {
        let i = choose|i: int| 0 <= i < pending.len() && pending[i] == x;
        if i < at {
            assert(longer[i] == x);
        } else {
            assert(longer[i + 1] == x);
        }
    }
}

/// The queue with requirements added holds those requirements and all it held before.
pub proof fn lemma_enqueue_all_keeps(pending: Seq<ReqView>, reqs: Seq<ReqView>, x: ReqView)
    requires
        pending.contains(x) || reqs.contains(x),
    ensures
        enqueue_all(pending, reqs).contains(x),
    decreases reqs.len(),
{
    if reqs.len() > 0 {
        let front = reqs.drop_last();
        if x == reqs.last() {
        } else {
            if reqs.contains(x) {
                let i = choose|i: int| 0 <= i < reqs.len() && reqs[i] == x;
                assert(front[i] == x);
            }
            lemma_enqueue_all_keeps(pending, front, x);
        }
        lemma_enqueue_keeps(enqueue_all(pending, front), reqs.last(), x);
    }
}

/// A step keeps the state sound.
pub proof fn lemma_advance_sound(state: ResolverView, candidates: Seq<CandidateView>)
    requires
        state.pending.len() > 0,
        sound(state),
        advance(state, candidates) is Ok,
    ensures
        sound(advance(state, candidates)->Ok_0),
{
    let req = state.pending[0];
    let next = advance(state, candidates)->Ok_0;
    let before = state.selected;
    let after = next.selected;
    lemma_position_found(before, req.name);
    lemma_best_is_highest(candidates, req.constraints, state.python);
    match position(before, req.name) {
        None => {
            assert forall|j: int| 0 <= j < after.len() implies admits_all(
                (#[trigger] after[j]).constraints,
                after[j].version,
            ) by {
                if j < before.len() {
                    assert(after[j] == before[j]);
                }
            }
            assert forall|i: int, j: int| 0 <= i < j < after.len() implies !same_name(
                (#[trigger] after[i]).name,
                (#[trigger] after[j]).name,
            ) by {
                assert(after[i] == before[i]);
                if j < before.len() {
                    assert(after[j] == before[j]);
                }
            }
        },
        Some(p) => {
            let held = before[p];
            let all = held.constraints + req.constraints;
            lemma_best_is_highest(candidates, all, state.python);
            assert(admits_all(all, after[p].version)) by {
                if admits_all(req.constraints, held.version) {
                    assert forall|k: int| 0 <= k < all.len() implies (#[trigger] all[k]).admits(
                        held.version,
                    ) by {
                        if k < held.constraints.len() {
                            assert(all[k] == held.constraints[k]);
                        } else {
                            assert(all[k] == req.constraints[k - held.constraints.len()]);
                        }
                    }
                }
            }
            assert forall|j: int| 0 <= j < after.len() implies admits_all(
                (#[trigger] after[j]).constraints,
                after[j].version,
            ) by {
                if j != p {
                    assert(after[j] == before[j]);
                }
            }
            assert forall|i: int, j: int| 0 <= i < j < after.len() implies !same_name(
                (#[trigger] after[i]).name,
                (#[trigger] after[j]).name,
            ) by {
                assert(after[i].name == before[i].name);
                assert(after[j].name == before[j].name);
            }
        },
    }
}

/// A step keeps every requirement covered.
pub proof fn lemma_advance_covered(
    state: ResolverView,
    candidates: Seq<CandidateView>,
    req: ReqView,
)
    requires
        state.pending.len() > 0,
        covered(state, req),
        advance(state, candidates) is Ok,
    ensures
        covered(advance(state, candidates)->Ok_0, req),
{
    let first = state.pending[0];
    let rest = state.pending.skip(1);
    let next = advance(state, candidates)->Ok_0;
    let before = state.selected;
    let after = next.selected;
    lemma_position_found(before, first.name);
    let queued = state.pending.contains(req);
    let at = if queued {
        choose|i: int| 0 <= i < state.pending.len() && state.pending[i] == req
    } else {
        0
    };
    if queued && at >= 1 {
        assert(rest[at - 1] == req);
        assert(rest.contains(req));
        match position(before, first.name) {
            None => {
                let b = best(candidates, first.constraints, state.python).unwrap();
                lemma_enqueue_all_keeps(
                    rest,
                    applicable(candidates[b].dependencies, state.extras),
                    req,
                );
            },
            Some(p) => {
                let all = before[p].constraints + first.constraints;
                if !admits_all(first.constraints, before[p].version) {
                    let b = best(candidates, all, state.python).unwrap();
                    lemma_enqueue_all_keeps(
                        rest,
                        applicable(candidates[b].dependencies, state.extras),
                        req,
                    );
                }
            },
        }
    } else if queued {
        assert(req == first);
        match position(before, first.name) {
            None => {
                let j = before.len() as int;
                assert(same_name(after[j].name, req.name));
                assert forall|k: int| 0 <= k < req.constraints.len() implies after[j].constraints.contains(
                    #[trigger] req.constraints[k],
                ) by {
                    assert(after[j].constraints[k] == req.constraints[k]);
                }
                assert(holds_all(after[j].constraints, req.constraints));
            },
            Some(p) => {
                let held = before[p];
                assert(same_name(after[p].name, req.name));
                assert forall|k: int| 0 <= k < req.constraints.len() implies after[p].constraints.contains(
                    #[trigger] req.constraints[k],
                ) by {
                    assert(after[p].constraints[held.constraints.len() + k] == req.constraints[k]);
                }
                assert(holds_all(after[p].constraints, req.constraints));
            },
        }
    } else {
        let j = choose|j: int|
            0 <= j < before.len() && same_name((#[trigger] before[j]).name, req.name) && holds_all(
                before[j].constraints,
                req.constraints,
            );
        match position(before, first.name) {
            None => {
                assert(after[j] == before[j]);
            },
            Some(p) => {
                if j == p {
                    let held = before[p];
                    assert(after[p].name == held.name);
                    assert forall|k: int| 0 <= k < req.constraints.len() implies after[p].constraints.contains(
                        #[trigger] req.constraints[k],
                    ) by {
                        let c = req.constraints[k];
                        assert(held.constraints.contains(c));
                        let m = choose|m: int|
                            0 <= m < held.constraints.len() && held.constraints[m] == c;
                        assert(after[p].constraints[m] == c);
                    }
                    assert(holds_all(after[p].constraints, req.constraints));
                } else {
                    assert(after[j] == before[j]);
                }
                assert(same_name(after[j].name, req.name));
            },
        }
    }
}

/// A resolution that ends well from a sound state ends in a sound state with nothing
/// queued, and a requirement that was covered at the start is covered at the end.
pub proof fn lemma_run_keeps(state: ResolverView, index: Seq<IndexEntryView>, req: ReqView)
    requires
        sound(state),
        covered(state, req),
        run(state, index) is Ok,
    ensures
        sound(run(state, index)->Ok_0),
        covered(run(state, index)->Ok_0, req),
        (run(state, index)->Ok_0).pending.len() == 0,
    decreases total_slack(index, state.selected), state.pending.len(),
{
    if state.pending.len() > 0 {
        let k = lookup(index, state.pending[0].name).unwrap();
        lemma_lookup_found(index, state.pending[0].name);
        let next = advance(state, index[k].candidates)->Ok_0;
        lemma_advance_decreases(state, index, k);
        lemma_advance_sound(state, index[k].candidates);
        lemma_advance_covered(state, index[k].candidates, req);
        lemma_run_keeps(next, index, req);
    }
}

/// In every resolution no package occurs twice, and every requirement that was given is
/// satisfied by the version chosen for its package.
pub proof fn lemma_resolution(
    reqs: Seq<ReqView>,
    python: Version,
    extras: Seq<Seq<char>>,
    index: Seq<IndexEntryView>,
)
    requires
        run(initial(reqs, python, extras), index) is Ok,
    ensures
        unique_names(selections((run(initial(reqs, python, extras), index)->Ok_0).selected)),
        forall|i: int|
            0 <= i < reqs.len() ==> satisfied(
                selections((run(initial(reqs, python, extras), index)->Ok_0).selected),
                #[trigger] reqs[i],
            ),
{
    let start = initial(reqs, python, extras);
    let last = run(start, index)->Ok_0;
    let pins = selections(last.selected);
    assert(sound(start));
    lemma_run_ends_sound(start, index);
    assert forall|i: int| 0 <= i < reqs.len() implies satisfied(pins, #[trigger] reqs[i]) by {
        let req = reqs[i];
        assert(reqs.contains(req));
        lemma_enqueue_all_keeps(Seq::empty(), reqs, req);
        lemma_run_keeps(start, index, req);
        lemma_covered_is_satisfied(last, req);
    }
    assert forall|i: int, j: int| 0 <= i < j < pins.len() implies !same_name(
        (#[trigger] pins[i]).name,
        (#[trigger] pins[j]).name,
    ) by {
        assert(pins[i].name == last.selected[i].name);
        assert(pins[j].name == last.selected[j].name);
    }
}

/// The selection is the published version at position `b` of the entry at position `k` of
/// the index, and the interpreter satisfies what that version requires of it.
pub open spec fn chosen_from(
    index: Seq<IndexEntryView>,
    python: Version,
    name: Seq<char>,
    version: Version,
    k: int,
    b: int,
) -> bool {
    &&& 0 <= k < index.len()
    &&& same_name(index[k].name, name)
    &&& 0 <= b < index[k].candidates.len()
    &&& index[k].candidates[b].version == version
    &&& admits_all(index[k].candidates[b].requires_python, python)
}

/// Every dependency of the published version that holds for the optional groups asked for
/// is covered.
pub open spec fn dependencies_covered(state: ResolverView, candidate: CandidateView) -> bool {
    forall|d: int|
        0 <= d < applicable(candidate.dependencies, state.extras).len() ==> covered(
            state,
            #[trigger] applicable(candidate.dependencies, state.extras)[d],
        )
}

/// The selection comes from the index, and the dependencies of the selected version are
/// covered.
pub open spec fn backed(state: ResolverView, index: Seq<IndexEntryView>, j: int) -> bool {
    exists|k: int, b: int|
        #[trigger] chosen_from(
            index,
            state.python,
            state.selected[j].name,
            state.selected[j].version,
            k,
            b,
        ) && dependencies_covered(state, index[k].candidates[b])
}

/// Every selection is backed.
pub open spec fn closed(state: ResolverView, index: Seq<IndexEntryView>) -> bool {
    forall|j: int| 0 <= j < state.selected.len() ==> #[trigger] backed(state, index, j)
}

/// A step with the published versions that the index holds keeps the state closed.
pub proof fn lemma_advance_closed(state: ResolverView, index: Seq<IndexEntryView>, k: int)
    requires
        state.pending.len() > 0,
        lookup(index, state.pending[0].name) == Some(k),
        closed(state, index),
        advance(state, index[k].candidates) is Ok,
    ensures
        closed(advance(state, index[k].candidates)->Ok_0, index),
{
    let req = state.pending[0];
    let rest = state.pending.skip(1);
    let candidates = index[k].candidates;
    let next = advance(state, candidates)->Ok_0;
    let before = state.selected;
    let after = next.selected;
    lemma_lookup_found(index, req.name);
    lemma_position_found(before, req.name);
    let at = match position(before, req.name) {
        None => before.len() as int,
        Some(p) => p,
    };
    let fresh = position(before, req.name) is None || !admits_all(
        req.constraints,
        before[at].version,
    );
    assert forall|j: int| 0 <= j < after.len() implies #[trigger] backed(next, index, j) by {
        if j == at && fresh {
            let constraints = after[at].constraints;
            lemma_best_is_highest(candidates, constraints, state.python);
            let b = best(candidates, constraints, state.python).unwrap();
            let deps = applicable(candidates[b].dependencies, state.extras);
            assert(next.pending == enqueue_all(rest, deps));
            assert forall|d: int| 0 <= d < deps.len() implies covered(next, #[trigger] deps[d]) by {
                assert(deps.contains(deps[d]));
                lemma_enqueue_all_keeps(rest, deps, deps[d]);
            }
            assert(chosen_from(index, next.python, after[at].name, after[at].version, k, b));
        } else {
            assert(backed(state, index, j));
            let (k1, b1) = choose|k1: int, b1: int|
                #[trigger] chosen_from(
                    index,
                    state.python,
                    before[j].name,
                    before[j].version,
                    k1,
                    b1,
                ) && dependencies_covered(state, index[k1].candidates[b1]);
            let deps = applicable(index[k1].candidates[b1].dependencies, state.extras);
            assert forall|d: int| 0 <= d < deps.len() implies covered(next, #[trigger] deps[d]) by {
                lemma_advance_covered(state, candidates, deps[d]);
            }
            assert(after[j].name == before[j].name && after[j].version == before[j].version);
            assert(chosen_from(index, next.python, after[j].name, after[j].version, k1, b1));
        }
    }
}

/// A resolution that ends well from a closed state ends in a closed state.
pub proof fn lemma_run_closed(state: ResolverView, index: Seq<IndexEntryView>)
    requires
        closed(state, index),
        run(state, index) is Ok,
    ensures
        closed(run(state, index)->Ok_0, index),
        (run(state, index)->Ok_0).python == state.python,
        (run(state, index)->Ok_0).extras == state.extras,
    decreases total_slack(index, state.selected), state.pending.len(),
{
    if state.pending.len() > 0 {
        let k = lookup(index, state.pending[0].name).unwrap();
        lemma_lookup_found(index, state.pending[0].name);
        let next = advance(state, index[k].candidates)->Ok_0;
        lemma_advance_decreases(state, index, k);
        lemma_advance_closed(state, index, k);
        lemma_run_closed(next, index);
    }
}

/// Every dependency of the published version that holds for the optional groups `extras`
/// is satisfied by `pins`.
pub open spec fn dependencies_satisfied(
    pins: Seq<PinView>,
    candidate: CandidateView,
    extras: Seq<Seq<char>>,
) -> bool {
    forall|d: int|
        0 <= d < applicable(candidate.dependencies, extras).len() ==> satisfied(
            pins,
            #[trigger] applicable(candidate.dependencies, extras)[d],
        )
}

/// The pin is a version that the index publishes and that admits the interpreter, and the
/// dependencies of that version are satisfied by `pins`.
pub open spec fn published(
    index: Seq<IndexEntryView>,
    python: Version,
    extras: Seq<Seq<char>>,
    pins: Seq<PinView>,
    pin: PinView,
) -> bool {
    exists|k: int, b: int|
        #[trigger] chosen_from(index, python, pin.name, pin.version, k, b)
            && dependencies_satisfied(pins, index[k].candidates[b], extras)
}

/// Every package of a resolution is at a version that the index publishes and that admits
/// the interpreter, and every dependency of that version that holds for the optional
/// groups asked for is satisfied by the resolution.
pub proof fn lemma_resolution_closed(
    reqs: Seq<ReqView>,
    python: Version,
    extras: Seq<Seq<char>>,
    index: Seq<IndexEntryView>,
    j: int,
)
    requires
        run(initial(reqs, python, extras), index) is Ok,
        0 <= j < selections((run(initial(reqs, python, extras), index)->Ok_0).selected).len(),
    ensures
        published(
            index,
            python,
            extras,
            selections((run(initial(reqs, python, extras), index)->Ok_0).selected),
            selections((run(initial(reqs, python, extras), index)->Ok_0).selected)[j],
        ),
{
    let start = initial(reqs, python, extras);
    let last = run(start, index)->Ok_0;
    let pins = selections(last.selected);
    assert(closed(start, index));
    lemma_run_closed(start, index);
    lemma_run_ends_sound(start, index);
    assert(backed(last, index, j));
    let (k, b) = choose|k: int, b: int|
        #[trigger] chosen_from(
            index,
            last.python,
            last.selected[j].name,
            last.selected[j].version,
            k,
            b,
        ) && dependencies_covered(last, index[k].candidates[b]);
    let deps = applicable(index[k].candidates[b].dependencies, extras);
    assert forall|d: int| 0 <= d < deps.len() implies satisfied(pins, #[trigger] deps[d]) by {
        assert(covered(last, deps[d]));
        lemma_covered_is_satisfied(last, deps[d]);
    }
    assert(chosen_from(index, python, pins[j].name, pins[j].version, k, b));
}

/// A resolution that ends well from a sound state ends in a sound state with nothing
/// queued.
pub proof fn lemma_run_ends_sound(state: ResolverView, index: Seq<IndexEntryView>)
    requires
        sound(state),
        run(state, index) is Ok,
    ensures
        sound(run(state, index)->Ok_0),
        (run(state, index)->Ok_0).pending.len() == 0,
    decreases total_slack(index, state.selected), state.pending.len(),
{
    if state.pending.len() > 0 {
        let k = lookup(index, state.pending[0].name).unwrap();
        lemma_lookup_found(index, state.pending[0].name);
        let next = advance(state, index[k].candidates)->Ok_0;
        lemma_advance_decreases(state, index, k);
        lemma_advance_sound(state, index[k].candidates);
        lemma_run_ends_sound(next, index);
    }
}

/// In a sound state with nothing queued, a covered requirement is satisfied by the
/// selections.
pub proof fn lemma_covered_is_satisfied(state: ResolverView, req: ReqView)
    requires
        sound(state),
        state.pending.len() == 0,
        covered(state, req),
    ensures
        satisfied(selections(state.selected), req),
{
    let pins = selections(state.selected);
    assert(!state.pending.contains(req));
    let j = choose|j: int|
        0 <= j < state.selected.len() && same_name((#[trigger] state.selected[j]).name, req.name)
            && holds_all(state.selected[j].constraints, req.constraints);
    let held = state.selected[j];
    assert forall|k: int| 0 <= k < req.constraints.len() implies (#[trigger] req.constraints[k]).admits(
        held.version,
    ) by {
        let c = req.constraints[k];
        assert(held.constraints.contains(c));
        let m = choose|m: int| 0 <= m < held.constraints.len() && held.constraints[m] == c;
        assert(held.constraints[m].admits(held.version));
    }
    assert(pins[j].name == held.name && pins[j].version == held.version);
}

/// The state after the steps that `answers` lead to, where each step has something queued
/// and succeeds: `answers` holds, step by step, the published versions that were fed in.
pub open spec fn fed(state: ResolverView, answers: Seq<Seq<CandidateView>>) -> Option<
    ResolverView,
>
    decreases answers.len(),
{
    if answers.len() == 0 {
        Some(state)
    } else {
        match fed(state, answers.drop_last()) {
            Some(before) => if before.pending.len() > 0 {
                match advance(before, answers.last()) {
                    Ok(after) => Some(after),
                    Err(_) => None,
                }
            } else {
                None
            },
            None => None,
        }
    }
}

/// Steps that succeed lead from a sound state to a sound state, and keep covered what was
/// covered, whatever is fed in.
pub proof fn lemma_fed_keeps(state: ResolverView, answers: Seq<Seq<CandidateView>>, req: ReqView)
    requires
        sound(state),
        covered(state, req),
        fed(state, answers) is Some,
    ensures
        sound(fed(state, answers).unwrap()),
        covered(fed(state, answers).unwrap(), req),
    decreases answers.len(),
{
    if answers.len() > 0 {
        lemma_fed_keeps(state, answers.drop_last(), req);
        let before = fed(state, answers.drop_last()).unwrap();
        lemma_advance_sound(before, answers.last());
        lemma_advance_covered(before, answers.last(), req);
    }
}

/// However the resolver is driven: once its steps have succeeded and nothing is queued,
/// no package occurs twice among the selections, and every requirement that was given is
/// satisfied by the version selected for its package.
pub proof fn lemma_driven_resolution(
    reqs: Seq<ReqView>,
    python: Version,
    extras: Seq<Seq<char>>,
    answers: Seq<Seq<CandidateView>>,
)
    requires
        fed(initial(reqs, python, extras), answers) is Some,
        fed(initial(reqs, python, extras), answers).unwrap().pending.len() == 0,
    ensures
        unique_names(selections(fed(initial(reqs, python, extras), answers).unwrap().selected)),
        forall|i: int|
            0 <= i < reqs.len() ==> satisfied(
                selections(fed(initial(reqs, python, extras), answers).unwrap().selected),
                #[trigger] reqs[i],
            ),
{
    let start = initial(reqs, python, extras);
    let last = fed(start, answers).unwrap();
    let pins = selections(last.selected);
    assert(sound(start));
    assert forall|i: int| 0 <= i < reqs.len() implies satisfied(pins, #[trigger] reqs[i]) by {
        let req = reqs[i];
        assert(reqs.contains(req));
        lemma_enqueue_all_keeps(Seq::empty(), reqs, req);
        lemma_fed_keeps(start, answers, req);
        lemma_covered_is_satisfied(last, req);
    }
    if reqs.len() > 0 {
        assert(reqs.contains(reqs[0]));
        lemma_enqueue_all_keeps(Seq::empty(), reqs, reqs[0]);
        lemma_fed_keeps(start, answers, reqs[0]);
    } else {
        lemma_fed_sound(start, answers);
    }
    assert forall|i: int, j: int| 0 <= i < j < pins.len() implies !same_name(
        (#[trigger] pins[i]).name,
        (#[trigger] pins[j]).name,
    ) by {
        assert(pins[i].name == last.selected[i].name);
        assert(pins[j].name == last.selected[j].name);
    }
}

/// Steps that succeed lead from a sound state to a sound state.
pub proof fn lemma_fed_sound(state: ResolverView, answers: Seq<Seq<CandidateView>>)
    requires
        sound(state),
        fed(state, answers) is Some,
    ensures
        sound(fed(state, answers).unwrap()),
    decreases answers.len(),
{
    if answers.len() > 0 {
        lemma_fed_sound(state, answers.drop_last());
        lemma_advance_sound(fed(state, answers.drop_last()).unwrap(), answers.last());
    }
}

} // verus!
