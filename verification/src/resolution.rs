//! Resolving against the published versions that an index holds: the steps of the resolver
//! made one after the other until nothing is queued.

use vstd::prelude::*;
use crate::constraint::admits_all;
use crate::names::{names_match, same_name};
use crate::package::{pin_views, unique_names, Pin};
use crate::req::{req_views, texts, Req};
use crate::resolve::{
    advance, best, candidate_views, initial, lemma_position_found, lemma_position_same_name,
    lemma_position_update, position, selections, Candidate, CandidateView, ResolveError,
    ResolveErrorView, Resolver, ResolverView, SelectedView,
};
use crate::resolve_laws::{lemma_resolution, satisfied};
use crate::version::Version;

verus! {

/// What the index holds of one package: its name and its published versions.
#[derive(Clone, Debug)]
pub struct IndexEntry {
    pub name: String,
    pub candidates: Vec<Candidate>,
}

/// What the index holds of one package, as mathematical values.
pub struct IndexEntryView {
    pub name: Seq<char>,
    pub candidates: Seq<CandidateView>,
}

impl View for IndexEntry {
    type V = IndexEntryView;

    open spec fn view(&self) -> IndexEntryView {
        IndexEntryView { name: self.name@, candidates: candidate_views(self.candidates@) }
    }
}

/// The entries of an index, as mathematical values.
pub open spec fn index_views(index: Seq<IndexEntry>) -> Seq<IndexEntryView> {
    index.map_values(|e: IndexEntry| e@)
}

/// The position of the first entry of the index for the package named `name`.
pub open spec fn lookup(index: Seq<IndexEntryView>, name: Seq<char>) -> Option<int>
    decreases index.len(),
{
    if index.len() == 0 {
        None
    } else {
        match lookup(index.drop_last(), name) {
            Some(k) => Some(k),
            None => if same_name(index.last().name, name) {
                Some(index.len() - 1)
            } else {
                None
            },
        }
    }
}

/// How many selections can still be made for the package named `name`: two where it has
/// none, one where its selection was not revised yet, none where it was.
pub open spec fn slack(selected: Seq<SelectedView>, name: Seq<char>) -> nat {
    match position(selected, name) {
        None => 2,
        Some(j) => if selected[j].reselected {
            0
        } else {
            1
        },
    }
}

/// How many selections can still be made for the packages of the index, all together.
pub open spec fn total_slack(index: Seq<IndexEntryView>, selected: Seq<SelectedView>) -> nat
    decreases index.len(),
{
    if index.len() == 0 {
        0
    } else {
        total_slack(index.drop_last(), selected) + slack(selected, index.last().name)
    }
}

/// The entry found for a name is an entry for a package of that name.
pub proof fn lemma_lookup_found(index: Seq<IndexEntryView>, name: Seq<char>)
    ensures
        match lookup(index, name) {
            Some(k) => 0 <= k < index.len() && same_name(index[k].name, name),
            None => true,
        },
    decreases index.len(),
{
    if index.len() > 0 {
        lemma_lookup_found(index.drop_last(), name);
        match lookup(index.drop_last(), name) {
            Some(k) => {
                assert(index.drop_last()[k] == index[k]);
            },
            None => {},
        }
    }
}

/// Where no package has more slack than before, the total is no larger; where one of the
/// index has less, the total is smaller.
pub proof fn lemma_total_slack(
    index: Seq<IndexEntryView>,
    before: Seq<SelectedView>,
    after: Seq<SelectedView>,
)
    requires
        forall|name: Seq<char>| slack(after, name) <= slack(before, name),
    ensures
        total_slack(index, after) <= total_slack(index, before),
        forall|k: int|
            0 <= k < index.len() && slack(after, (#[trigger] index[k]).name) < slack(
                before,
                index[k].name,
            ) ==> total_slack(index, after) < total_slack(index, before),
    decreases index.len(),
{
    if index.len() > 0 {
        lemma_total_slack(index.drop_last(), before, after);
        assert forall|k: int|
            0 <= k < index.len() && slack(after, (#[trigger] index[k]).name) < slack(
                before,
                index[k].name,
            ) implies total_slack(index, after) < total_slack(index, before) by {
            if k < index.len() - 1 {
                assert(index.drop_last()[k] == index[k]);
            }
        }
    }
}

/// A step that succeeds uses up slack of the package it looked at, or else shortens the
/// queue and leaves all slack as it was.
pub proof fn lemma_advance_decreases(state: ResolverView, index: Seq<IndexEntryView>, k: int)
    requires
        state.pending.len() > 0,
        lookup(index, state.pending[0].name) == Some(k),
        advance(state, index[k].candidates) is Ok,
    ensures
        ({
            let next = advance(state, index[k].candidates)->Ok_0;
            total_slack(index, next.selected) < total_slack(index, state.selected) || (
            total_slack(index, next.selected) == total_slack(index, state.selected)
                && next.pending.len() < state.pending.len())
        }),
{
    let req = state.pending[0];
    let candidates = index[k].candidates;
    let next = advance(state, candidates)->Ok_0;
    let before = state.selected;
    let after = next.selected;
    lemma_lookup_found(index, req.name);
    lemma_position_same_name(before, index[k].name, req.name);
    lemma_position_found(before, req.name);
    match position(before, req.name) {
        None => {
            let b = best(candidates, req.constraints, state.python).unwrap();
            assert(after.drop_last() == before);
            assert forall|name: Seq<char>| slack(after, name) <= slack(before, name) by {
                lemma_position_found(before, name);
                match position(before, name) {
                    Some(j) => {
                        assert(after[j] == before[j]);
                    },
                    None => {},
                }
            }
            lemma_position_same_name(after, index[k].name, req.name);
            assert(slack(after, index[k].name) < slack(before, index[k].name));
            lemma_total_slack(index, before, after);
        },
        Some(j) => {
            let held = before[j];
            assert forall|name: Seq<char>| position(after, name) == position(before, name) by {
                lemma_position_update(before, j, after[j], name);
            }
            if admits_all(req.constraints, held.version) {
                assert forall|name: Seq<char>| slack(after, name) == slack(before, name) by {
                    lemma_position_found(before, name);
                }
                lemma_total_slack(index, before, after);
                lemma_total_slack(index, after, before);
                assert(next.pending == state.pending.skip(1));
            } else {
                assert forall|name: Seq<char>| slack(after, name) <= slack(before, name) by {
                    lemma_position_found(before, name);
                }
                assert(slack(after, index[k].name) < slack(before, index[k].name));
                lemma_total_slack(index, before, after);
            }
        },
    }
}

/// The state in which a resolution ends when the published versions of each package are
/// taken from `index`: the steps are made one after the other until nothing is queued,
/// a step fails, or a package is met that the index does not hold.
pub open spec fn run(state: ResolverView, index: Seq<IndexEntryView>) -> Result<
    ResolverView,
    ResolveErrorView,
>
    decreases total_slack(index, state.selected), state.pending.len(),
{
    if state.pending.len() == 0 {
        Ok(state)
    } else {
        match lookup(index, state.pending[0].name) {
            None => Err(ResolveErrorView::Missing { name: state.pending[0].name }),
            Some(k) => match advance(state, index[k].candidates) {
                Err(e) => Err(e),
                Ok(next) => {
                    proof {
                        lemma_advance_decreases(state, index, k);
                    }
                    run(next, index)
                },
            },
        }
    }
}

/// The position of the first entry of the index for the package named `name`.
pub fn find_entry(index: &Vec<IndexEntry>, name: &str) -> (r: Option<usize>)
    ensures
        match r {
            Some(k) => k < index.len() && lookup(index_views(index@), name@) == Some(k as int),
            None => lookup(index_views(index@), name@) is None,
        },
{
    let ghost all = index_views(index@);
    let mut i: usize = 0;
    assert(all.take(0) == Seq::<IndexEntryView>::empty());
    while i < index.len()
        invariant
            i <= index.len(),
            all == index_views(index@),
            lookup(all.take(i as int), name@) is None,
        decreases index.len() - i,
    {
        proof {
            let upto = all.take(i + 1);
            assert(upto.drop_last() == all.take(i as int));
            assert(upto.last() == index@[i as int]@);
        }
        if names_match(index[i].name.as_str(), name) {
            proof {
                lemma_lookup_prefix(all, name@, i + 1);
            }
            return Some(i);
        }
        i = i + 1;
    }
    assert(all.take(index.len() as int) == all);
    None
}

/// An entry found among the first entries is the one found among all of them.
pub proof fn lemma_lookup_prefix(index: Seq<IndexEntryView>, name: Seq<char>, n: int)
    requires
        0 <= n <= index.len(),
        lookup(index.take(n), name) is Some,
    ensures
        lookup(index, name) == lookup(index.take(n), name),
    decreases index.len() - n,
{
    if n < index.len() {
        assert(index.take(n + 1).drop_last() == index.take(n));
        lemma_lookup_prefix(index, name, n + 1);
    } else {
        assert(index.take(n) == index);
    }
}

/// Resolves `reqs` against the published versions that `index` holds, for the interpreter
/// `python` and the optional groups `extras`.
///
/// The outcome is that of making the steps one after the other. In a resolution no
/// package occurs twice, and each of `reqs` is satisfied by the version chosen for its
/// package.
pub fn resolve(reqs: &Vec<Req>, index: &Vec<IndexEntry>, python: &Version, extras: &Vec<String>) -> (r:
    Result<Vec<Pin>, ResolveError>)
    ensures
        match r {
            Ok(pins) => match run(
                initial(req_views(reqs@), *python, texts(extras@)),
                index_views(index@),
            ) {
                Ok(last) => pin_views(pins@) == selections(last.selected),
                Err(_) => false,
            },
            Err(e) => run(
                initial(req_views(reqs@), *python, texts(extras@)),
                index_views(index@),
            ) == Err::<ResolverView, ResolveErrorView>(e@),
        },
        r matches Ok(pins) ==> unique_names(pin_views(pins@)),
        r matches Ok(pins) ==> forall|i: int|
            0 <= i < reqs@.len() ==> satisfied(pin_views(pins@), #[trigger] req_views(reqs@)[i]),
{
    let ghost entries = index_views(index@);
    let ghost start = initial(req_views(reqs@), *python, texts(extras@));
    let mut resolver = Resolver::new(reqs, *python, extras);
    while !resolver.is_done()
        invariant
            entries == index_views(index@),
            start == initial(req_views(reqs@), *python, texts(extras@)),
            run(start, entries) == run(resolver@, entries),
        decreases total_slack(entries, resolver@.selected), resolver@.pending.len(),
    {
        let ghost state = resolver@;
        let found = find_entry(index, resolver.next_name());
        let k = match found {
            Some(k) => k,
            None => {
                return Err(ResolveError::Missing { name: resolver.next_name().to_owned() });
            },
        };
        assert(entries[k as int] == index@[k as int]@);
        match resolver.feed(&index[k].candidates) {
            Ok(_) => {},
            Err(e) => {
                return Err(e);
            },
        }
        proof {
            lemma_advance_decreases(state, entries, k as int);
        }
    }
    proof {
        lemma_resolution(req_views(reqs@), *python, texts(extras@), entries);
    }
    Ok(resolver.resolved())
}

} // verus!
