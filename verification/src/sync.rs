//! Reconciling what is installed with what was resolved.

use vstd::prelude::*;
use crate::os::Os;
use crate::package::{
    entries, is_listed, lemma_matches_is_entry_equality, listed, pin_views, Pin, PinView,
};
use crate::release::{
    chosen, release_views, select_release, suitabilities, PackageType, Release,
};
use crate::version::Version;

verus! {

/// What a synchronisation has to do: first every installation, then every removal.
#[derive(Debug)]
pub struct SyncPlan {
    /// The resolved packages that are not installed at the resolved version, in the order
    /// in which they were resolved.
    pub install: Vec<Pin>,
    /// The installed packages that the resolution does not hold at that version, in the
    /// order in which they were found.
    pub remove: Vec<Pin>,
}

/// What a synchronisation has to do, as mathematical values.
pub struct SyncPlanView {
    pub install: Seq<PinView>,
    pub remove: Seq<PinView>,
}

impl View for SyncPlan {
    type V = SyncPlanView;

    open spec fn view(&self) -> SyncPlanView {
        SyncPlanView { install: pin_views(self.install@), remove: pin_views(self.remove@) }
    }
}

/// The pins of `list` that are not in `other`, in order.
pub open spec fn pins_without(list: Seq<PinView>, other: Seq<PinView>) -> Seq<PinView>
    decreases list.len(),
{
    if list.len() == 0 {
        Seq::empty()
    } else if listed(other, list.last()) {
        pins_without(list.drop_last(), other)
    } else {
        pins_without(list.drop_last(), other).push(list.last())
    }
}

/// The plan that brings `installed` to `resolved`.
pub open spec fn sync_plan(resolved: Seq<PinView>, installed: Seq<PinView>) -> SyncPlanView {
    SyncPlanView {
        install: pins_without(resolved, installed),
        remove: pins_without(installed, resolved),
    }
}

/// What is installed once `plan` has been carried out on `installed`: what was installed
/// and is not removed, then what the plan installs.
pub open spec fn inventory_after(installed: Seq<PinView>, plan: SyncPlanView) -> Seq<PinView> {
    pins_without(installed, plan.remove) + plan.install
}

/// The pins of `list` that are not in `other`, in order.
fn pins_absent_from(list: &Vec<Pin>, other: &Vec<Pin>) -> (r: Vec<Pin>)
    ensures
        pin_views(r@) == pins_without(pin_views(list@), pin_views(other@)),
{
    let mut r: Vec<Pin> = Vec::new();
    let mut i: usize = 0;
    let ghost all = pin_views(list@);
    let ghost rest = pin_views(other@);
    assert(all.take(0) == Seq::<PinView>::empty());
    assert(pin_views(r@) =~= Seq::<PinView>::empty());
    while i < list.len()
        invariant
            i <= list.len(),
            all == pin_views(list@),
            rest == pin_views(other@),
            pin_views(r@) == pins_without(all.take(i as int), rest),
        decreases list.len() - i,
    {
        proof {
            let upto = all.take(i + 1);
            assert(upto.drop_last() == all.take(i as int));
            assert(upto.last() == list@[i as int]@);
        }
        if !is_listed(other, &list[i]) {
            let ghost before = pin_views(r@);
            r.push(list[i].duplicate());
            assert(pin_views(r@) =~= before.push(list@[i as int]@));
        }
        i = i + 1;
    }
    assert(all.take(list.len() as int) == all);
    r
}

/// Plans the synchronisation: which of the resolved packages to install and which of the
/// installed packages to remove. A package counts as installed where its name, without
/// regard to case, and its version are those of an installed package.
pub fn plan_sync(resolved: &Vec<Pin>, installed: &Vec<Pin>) -> (plan: SyncPlan)
    ensures
        plan@ == sync_plan(pin_views(resolved@), pin_views(installed@)),
{
    SyncPlan {
        install: pins_absent_from(resolved, installed),
        remove: pins_absent_from(installed, resolved),
    }
}

/// A pin is among those of `list` that are not in `other` exactly where it is a pin of
/// `list` and is not in `other`.
pub proof fn lemma_pins_without(list: Seq<PinView>, other: Seq<PinView>, p: PinView)
    ensures
        pins_without(list, other).contains(p) <==> list.contains(p) && !listed(other, p),
    decreases list.len(),
{
    let kept = pins_without(list, other);
    if list.len() > 0 {
        let front = list.drop_last();
        lemma_pins_without(front, other, p);
        let sub = pins_without(front, other);
        if kept.contains(p) {
            let k = choose|k: int| 0 <= k < kept.len() && kept[k] == p;
            if k < sub.len() {
                assert(sub[k] == p);
                assert(sub.contains(p));
                let m = choose|m: int| 0 <= m < front.len() && front[m] == p;
                assert(list[m] == p);
            } else {
                assert(list[list.len() - 1] == p);
            }
        }
        if list.contains(p) && !listed(other, p) {
            let k = choose|k: int| 0 <= k < list.len() && list[k] == p;
            if k < front.len() {
                assert(front[k] == p);
                assert(front.contains(p));
                let m = choose|m: int| 0 <= m < sub.len() && sub[m] == p;
                assert(kept[m] == p);
            } else {
                assert(kept[kept.len() - 1] == p);
            }
        }
    }
}

/// Where every pin of `list` is in `other`, none is left.
proof fn lemma_pins_without_none(list: Seq<PinView>, other: Seq<PinView>)
    requires
        forall|i: int| 0 <= i < list.len() ==> listed(other, #[trigger] list[i]),
    ensures
        pins_without(list, other) == Seq::<PinView>::empty(),
    decreases list.len(),
{
    if list.len() > 0 {
        let front = list.drop_last();
        assert forall|i: int| 0 <= i < front.len() implies listed(other, #[trigger] front[i]) by {
            assert(front[i] == list[i]);
        }
        lemma_pins_without_none(front, other);
        assert(listed(other, list[list.len() - 1]));
    }
}

/// Every pin of the inventory after a synchronisation is in the resolved set, and every
/// resolved pin is in that inventory.
proof fn lemma_inventory_after(resolved: Seq<PinView>, installed: Seq<PinView>)
    ensures
        forall|i: int|
            0 <= i < inventory_after(installed, sync_plan(resolved, installed)).len() ==> listed(
                resolved,
                #[trigger] inventory_after(installed, sync_plan(resolved, installed))[i],
            ),
        forall|i: int|
            0 <= i < resolved.len() ==> listed(
                inventory_after(installed, sync_plan(resolved, installed)),
                #[trigger] resolved[i],
            ),
{
    let plan = sync_plan(resolved, installed);
    let kept = pins_without(installed, plan.remove);
    let after = inventory_after(installed, plan);
    assert forall|i: int| 0 <= i < after.len() implies listed(resolved, #[trigger] after[i]) by {
        let p = after[i];
        if i < kept.len() {
            assert(kept[i] == p);
            assert(kept.contains(p));
            lemma_pins_without(installed, plan.remove, p);
            if !listed(resolved, p) {
                lemma_pins_without(installed, resolved, p);
                let m = choose|m: int| 0 <= m < plan.remove.len() && plan.remove[m] == p;
                assert(plan.remove[m].matches(p));
            }
        } else {
            assert(plan.install[i - kept.len()] == p);
            assert(plan.install.contains(p));
            lemma_pins_without(resolved, installed, p);
            let k = choose|k: int| 0 <= k < resolved.len() && resolved[k] == p;
            assert(resolved[k].matches(p));
        }
    }
    assert forall|i: int| 0 <= i < resolved.len() implies listed(after, #[trigger] resolved[i]) by {
        let r = resolved[i];
        assert(resolved.contains(r));
        if listed(installed, r) {
            let k = choose|k: int| 0 <= k < installed.len() && (#[trigger] installed[k]).matches(r);
            let q = installed[k];
            assert(installed.contains(q));
            if listed(plan.remove, q) {
                let m = choose|m: int|
                    0 <= m < plan.remove.len() && (#[trigger] plan.remove[m]).matches(q);
                let x = plan.remove[m];
                assert(plan.remove.contains(x));
                lemma_pins_without(installed, resolved, x);
                assert(resolved[i].matches(x));
            }
            lemma_pins_without(installed, plan.remove, q);
            let n = choose|n: int| 0 <= n < kept.len() && kept[n] == q;
            assert(after[n] == q);
            assert(after[n].matches(r));
        } else {
            lemma_pins_without(resolved, installed, r);
            let n = choose|n: int| 0 <= n < plan.install.len() && plan.install[n] == r;
            assert(after[kept.len() + n] == r);
            assert(after[kept.len() + n].matches(r));
        }
    }
}

/// A second synchronisation towards the same resolved set, on the inventory that the
/// first one left, installs nothing and removes nothing.
pub proof fn lemma_sync_idempotent(resolved: Seq<PinView>, installed: Seq<PinView>)
    ensures
        sync_plan(resolved, inventory_after(installed, sync_plan(resolved, installed))) == (
        SyncPlanView { install: Seq::empty(), remove: Seq::empty() }),
{
    let after = inventory_after(installed, sync_plan(resolved, installed));
    lemma_inventory_after(resolved, installed);
    lemma_pins_without_none(resolved, after);
    lemma_pins_without_none(after, resolved);
}

/// After a synchronisation the inventory holds, as a set of lowercase names with versions,
/// exactly the resolved set.
pub proof fn lemma_sync_reaches_resolved(resolved: Seq<PinView>, installed: Seq<PinView>)
    ensures
        entries(inventory_after(installed, sync_plan(resolved, installed))) == entries(resolved),
{
    let after = inventory_after(installed, sync_plan(resolved, installed));
    lemma_inventory_after(resolved, installed);
    assert forall|e: (Seq<char>, crate::version::VersionKey)|
        entries(after).contains(e) <==> entries(resolved).contains(e) by {
        if entries(after).contains(e) {
            let i = choose|i: int| 0 <= i < after.len() && (#[trigger] after[i]).entry() == e;
            assert(listed(resolved, after[i]));
            let k = choose|k: int|
                0 <= k < resolved.len() && (#[trigger] resolved[k]).matches(after[i]);
            lemma_matches_is_entry_equality(resolved[k], after[i]);
            assert(resolved[k].entry() == e);
        }
        if entries(resolved).contains(e) {
            let i = choose|i: int| 0 <= i < resolved.len() && (#[trigger] resolved[i]).entry() == e;
            assert(listed(after, resolved[i]));
            let k = choose|k: int| 0 <= k < after.len() && (#[trigger] after[k]).matches(resolved[i]);
            lemma_matches_is_entry_equality(after[k], resolved[i]);
            assert(after[k].entry() == e);
        }
    }
    assert(entries(after) =~= entries(resolved));
}

/// What the installer is handed for one package.
#[derive(Clone, Debug)]
pub struct Install {
    pub name: String,
    pub version: Version,
    /// The position of the chosen file among the published files of the package.
    pub release: usize,
    pub url: String,
    pub filename: String,
    pub sha256: String,
    /// Whether the file is installed as it is or built first.
    pub kind: PackageType,
}

/// Why a synchronisation cannot go on.
#[derive(Clone, Debug)]
pub enum SyncError {
    /// None of the published files of the package at this version can be installed on
    /// this host with this interpreter.
    NoCompatibleRelease { name: String, version: Version },
}

/// Decides how the package `pin` is installed, given its published files: which file the
/// installer is handed, and whether it is a wheel or has to be built from source.
pub fn plan_install(pin: &Pin, releases: &Vec<Release>, host: Os, python: &Version) -> (r: Result<
    Install,
    SyncError,
>)
    ensures
        match r {
            Ok(install) => {
                &&& chosen(
                    suitabilities(release_views(releases@), host, *python),
                    Some((install.release, install.kind)),
                )
                &&& install.release < releases@.len()
                &&& install.name@ == pin.name@
                &&& install.version == pin.version
                &&& install.url@ == releases@[install.release as int].url@
                &&& install.filename@ == releases@[install.release as int].filename@
                &&& install.sha256@ == releases@[install.release as int].sha256@
            },
            Err(SyncError::NoCompatibleRelease { name, version }) => {
                &&& chosen(suitabilities(release_views(releases@), host, *python), None)
                &&& name@ == pin.name@
                &&& version == pin.version
            },
        },
{
    match select_release(releases, host, python) {
        Ok((release, kind)) => Ok(
            Install {
                name: pin.name.clone(),
                version: pin.version,
                release,
                url: releases[release].url.clone(),
                filename: releases[release].filename.clone(),
                sha256: releases[release].sha256.clone(),
                kind,
            },
        ),
        Err(_) => Err(
            SyncError::NoCompatibleRelease { name: pin.name.clone(), version: pin.version },
        ),
    }
}

} // verus!
