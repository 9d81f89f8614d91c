//! The synchronisation as a machine: it names the next thing to do, the caller does it and
//! reports how it went. Every installation comes before the first removal, the lock is
//! written last, and nothing more is done once something has failed.

use vstd::prelude::*;
use crate::lock::{lock_from_resolved, locks, Lock};
use crate::package::{entries, listed, pin_views, Pin, PinView};
use crate::sync::{
    inventory_after, lemma_sync_reaches_resolved, pins_without, plan_sync, sync_plan, SyncPlan,
    SyncPlanView,
};

verus! {

/// How far a synchronisation has come.
#[derive(Clone, Copy, Debug, PartialEq, Eq, Structural)]
pub enum Phase {
    /// Packages are being installed.
    Installing,
    /// All packages are installed; packages are being removed.
    Removing,
    /// The library is as resolved; the lock is to be written.
    Locking,
    /// The lock is written.
    Finished,
}

/// A synchronisation in progress.
#[derive(Debug)]
pub struct SyncEngine {
    /// The packages that were resolved.
    pub resolved: Vec<Pin>,
    /// What is to be installed and what is to be removed.
    pub plan: SyncPlan,
    pub phase: Phase,
    /// How many of the installations, or of the removals, are done.
    pub cursor: usize,
    /// Whether something has failed.
    pub failed: bool,
}

/// A synchronisation in progress, as mathematical values.
pub struct EngineView {
    pub resolved: Seq<PinView>,
    pub plan: SyncPlanView,
    pub phase: Phase,
    pub cursor: int,
    pub failed: bool,
}

impl View for SyncEngine {
    type V = EngineView;

    open spec fn view(&self) -> EngineView {
        EngineView {
            resolved: pin_views(self.resolved@),
            plan: self.plan@,
            phase: self.phase,
            cursor: self.cursor as int,
            failed: self.failed,
        }
    }
}

/// What the caller is asked to do next.
#[derive(Debug)]
pub enum SyncAction {
    /// Obtain and install this package.
    Install(Pin),
    /// Remove this package.
    Remove(Pin),
    /// Write this lock.
    WriteLock(Lock),
    /// Nothing: the synchronisation is finished or has failed.
    Nothing,
}

/// What the caller is asked to do next, as mathematical values.
pub enum ActionView {
    Install(PinView),
    Remove(PinView),
    WriteLock,
    Nothing,
}

/// The phase that follows the installations.
pub open spec fn after_installs(plan: SyncPlanView) -> Phase {
    if plan.remove.len() > 0 {
        Phase::Removing
    } else {
        Phase::Locking
    }
}

/// The state in which the synchronisation of `installed` towards `resolved` begins.
pub open spec fn begin(resolved: Seq<PinView>, installed: Seq<PinView>) -> EngineView {
    let plan = sync_plan(resolved, installed);
    EngineView {
        resolved,
        plan,
        phase: if plan.install.len() > 0 {
            Phase::Installing
        } else {
            after_installs(plan)
        },
        cursor: 0,
        failed: false,
    }
}

/// What is to be done next in the state `e`.
pub open spec fn action(e: EngineView) -> ActionView {
    if e.failed {
        ActionView::Nothing
    } else {
        match e.phase {
            Phase::Installing => if 0 <= e.cursor < e.plan.install.len() {
                ActionView::Install(e.plan.install[e.cursor])
            } else {
                ActionView::Nothing
            },
            Phase::Removing => if 0 <= e.cursor < e.plan.remove.len() {
                ActionView::Remove(e.plan.remove[e.cursor])
            } else {
                ActionView::Nothing
            },
            Phase::Locking => ActionView::WriteLock,
            Phase::Finished => ActionView::Nothing,
        }
    }
}

/// The state after the caller has reported on what it was asked to do: `ok` says whether
/// it succeeded. A failure is final; a success leads to the next installation, removal or
/// phase.
pub open spec fn report(e: EngineView, ok: bool) -> EngineView {
    if e.failed || e.phase == Phase::Finished {
        e
    } else if !ok {
        EngineView { failed: true, ..e }
    } else {
        match e.phase {
            Phase::Installing => if e.cursor + 1 < e.plan.install.len() {
                EngineView { cursor: e.cursor + 1, ..e }
            } else {
                EngineView { phase: after_installs(e.plan), cursor: 0, ..e }
            },
            Phase::Removing => if e.cursor + 1 < e.plan.remove.len() {
                EngineView { cursor: e.cursor + 1, ..e }
            } else {
                EngineView { phase: Phase::Locking, cursor: 0, ..e }
            },
            Phase::Locking => EngineView { phase: Phase::Finished, ..e },
            Phase::Finished => e,
        }
    }
}

impl SyncEngine {
    /// Begins the synchronisation of the inventory `installed` towards `resolved`.
    pub fn start(resolved: Vec<Pin>, installed: &Vec<Pin>) -> (r: SyncEngine)
        ensures
            r@ == begin(pin_views(resolved@), pin_views(installed@)),
    {
        let plan = plan_sync(&resolved, installed);
        let phase = if plan.install.len() > 0 {
            Phase::Installing
        } else if plan.remove.len() > 0 {
            Phase::Removing
        } else {
            Phase::Locking
        };
        SyncEngine { resolved, plan, phase, cursor: 0, failed: false }
    }

    /// What the caller is asked to do next.
    pub fn next_action(&self) -> (r: SyncAction)
        ensures
            match r {
                SyncAction::Install(pin) => action(self@) == ActionView::Install(pin@),
                SyncAction::Remove(pin) => action(self@) == ActionView::Remove(pin@),
                SyncAction::WriteLock(lock) => action(self@) == ActionView::WriteLock
                    && lock.metadata is None && match lock.package {
                    Some(packages) => packages@.len() == self.resolved@.len() && forall|i: int|
                        0 <= i < self.resolved@.len() ==> locks(
                            #[trigger] packages@[i],
                            self.resolved@[i]@,
                        ),
                    None => false,
                },
                SyncAction::Nothing => action(self@) == ActionView::Nothing,
            },
    {
        if self.failed {
            return SyncAction::Nothing;
        }
        match self.phase {
            Phase::Installing => {
                if self.cursor < self.plan.install.len() {
                    SyncAction::Install(self.plan.install[self.cursor].duplicate())
                } else {
                    SyncAction::Nothing
                }
            },
            Phase::Removing => {
                if self.cursor < self.plan.remove.len() {
                    SyncAction::Remove(self.plan.remove[self.cursor].duplicate())
                } else {
                    SyncAction::Nothing
                }
            },
            Phase::Locking => SyncAction::WriteLock(lock_from_resolved(&self.resolved)),
            Phase::Finished => SyncAction::Nothing,
        }
    }

    /// Takes note of how the last action went.
    pub fn record(&mut self, ok: bool)
        ensures
            final(self)@ == report(old(self)@, ok),
    {
        if self.failed {
            return ;
        }
        if !ok {
            if self.phase != Phase::Finished {
                self.failed = true;
            }
            return ;
        }
        assert(self@.plan.install.len() == self.plan.install.len());
        assert(self@.plan.remove.len() == self.plan.remove.len());
        match self.phase {
            Phase::Installing => {
                if self.cursor < usize::MAX && self.cursor + 1 < self.plan.install.len() {
                    self.cursor = self.cursor + 1;
                } else {
                    self.phase = if self.plan.remove.len() > 0 {
                        Phase::Removing
                    } else {
                        Phase::Locking
                    };
                    self.cursor = 0;
                }
            },
            Phase::Removing => {
                if self.cursor < usize::MAX && self.cursor + 1 < self.plan.remove.len() {
                    self.cursor = self.cursor + 1;
                } else {
                    self.phase = Phase::Locking;
                    self.cursor = 0;
                }
            },
            Phase::Locking => {
                self.phase = Phase::Finished;
            },
            Phase::Finished => {},
        }
    }

    /// Whether the lock is written and nothing has failed.
    pub fn is_finished(&self) -> (r: bool)
        ensures
            r == (self@.phase == Phase::Finished && !self@.failed),
    {
        self.phase == Phase::Finished && !self.failed
    }
}

/// The inventory once the action has been carried out: an installed package is added at
/// the end, and a removed package is taken out wherever it stands.
pub open spec fn effect(inventory: Seq<PinView>, done: ActionView) -> Seq<PinView> {
    match done {
        ActionView::Install(pin) => inventory.push(pin),
        ActionView::Remove(pin) => pins_without(inventory, seq![pin]),
        _ => inventory,
    }
}

/// The state and the inventory after `steps` actions, each carried out with success.
pub open spec fn carried_out(e: EngineView, inventory: Seq<PinView>, steps: nat) -> (
    EngineView,
    Seq<PinView>,
)
    decreases steps,
{
    if steps == 0 {
        (e, inventory)
    } else {
        carried_out(report(e, true), effect(inventory, action(e)), (steps - 1) as nat)
    }
}

/// The number of actions of a synchronisation that succeeds: each installation, each
/// removal, and the writing of the lock.
pub open spec fn step_count(plan: SyncPlanView) -> nat {
    plan.install.len() + plan.remove.len() + 1
}

/// A state that a synchronisation passes through: the cursor lies within the list that
/// the phase works on.
pub open spec fn on_track(e: EngineView) -> bool {
    &&& !e.failed
    &&& e.phase == Phase::Installing ==> 0 <= e.cursor < e.plan.install.len()
    &&& e.phase == Phase::Removing ==> 0 <= e.cursor < e.plan.remove.len()
}

/// The number of actions still to be carried out.
pub open spec fn steps_left(e: EngineView) -> nat {
    match e.phase {
        Phase::Installing => (e.plan.install.len() - e.cursor + e.plan.remove.len() + 1) as nat,
        Phase::Removing => (e.plan.remove.len() - e.cursor + 1) as nat,
        Phase::Locking => 1,
        Phase::Finished => 0,
    }
}

/// The inventory that belongs to a state on track, given the inventory at the start.
pub open spec fn inventory_at(e: EngineView, installed: Seq<PinView>) -> Seq<PinView> {
    match e.phase {
        Phase::Installing => installed + e.plan.install.take(e.cursor),
        Phase::Removing => pins_without(installed + e.plan.install, e.plan.remove.take(e.cursor)),
        _ => pins_without(installed + e.plan.install, e.plan.remove),
    }
}

/// Taking out the pins of one list and then those of another takes out those of both.
pub proof fn lemma_pins_without_twice(list: Seq<PinView>, first: Seq<PinView>, second: Seq<PinView>)
    ensures
        pins_without(pins_without(list, first), second) == pins_without(list, first + second),
    decreases list.len(),
{
    if list.len() > 0 {
        let x = list.last();
        lemma_pins_without_twice(list.drop_last(), first, second);
        let both = first + second;
        if listed(first, x) {
            let i = choose|i: int| 0 <= i < first.len() && (#[trigger] first[i]).matches(x);
            assert(both[i].matches(x));
        }
        if listed(second, x) {
            let i = choose|i: int| 0 <= i < second.len() && (#[trigger] second[i]).matches(x);
            assert(both[first.len() + i].matches(x));
        }
        if listed(both, x) {
            let i = choose|i: int| 0 <= i < both.len() && (#[trigger] both[i]).matches(x);
            if i < first.len() {
                assert(first[i].matches(x));
            } else {
                assert(second[i - first.len()].matches(x));
            }
        }
        if !listed(first, x) {
            let kept = pins_without(list.drop_last(), first);
            assert(pins_without(list, first) == kept.push(x));
            assert(kept.push(x).drop_last() == kept);
        }
    } else {
        assert(pins_without(list, first) == Seq::<PinView>::empty());
    }
}

/// Taking pins out of two lists joined is taking them out of each.
pub proof fn lemma_pins_without_joined(a: Seq<PinView>, b: Seq<PinView>, other: Seq<PinView>)
    ensures
        pins_without(a + b, other) == pins_without(a, other) + pins_without(b, other),
    decreases b.len(),
{
    if b.len() > 0 {
        assert((a + b).drop_last() == a + b.drop_last());
        assert((a + b).last() == b.last());
        lemma_pins_without_joined(a, b.drop_last(), other);
    } else {
        assert(a + b == a);
        assert(pins_without(b, other) == Seq::<PinView>::empty());
    }
}

/// A list of which no pin is in `other` stays as it is.
pub proof fn lemma_pins_without_all(list: Seq<PinView>, other: Seq<PinView>)
    requires
        forall|i: int| 0 <= i < list.len() ==> !listed(other, #[trigger] list[i]),
    ensures
        pins_without(list, other) == list,
    decreases list.len(),
{
    if list.len() > 0 {
        let front = list.drop_last();
        assert forall|i: int| 0 <= i < front.len() implies !listed(other, #[trigger] front[i]) by {
            assert(front[i] == list[i]);
        }
        lemma_pins_without_all(front, other);
        assert(!listed(other, list[list.len() - 1]));
        assert(front.push(list.last()) == list);
    }
}

/// Carrying out what is left of a synchronisation on track ends in the finished state,
/// with the inventory that the plan leads to.
pub proof fn lemma_carried_out(e: EngineView, installed: Seq<PinView>)
    requires
        on_track(e),
    ensures
        carried_out(e, inventory_at(e, installed), steps_left(e)).0.phase == Phase::Finished,
        !carried_out(e, inventory_at(e, installed), steps_left(e)).0.failed,
        carried_out(e, inventory_at(e, installed), steps_left(e)).1 == pins_without(
            installed + e.plan.install,
            e.plan.remove,
        ),
    decreases steps_left(e),
{
    if e.phase != Phase::Finished {
        let next = report(e, true);
        let now = inventory_at(e, installed);
        let then = effect(now, action(e));
        assert(on_track(next));
        assert(steps_left(next) == steps_left(e) - 1);
        assert(then == inventory_at(next, installed)) by {
            match e.phase {
                Phase::Installing => {
                    let done = e.plan.install.take(e.cursor + 1);
                    assert(done == e.plan.install.take(e.cursor).push(e.plan.install[e.cursor]));
                    assert(then == installed + done);
                    if e.cursor + 1 == e.plan.install.len() {
                        assert(done == e.plan.install);
                        assert(e.plan.remove.take(0) == Seq::<PinView>::empty());
                        if e.plan.remove.len() == 0 {
                            assert(e.plan.remove == Seq::<PinView>::empty());
                        }
                        lemma_pins_without_all(installed + e.plan.install, Seq::empty());
                    }
                },
                Phase::Removing => {
                    let gone = e.plan.remove.take(e.cursor);
                    let more = e.plan.remove.take(e.cursor + 1);
                    assert(more == gone + seq![e.plan.remove[e.cursor]]);
                    lemma_pins_without_twice(
                        installed + e.plan.install,
                        gone,
                        seq![e.plan.remove[e.cursor]],
                    );
                    if e.cursor + 1 == e.plan.remove.len() {
                        assert(more == e.plan.remove);
                    }
                },
                Phase::Locking => {},
                Phase::Finished => {},
            }
        }
        lemma_carried_out(next, installed);
    }
}

/// A synchronisation in which every action succeeds is finished after as many actions as
/// the plan holds, and the inventory then holds, as a set of lowercase names with
/// versions, exactly the resolved set.
pub proof fn lemma_engine_reaches_resolved(resolved: Seq<PinView>, installed: Seq<PinView>)
    ensures
        ({
            let start = begin(resolved, installed);
            let end = carried_out(start, installed, step_count(start.plan));
            end.0.phase == Phase::Finished && !end.0.failed && entries(end.1) == entries(resolved)
        }),
{
    let start = begin(resolved, installed);
    let plan = start.plan;
    assert(on_track(start));
    assert(steps_left(start) == step_count(plan));
    assert(inventory_at(start, installed) == installed) by {
        assert(plan.install.take(0) == Seq::<PinView>::empty());
        assert(plan.remove.take(0) == Seq::<PinView>::empty());
        assert(installed + Seq::<PinView>::empty() == installed);
        if plan.install.len() == 0 {
            assert(plan.install == Seq::<PinView>::empty());
            if plan.remove.len() == 0 {
                assert(plan.remove == Seq::<PinView>::empty());
            }
            lemma_pins_without_all(installed, Seq::empty());
        }
    }
    lemma_carried_out(start, installed);
    lemma_pins_without_joined(installed, plan.install, plan.remove);
    assert(pins_without(plan.install, plan.remove) == plan.install) by {
        assert forall|i: int| 0 <= i < plan.install.len() implies !listed(
            plan.remove,
            #[trigger] plan.install[i],
        ) by {
            let p = plan.install[i];
            if listed(plan.remove, p) {
                let m = choose|m: int|
                    0 <= m < plan.remove.len() && (#[trigger] plan.remove[m]).matches(p);
                let x = plan.remove[m];
                assert(plan.install.contains(p));
                assert(plan.remove.contains(x));
                crate::sync::lemma_pins_without(resolved, installed, p);
                crate::sync::lemma_pins_without(installed, resolved, x);
                let k = choose|k: int| 0 <= k < resolved.len() && resolved[k] == p;
                assert(resolved[k].matches(x));
            }
        }
        lemma_pins_without_all(plan.install, plan.remove);
    }
    assert(pins_without(installed + plan.install, plan.remove) == inventory_after(installed, plan));
    lemma_sync_reaches_resolved(resolved, installed);
}

/// While packages are being installed, everything that was installed at the start still
/// is: a synchronisation that stops early has removed nothing.
pub proof fn lemma_installing_keeps_inventory(e: EngineView, installed: Seq<PinView>, i: int)
    requires
        e.phase == Phase::Installing,
        on_track(e),
        0 <= i < installed.len(),
    ensures
        inventory_at(e, installed).contains(installed[i]),
{
    assert(inventory_at(e, installed)[i] == installed[i]);
}

} // verus!
