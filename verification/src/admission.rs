//! Admission: which slot a turn is steered to, and what has to happen to the
//! slot first.
//!
//! A session goes back to the slot it owns. Else it gets a slot that is neither
//! processing, nor in use, nor dirty. Else a dirty slot is published under its
//! owner's name and then taken; if that fails, or somebody else took the slot
//! meanwhile, or every slot is processing or in use, the turn is forwarded
//! unsteered.
//!
//! A slot is reserved for the session in the very step that wins it, before its
//! blob is restored into it. So of two admissions that run side by side only one
//! gets it.

use crate::backend::SlotState;
use crate::keys;
use crate::registry;
use crate::registry::SlotRegistry;
use crate::registry::Slots;
use vstd::prelude::*;

verus! {

/// Where an admission stands.
#[derive(Debug, Clone, Copy, PartialEq, Eq, Structural)]
pub enum AdmitStage {
    /// The backend is to report its slots, for a free one. The lookup ends with
    /// this stage: until then no publish may run.
    Lookup,
    /// The backend is to report its slots again, for an evictable one.
    Reclaim,
    /// The slot's owner is to be published.
    Evict(u32),
    /// The session's blob is to be restored into the slot.
    Restore(u32),
    /// The blob was restored into the slot and is to be marked as just used.
    Touch(u32),
    /// The turn is steered to the slot, or forwarded unsteered.
    Ready(Option<u32>),
}

/// What an admission asks to be done next.
pub enum AdmitAction {
    /// Report the slots.
    ListSlots,
    /// Publish the slot's state as the session's blob.
    Publish(u32, String),
    /// Restore the blob of that name into the slot.
    Restore(u32, String),
    /// Set the last use of the blob of that name to now.
    Touch(String),
    /// Forward the turn, steered to the slot or not.
    Forward(Option<u32>),
}

/// What came of what an admission asked for.
pub enum AdmitEvent {
    /// The slots that the backend reports; nothing if it could not be asked.
    Slots(Option<Vec<SlotState>>),
    /// Whether any other step went well.
    Outcome(bool),
}

/// What came of what an admission asked for, as a mathematical value.
pub enum AdmitEventView {
    Slots(Option<Seq<SlotState>>),
    Outcome(bool),
}

impl View for AdmitEvent {
    type V = AdmitEventView;

    open spec fn view(&self) -> AdmitEventView {
        match self {
            AdmitEvent::Slots(Some(s)) => AdmitEventView::Slots(Some(s@)),
            AdmitEvent::Slots(None) => AdmitEventView::Slots(None),
            AdmitEvent::Outcome(ok) => AdmitEventView::Outcome(*ok),
        }
    }
}

/// An admission as a mathematical value.
pub struct AdmitView {
    pub session: Seq<char>,
    pub blob: Seq<char>,
    pub disk_hit: bool,
    pub victim: Seq<char>,
    pub stage: AdmitStage,
}

/// An admission and the registry it works on.
pub struct AdmitState {
    pub view: AdmitView,
    pub slots: Slots,
}

/// The state after a slot was won: it is reserved for the session, and the
/// session's blob is restored into it first if there is one.
pub open spec fn won(s: AdmitState, id: u32) -> AdmitState {
    AdmitState {
        view: AdmitView {
            stage: if s.view.disk_hit { AdmitStage::Restore(id) } else { AdmitStage::Ready(Some(id)) },
            ..s.view
        },
        slots: registry::reserved(s.slots, id, s.view.session),
    }
}

/// The same admission at another stage.
pub open spec fn at_stage(s: AdmitState, stage: AdmitStage) -> AdmitState {
    AdmitState { view: AdmitView { stage, ..s.view }, ..s }
}

/// The same admission with another registry.
pub open spec fn with_slots(s: AdmitState, slots: Slots) -> AdmitState {
    AdmitState { slots, ..s }
}

/// Whether one step leads from a state to another. An event that does not belong
/// to the stage changes nothing.
pub open spec fn admit_step(s: AdmitState, event: AdmitEventView, t: AdmitState) -> bool {
    match (s.view.stage, event) {
        (AdmitStage::Lookup, AdmitEventView::Slots(None)) => t == at_stage(s, AdmitStage::Reclaim),
        (AdmitStage::Lookup, AdmitEventView::Slots(Some(reported))) => {
            ||| exists|k: int| #[trigger] registry::first_free(s.slots, reported, k) && t == won(
                with_slots(s, registry::observed(s.slots, reported.take(k + 1))),
                reported[k].id,
            )
            ||| (forall|k: int| 0 <= k < reported.len() ==> !registry::free(s.slots, #[trigger] reported[k]))
                && t == at_stage(with_slots(s, registry::observed(s.slots, reported)), AdmitStage::Reclaim)
        },
        (AdmitStage::Reclaim, AdmitEventView::Slots(None)) => t == at_stage(s, AdmitStage::Ready(None)),
        (AdmitStage::Reclaim, AdmitEventView::Slots(Some(reported))) => {
            ||| exists|k: int| #[trigger] registry::first_evictable(s.slots, reported, k) && t == evicting(
                with_slots(s, registry::observed(s.slots, reported.take(k + 1))),
                reported[k].id,
                registry::known(s.slots, reported[k].id).session->0,
            )
            ||| (forall|k: int| 0 <= k < reported.len() ==> !registry::evictable(s.slots, #[trigger] reported[k]))
                && t == at_stage(with_slots(s, registry::observed(s.slots, reported)), AdmitStage::Ready(None))
        },
        (AdmitStage::Evict(id), AdmitEventView::Outcome(ok)) => if ok && registry::takeable(s.slots, id) {
            t == won(s, id)
        } else {
            t == at_stage(s, AdmitStage::Ready(None))
        },
        (AdmitStage::Restore(id), AdmitEventView::Outcome(ok)) => if ok {
            t == at_stage(s, AdmitStage::Touch(id))
        } else {
            t == at_stage(s, AdmitStage::Ready(Some(id)))
        },
        (AdmitStage::Touch(id), AdmitEventView::Outcome(_)) => t == at_stage(s, AdmitStage::Ready(Some(id))),
        _ => t == s,
    }
}

/// The state after a dirty slot was found whose owner is to be published.
pub open spec fn evicting(s: AdmitState, id: u32, victim: Seq<char>) -> AdmitState {
    AdmitState { view: AdmitView { stage: AdmitStage::Evict(id), victim, ..s.view }, ..s }
}

/// The admission of one turn.
pub struct Admission {
    pub session: String,
    /// The file name of the session's blob.
    pub blob: String,
    /// Whether that file was there when the lookup began.
    pub disk_hit: bool,
    /// The session whose state is to be published before its slot is taken.
    pub victim: String,
    pub stage: AdmitStage,
}

impl View for Admission {
    type V = AdmitView;

    open spec fn view(&self) -> AdmitView {
        AdmitView {
            session: self.session@,
            blob: self.blob@,
            disk_hit: self.disk_hit,
            victim: self.victim@,
            stage: self.stage,
        }
    }
}

impl Admission {
    /// The admission together with the registry it works on.
    pub open spec fn state(&self, slots: Slots) -> AdmitState {
        AdmitState { view: self@, slots }
    }

    /// Begin the admission of a session's turn. A session that owns a slot is
    /// steered straight back to it, without a restore.
    pub fn begin(session: &str, sig: &str, disk_hit: bool, registry: &mut SlotRegistry) -> (a: Self)
        requires
            old(registry).wf(),
        ensures
            final(registry).wf(),
            a.session@ == session@,
            a.blob@ == keys::blob_name_text(session@, sig@),
            a.disk_hit == disk_hit,
            a.victim@ == Seq::<char>::empty(),
            match a.stage {
                AdmitStage::Ready(Some(id)) => registry::owned_by(old(registry)@, id, session@)
                    && final(registry)@ == registry::reserved(old(registry)@, id, session@),
                AdmitStage::Lookup => final(registry)@ == old(registry)@
                    && forall|id: u32| !registry::owned_by(old(registry)@, id, session@),
                _ => false,
            },
            a.stage is Lookup <==> forall|id: u32| #[trigger]
                old(registry)@.contains_key(id) ==> old(registry)@[id].session != Some(session@),
    {
        let stage = match registry.hot_slot(session) {
            Some(id) => {
                registry.reserve(id, session);
                AdmitStage::Ready(Some(id))
            },
            None => AdmitStage::Lookup,
        };
        Admission {
            session: session.to_owned(),
            blob: keys::blob_name(session, sig),
            disk_hit,
            victim: String::new(),
            stage,
        }
    }

    /// What is to be done next.
    pub fn action(&self) -> (a: AdmitAction)
        ensures
            match self.stage {
                AdmitStage::Lookup => a is ListSlots,
                AdmitStage::Reclaim => a is ListSlots,
                AdmitStage::Evict(id) => a matches AdmitAction::Publish(i, v) && i == id && v@ == self.victim@,
                AdmitStage::Restore(id) => a matches AdmitAction::Restore(i, n) && i == id && n@ == self.blob@,
                AdmitStage::Touch(_) => a matches AdmitAction::Touch(n) && n@ == self.blob@,
                AdmitStage::Ready(steer) => a == AdmitAction::Forward(steer),
            },
    {
        match self.stage {
            AdmitStage::Lookup => AdmitAction::ListSlots,
            AdmitStage::Reclaim => AdmitAction::ListSlots,
            AdmitStage::Evict(id) => AdmitAction::Publish(id, self.victim.clone()),
            AdmitStage::Restore(id) => AdmitAction::Restore(id, self.blob.clone()),
            AdmitStage::Touch(_) => AdmitAction::Touch(self.blob.clone()),
            AdmitStage::Ready(steer) => AdmitAction::Forward(steer),
        }
    }

    /// Take a slot that was won.
    fn win(&mut self, id: u32, registry: &mut SlotRegistry)
        requires
            old(registry).wf(),
        ensures
            final(registry).wf(),
            final(self).state(final(registry)@) == won(old(self).state(old(registry)@), id),
    {
        registry.reserve(id, self.session.as_str());
        self.stage = if self.disk_hit { AdmitStage::Restore(id) } else { AdmitStage::Ready(Some(id)) };
    }

    /// Go on with what came of the last step.
    pub fn resume(&mut self, event: AdmitEvent, registry: &mut SlotRegistry)
        requires
            old(registry).wf(),
        ensures
            final(registry).wf(),
            admit_step(old(self).state(old(registry)@), event@, final(self).state(final(registry)@)),
    {
        match (self.stage, event) {
            (AdmitStage::Lookup, AdmitEvent::Slots(slots)) => {
                let picked = match &slots {
                    Some(s) => registry.pick_free(s),
                    None => None,
                };
                match picked {
                    Some(id) => {
                        self.win(id, registry);
                    },
                    None => {
                        self.stage = AdmitStage::Reclaim;
                    },
                }
            },
            (AdmitStage::Reclaim, AdmitEvent::Slots(slots)) => {
                let found = match &slots {
                    Some(s) => registry.find_evictable(s),
                    None => None,
                };
                match found {
                    Some((id, Some(victim))) => {
                        self.victim = victim;
                        self.stage = AdmitStage::Evict(id);
                    },
                    _ => {
                        self.stage = AdmitStage::Ready(None);
                    },
                }
            },
            (AdmitStage::Evict(id), AdmitEvent::Outcome(ok)) => {
                if ok && !registry.dirty(id) && !registry.used(id) {
                    self.win(id, registry);
                } else {
                    self.stage = AdmitStage::Ready(None);
                }
            },
            (AdmitStage::Restore(id), AdmitEvent::Outcome(ok)) => {
                self.stage = if ok { AdmitStage::Touch(id) } else { AdmitStage::Ready(Some(id)) };
            },
            (AdmitStage::Touch(id), AdmitEvent::Outcome(_)) => {
                self.stage = AdmitStage::Ready(Some(id));
            },
            _ => {},
        }
    }
}

/// The stages in which a slot is already won.
pub open spec fn holds(stage: AdmitStage, id: u32) -> bool {
    stage == AdmitStage::Restore(id) || stage == AdmitStage::Touch(id) || stage == AdmitStage::Ready(Some(id))
}

/// Save before steal: at the moment a step takes a slot, the slot is not dirty,
/// no turn is on its way on it, and the backend reported it as not processing or
/// its owner was published just before. In the same step it is reserved.
pub proof fn law_save_before_steal(s: AdmitState, event: AdmitEventView, t: AdmitState, id: u32)
    requires
        admit_step(s, event, t),
        holds(t.view.stage, id),
        !holds(s.view.stage, id),
    ensures
        registry::takeable(s.slots, id),
        registry::owned_by(t.slots, id, s.view.session),
        registry::is_dirty(t.slots, id),
        registry::in_use(t.slots, id),
        (s.view.stage is Lookup && (event matches AdmitEventView::Slots(Some(reported)) && exists|k: int|
            0 <= k < reported.len() && (#[trigger] reported[k]).id == id && !reported[k].is_processing))
            || (s.view.stage == AdmitStage::Evict(id) && event == AdmitEventView::Outcome(true)),
{
    if s.view.stage is Lookup {
        if let AdmitEventView::Slots(Some(reported)) = event {
            let k = choose|k: int| #[trigger] registry::first_free(s.slots, reported, k) && t == won(
                with_slots(s, registry::observed(s.slots, reported.take(k + 1))),
                reported[k].id,
            );
            assert(reported[k].id == id);
        }
    }
}

/// What is published before a dirty slot is taken is the slot under its owner's
/// name; the slot was reported as not processing.
pub proof fn law_victim_is_the_owner(s: AdmitState, event: AdmitEventView, t: AdmitState, id: u32)
    requires
        admit_step(s, event, t),
        t.view.stage == AdmitStage::Evict(id),
        s.view.stage != AdmitStage::Evict(id),
        registry::is_dirty(s.slots, id) ==> registry::known(s.slots, id).session is Some,
    ensures
        s.view.stage is Reclaim,
        registry::is_dirty(s.slots, id),
        !registry::in_use(s.slots, id),
        registry::known(s.slots, id).session == Some(t.view.victim),
        event matches AdmitEventView::Slots(Some(reported)) && exists|k: int|
            0 <= k < reported.len() && (#[trigger] reported[k]).id == id && !reported[k].is_processing,
{
    if let AdmitEventView::Slots(Some(reported)) = event {
        if s.view.stage is Reclaim {
            let k = choose|k: int| #[trigger] registry::first_evictable(s.slots, reported, k) && t == evicting(
                with_slots(s, registry::observed(s.slots, reported.take(k + 1))),
                reported[k].id,
                registry::known(s.slots, reported[k].id).session->0,
            );
            assert(reported[k].id == id);
        }
    }
}

/// The steps of one admission: what it and the registry were before each, what
/// came of what was asked for, and what they were after it. Between two steps
/// others may have changed the registry.
pub open spec fn admit_run(before: Seq<AdmitState>, events: Seq<AdmitEventView>, after: Seq<AdmitState>) -> bool {
    &&& before.len() == events.len()
    &&& after.len() == events.len()
    &&& events.len() > 0 ==> before[0].view.stage is Lookup
    &&& forall|i: int| 0 <= i < events.len() ==> admit_step(#[trigger] before[i], events[i], after[i])
    &&& forall|i: int| 0 < i < events.len() ==> (#[trigger] before[i]).view == after[i - 1].view
}

/// A slot was found at a step: not dirty, not in use, and reported as not
/// processing.
pub open spec fn found_free(before: Seq<AdmitState>, events: Seq<AdmitEventView>, i: int, id: u32) -> bool {
    &&& before[i].view.stage is Lookup
    &&& registry::takeable(before[i].slots, id)
    &&& events[i] matches AdmitEventView::Slots(Some(reported)) && exists|k: int|
        0 <= k < reported.len() && (#[trigger] reported[k]).id == id && !reported[k].is_processing
}

/// A dirty slot of a session was claimed at a step; it was reported as not
/// processing.
pub open spec fn claimed(before: Seq<AdmitState>, events: Seq<AdmitEventView>, i: int, id: u32, owner: Seq<char>) -> bool {
    &&& before[i].view.stage is Reclaim
    &&& registry::is_dirty(before[i].slots, id)
    &&& registry::known(before[i].slots, id).session == Some(owner)
    &&& events[i] matches AdmitEventView::Slots(Some(reported)) && exists|k: int|
        0 <= k < reported.len() && (#[trigger] reported[k]).id == id && !reported[k].is_processing
}

/// The publish of a slot under a session's name had gone well at a step, and
/// nobody else had the slot.
pub open spec fn vacated(before: Seq<AdmitState>, events: Seq<AdmitEventView>, i: int, id: u32, owner: Seq<char>) -> bool {
    &&& before[i].view.stage == AdmitStage::Evict(id)
    &&& before[i].view.victim == owner
    &&& events[i] == AdmitEventView::Outcome(true)
    &&& registry::takeable(before[i].slots, id)
}

proof fn lemma_claimed(before: Seq<AdmitState>, events: Seq<AdmitEventView>, after: Seq<AdmitState>, k: int, id: u32, owner: Seq<char>)
    requires
        admit_run(before, events, after),
        0 <= k < events.len(),
        before[k].view.stage == AdmitStage::Evict(id),
        before[k].view.victim == owner,
        forall|i: int|
            0 <= i < events.len() && registry::is_dirty((#[trigger] before[i]).slots, id) ==> registry::known(
                before[i].slots,
                id,
            ).session is Some,
    ensures
        exists|j: int| 0 <= j < k && claimed(before, events, j, id, owner),
    decreases k,
{
    assert(k > 0);
    assert(admit_step(before[k - 1], events[k - 1], after[k - 1]));
    if before[k - 1].view.stage == AdmitStage::Evict(id) {
        lemma_claimed(before, events, after, k - 1, id, owner);
    } else {
        law_victim_is_the_owner(before[k - 1], events[k - 1], after[k - 1], id);
        assert(claimed(before, events, k - 1, id, owner));
    }
}

/// Write on eviction: a slot that an admission restores over or steers to was
/// found free, or it was claimed from its owner and then published under the
/// owner's name, before it was taken.
pub proof fn law_taken_slot_was_free_or_published(
    before: Seq<AdmitState>,
    events: Seq<AdmitEventView>,
    after: Seq<AdmitState>,
    k: int,
    id: u32,
)
    requires
        admit_run(before, events, after),
        0 <= k < events.len(),
        holds(after[k].view.stage, id),
        forall|i: int|
            0 <= i < events.len() && registry::is_dirty((#[trigger] before[i]).slots, id) ==> registry::known(
                before[i].slots,
                id,
            ).session is Some,
    ensures
        (exists|i: int| 0 <= i <= k && found_free(before, events, i, id)) || (exists|i: int, j: int, owner: Seq<char>|
            0 <= j < i <= k && #[trigger] claimed(before, events, j, id, owner) && #[trigger] vacated(
                before,
                events,
                i,
                id,
                owner,
            )),
    decreases k,
{
    assert(admit_step(before[k], events[k], after[k]));
    if holds(before[k].view.stage, id) {
        law_taken_slot_was_free_or_published(before, events, after, k - 1, id);
    } else {
        law_save_before_steal(before[k], events[k], after[k], id);
        if before[k].view.stage is Lookup {
            assert(found_free(before, events, k, id));
        } else {
            let owner = before[k].view.victim;
            lemma_claimed(before, events, after, k, id, owner);
            let j = choose|j: int| 0 <= j < k && claimed(before, events, j, id, owner);
            assert(claimed(before, events, j, id, owner) && vacated(before, events, k, id, owner));
        }
    }
}

/// A publish that failed means that the slot is not taken: the registry stays as
/// it was, and the turn is forwarded unsteered.
pub proof fn law_failed_publish_takes_nothing(s: AdmitState, t: AdmitState, id: u32)
    requires
        s.view.stage == AdmitStage::Evict(id),
        admit_step(s, AdmitEventView::Outcome(false), t),
    ensures
        t.slots == s.slots,
        t.view.stage == AdmitStage::Ready(None),
{
}

/// No step of an admission drops anyone's state: whom a slot belongs to, whether
/// it is dirty and who uses it changes only for a slot that the step takes.
pub proof fn law_admission_drops_no_state(s: AdmitState, event: AdmitEventView, t: AdmitState, id: u32)
    requires
        admit_step(s, event, t),
    ensures
        ({
            let before = registry::known(s.slots, id);
            let after = registry::known(t.slots, id);
            ||| after.session == before.session && after.dirty == before.dirty && after.turns == before.turns
            ||| holds(t.view.stage, id) && !holds(s.view.stage, id)
        }),
        t.view.session == s.view.session,
        t.view.blob == s.view.blob,
        t.view.disk_hit == s.view.disk_hit,
{
    match (s.view.stage, event) {
        (AdmitStage::Lookup, AdmitEventView::Slots(Some(reported))) => {
            registry::lemma_observed_keeps(s.slots, reported, id);
            assert forall|k: int| #[trigger] registry::first_free(s.slots, reported, k) implies same_mark(
                registry::observed(s.slots, reported.take(k + 1)),
                s.slots,
                id,
            ) by {
                registry::lemma_observed_keeps(s.slots, reported.take(k + 1), id);
            }
        },
        (AdmitStage::Reclaim, AdmitEventView::Slots(Some(reported))) => {
            registry::lemma_observed_keeps(s.slots, reported, id);
            assert forall|k: int| #[trigger] registry::first_evictable(s.slots, reported, k) implies same_mark(
                registry::observed(s.slots, reported.take(k + 1)),
                s.slots,
                id,
            ) by {
                registry::lemma_observed_keeps(s.slots, reported.take(k + 1), id);
            }
        },
        _ => {},
    }
}

/// Two registries agree on whom a slot belongs to, whether it is dirty and who
/// uses it.
pub open spec fn same_mark(a: Slots, b: Slots, id: u32) -> bool {
    let x = registry::known(a, id);
    let y = registry::known(b, id);
    x.session == y.session && x.dirty == y.dirty && x.turns == y.turns
}

/// Somebody else who took the slot while its owner was being published keeps it:
/// the turn is forwarded unsteered, and the registry stays as it is.
pub proof fn law_slot_taken_meanwhile_is_not_stolen(s: AdmitState, ok: bool, t: AdmitState, id: u32)
    requires
        s.view.stage == AdmitStage::Evict(id),
        admit_step(s, AdmitEventView::Outcome(ok), t),
        registry::is_dirty(s.slots, id) || registry::in_use(s.slots, id),
    ensures
        t.slots == s.slots,
        t.view.stage == AdmitStage::Ready(None),
{
}

/// If the backend reports every slot as processing, the turn is forwarded
/// unsteered.
pub proof fn law_all_processing_forwards_unsteered(s: AdmitState, reported: Seq<SlotState>, t: AdmitState)
    requires
        forall|k: int| 0 <= k < reported.len() ==> (#[trigger] reported[k]).is_processing,
        s.view.stage is Lookup || s.view.stage is Reclaim,
        admit_step(s, AdmitEventView::Slots(Some(reported)), t),
    ensures
        s.view.stage is Lookup ==> t.view.stage is Reclaim,
        s.view.stage is Reclaim ==> t.view.stage == AdmitStage::Ready(None),
{
}

/// A blob is restored only where one was found, and never over the slot that the
/// session owns already.
pub proof fn law_restore_only_on_a_hit(s: AdmitState, event: AdmitEventView, t: AdmitState)
    requires
        admit_step(s, event, t),
        t.view.stage is Restore,
        !(s.view.stage is Restore),
    ensures
        s.view.disk_hit,
        s.view.stage is Lookup || s.view.stage is Evict,
{
}

/// How many steps an admission takes at most from a stage on.
pub open spec fn steps_left(stage: AdmitStage) -> nat {
    match stage {
        AdmitStage::Lookup => 5,
        AdmitStage::Reclaim => 4,
        AdmitStage::Evict(_) => 3,
        AdmitStage::Restore(_) => 2,
        AdmitStage::Touch(_) => 1,
        AdmitStage::Ready(_) => 0,
    }
}

/// Every admission ends: each step that answers what was asked for brings it
/// nearer to its end.
pub proof fn law_admission_ends(s: AdmitState, event: AdmitEventView, t: AdmitState)
    requires
        admit_step(s, event, t),
        !(s.view.stage is Ready),
        (s.view.stage is Lookup || s.view.stage is Reclaim) == (event is Slots),
    ensures
        steps_left(t.view.stage) < steps_left(s.view.stage),
{
}

/// A lookup takes a slot wherever there is one to take: the first reported slot
/// that does not say it is processing, and that the registry knows neither as
/// dirty nor as in use, is the session's from that step on, whatever its position
/// is and whoever had it last. If there is a blob it is restored first, else the
/// turn is steered to it at once.
pub proof fn law_lookup_takes_the_first_idle_clean_slot(s: AdmitState, reported: Seq<SlotState>, t: AdmitState, k: int)
    requires
        s.view.stage == AdmitStage::Lookup,
        admit_step(s, AdmitEventView::Slots(Some(reported)), t),
        0 <= k < reported.len(),
        !reported[k].is_processing,
        s.slots.contains_key(reported[k].id) ==> !s.slots[reported[k].id].dirty && s.slots[reported[k].id].turns == 0,
        forall|j: int|
            0 <= j < k ==> (#[trigger] reported[j]).is_processing || s.slots.contains_key(reported[j].id) && (
            s.slots[reported[j].id].dirty || s.slots[reported[j].id].turns > 0),
    ensures
        t.view.stage == (if s.view.disk_hit {
            AdmitStage::Restore(reported[k].id)
        } else {
            AdmitStage::Ready(Some(reported[k].id))
        }),
        t.slots.contains_key(reported[k].id),
        t.slots[reported[k].id].session == Some(s.view.session),
        t.slots[reported[k].id].dirty,
        t.slots[reported[k].id].turns > 0,
{
    assert(registry::free(s.slots, reported[k]));
    assert forall|j: int| 0 <= j < k implies !registry::free(s.slots, #[trigger] reported[j]) by {}
    let w = choose|w: int| #[trigger] registry::first_free(s.slots, reported, w) && t == won(
        with_slots(s, registry::observed(s.slots, reported.take(w + 1))),
        reported[w].id,
    );
    assert(w == k);
}

/// A lookup goes on to reclaim a slot only if it could not take one: every
/// reported slot says that it is processing, or is dirty, or is in use. No slot is
/// given to anyone then.
pub proof fn law_lookup_gives_up_only_without_a_slot(s: AdmitState, reported: Seq<SlotState>, t: AdmitState)
    requires
        s.view.stage == AdmitStage::Lookup,
        admit_step(s, AdmitEventView::Slots(Some(reported)), t),
        forall|j: int|
            0 <= j < reported.len() ==> (#[trigger] reported[j]).is_processing || s.slots.contains_key(reported[j].id) && (
            s.slots[reported[j].id].dirty || s.slots[reported[j].id].turns > 0),
    ensures
        t.view.stage == AdmitStage::Reclaim,
{
    assert forall|j: int| 0 <= j < reported.len() implies !registry::free(s.slots, #[trigger] reported[j]) by {}
}

/// A slot is reclaimed wherever there is one to reclaim: the first reported slot
/// that does not say it is processing, that is dirty and that no turn is on its
/// way on, is to be published under the name of the session that it belongs to.
pub proof fn law_reclaim_claims_the_first_idle_dirty_slot(s: AdmitState, reported: Seq<SlotState>, t: AdmitState, k: int)
    requires
        s.view.stage == AdmitStage::Reclaim,
        admit_step(s, AdmitEventView::Slots(Some(reported)), t),
        0 <= k < reported.len(),
        !reported[k].is_processing,
        s.slots.contains_key(reported[k].id),
        s.slots[reported[k].id].dirty,
        s.slots[reported[k].id].turns == 0,
        s.slots[reported[k].id].session is Some,
        forall|j: int|
            0 <= j < k ==> (#[trigger] reported[j]).is_processing || !s.slots.contains_key(reported[j].id)
                || !s.slots[reported[j].id].dirty || s.slots[reported[j].id].turns > 0,
    ensures
        t.view.stage == AdmitStage::Evict(reported[k].id),
        Some(t.view.victim) == s.slots[reported[k].id].session,
{
    assert(registry::evictable(s.slots, reported[k]));
    assert forall|j: int| 0 <= j < k implies !registry::evictable(s.slots, #[trigger] reported[j]) by {}
    let w = choose|w: int| #[trigger] registry::first_evictable(s.slots, reported, w) && t == evicting(
        with_slots(s, registry::observed(s.slots, reported.take(w + 1))),
        reported[w].id,
        registry::known(s.slots, reported[w].id).session->0,
    );
    assert(w == k);
}

/// A slot that was published for a turn is taken for it, as long as nothing else
/// is at stake in it: the blob is restored if there is one, else the turn is
/// steered to the slot at once.
pub proof fn law_published_slot_is_taken(s: AdmitState, t: AdmitState, id: u32)
    requires
        s.view.stage == AdmitStage::Evict(id),
        admit_step(s, AdmitEventView::Outcome(true), t),
        s.slots.contains_key(id) ==> !s.slots[id].dirty && s.slots[id].turns == 0,
    ensures
        t.view.stage == (if s.view.disk_hit { AdmitStage::Restore(id) } else { AdmitStage::Ready(Some(id)) }),
        t.slots.contains_key(id),
        t.slots[id].session == Some(s.view.session),
        t.slots[id].dirty,
        t.slots[id].turns > 0,
{
}

/// Once a slot is won the turn is steered to it, whether or not its blob could be
/// restored; a blob that was restored is marked as used first.
pub proof fn law_won_slot_is_steered_to(s: AdmitState, ok: bool, t: AdmitState, id: u32)
    requires
        s.view.stage == AdmitStage::Restore(id) || s.view.stage == AdmitStage::Touch(id),
        admit_step(s, AdmitEventView::Outcome(ok), t),
    ensures
        t.view.stage == (if s.view.stage == AdmitStage::Restore(id) && ok {
            AdmitStage::Touch(id)
        } else {
            AdmitStage::Ready(Some(id))
        }),
        t.slots == s.slots,
{
}

/// A backend that could not be asked costs no one a slot: the lookup goes on, and
/// the second time the turn is forwarded unsteered. Nothing changes but the
/// stage, and an event that answers something else changes nothing at all.
pub proof fn law_silent_backend_changes_nothing(s: AdmitState, t: AdmitState, u: AdmitState, ok: bool)
    requires
        s.view.stage == AdmitStage::Lookup || s.view.stage == AdmitStage::Reclaim,
        admit_step(s, AdmitEventView::Slots(None), t),
        admit_step(s, AdmitEventView::Outcome(ok), u),
    ensures
        t.slots == s.slots,
        s.view.stage == AdmitStage::Lookup ==> t.view.stage == AdmitStage::Reclaim,
        s.view.stage == AdmitStage::Reclaim ==> t.view.stage == AdmitStage::Ready(None),
        t.view.session == s.view.session,
        u == s,
{
}

/// A turn is forwarded unsteered for want of a slot only if there is none to
/// reclaim: every reported slot says that it is processing, or is not dirty, or is
/// in use.
pub proof fn law_reclaim_gives_up_only_without_a_slot(s: AdmitState, reported: Seq<SlotState>, t: AdmitState)
    requires
        s.view.stage == AdmitStage::Reclaim,
        admit_step(s, AdmitEventView::Slots(Some(reported)), t),
        forall|j: int|
            0 <= j < reported.len() ==> (#[trigger] reported[j]).is_processing || !s.slots.contains_key(reported[j].id)
                || !s.slots[reported[j].id].dirty || s.slots[reported[j].id].turns > 0,
    ensures
        t.view.stage == AdmitStage::Ready(None),
{
    assert forall|j: int| 0 <= j < reported.len() implies !registry::evictable(s.slots, #[trigger] reported[j]) by {}
}

/// An answer to a question that was not asked changes nothing, and an admission
/// that is over stays over.
pub proof fn law_stray_events_change_nothing(s: AdmitState, event: AdmitEventView, t: AdmitState)
    requires
        admit_step(s, event, t),
        s.view.stage is Ready || (s.view.stage is Lookup || s.view.stage is Reclaim) != (event is Slots),
    ensures
        t == s,
{
}

/// What came of a step is taken as it was told.
pub proof fn law_event_is_taken_as_told(slots: Vec<SlotState>, ok: bool)
    ensures
        AdmitEvent::Slots(Some(slots))@ == AdmitEventView::Slots(Some(slots@)),
        AdmitEvent::Slots(None)@ == AdmitEventView::Slots(None),
        AdmitEvent::Outcome(ok)@ == AdmitEventView::Outcome(ok),
{
}

} // verus!
