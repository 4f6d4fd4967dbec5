//! The rules over interleaved turns: whatever admissions and saves run side by
//! side on one registry.

use crate::admission;
use crate::admission::AdmitEventView;
use crate::admission::AdmitState;
use crate::admission::AdmitView;
use crate::publish;
use crate::publish::SaveStage;
use crate::registry;
use crate::registry::Slots;
use vstd::prelude::*;

verus! {

/// One step on the registry, of any of the turns and saves under way.
pub enum PolicyStep {
    /// The admission of a session's turn begins; a slot that the session owns is
    /// given to it at once.
    Begin(Seq<char>, Option<u32>),
    /// An admission goes on with what came of its last step.
    Admit(AdmitView, AdmitEventView, AdmitView),
    /// The save of a slot for a session goes on from a stage.
    Save(u32, Seq<char>, SaveStage),
    /// A session's turn on a slot is over, to be saved or not.
    Release(u32, Seq<char>),
}

/// What a step makes of the registry.
pub open spec fn policy_step(m: Slots, step: PolicyStep, t: Slots) -> bool {
    match step {
        PolicyStep::Begin(session, Some(id)) => registry::owned_by(m, id, session) && t == registry::reserved(
            m,
            id,
            session,
        ),
        PolicyStep::Begin(_, None) => t == m,
        PolicyStep::Admit(before, event, after) => admission::admit_step(
            (AdmitState { view: before, slots: m }),
            event,
            (AdmitState { view: after, slots: t }),
        ),
        PolicyStep::Save(slot, session, stage) => t == publish::registry_after_save(m, slot, session, stage),
        PolicyStep::Release(slot, session) => t == registry::released(m, slot, session),
    }
}

/// The registry before and after every step, in the order in which the steps
/// came.
pub open spec fn policy_run(ms: Seq<Slots>, steps: Seq<PolicyStep>) -> bool {
    &&& ms.len() == steps.len() + 1
    &&& forall|i: int| 0 <= i < steps.len() ==> policy_step(ms[i], #[trigger] steps[i], ms[i + 1])
}

/// The last step of the publish of a slot under a session's name.
pub open spec fn publishes(step: PolicyStep, id: u32, session: Seq<char>) -> bool {
    step == PolicyStep::Save(id, session, SaveStage::Touch)
}

/// A step of an admission that wins a slot.
pub open spec fn wins(step: PolicyStep, id: u32, session: Seq<char>) -> bool {
    step matches PolicyStep::Admit(before, _, after) && before.session == session && admission::holds(after.stage, id)
        && !admission::holds(before.stage, id)
}

/// A step that gives a slot to a turn of a session: the session goes straight
/// back to it, or its admission wins it.
pub open spec fn gives(step: PolicyStep, id: u32, session: Seq<char>) -> bool {
    step == PolicyStep::Begin(session, Some(id)) || wins(step, id, session)
}

/// What the step that gives a slot to a turn finds and leaves: nothing of anyone
/// else's that is unpublished, and a slot that is the session's, dirty and in use.
pub proof fn law_given_slot_is_reserved(m: Slots, step: PolicyStep, t: Slots, id: u32, session: Seq<char>)
    requires
        policy_step(m, step, t),
        gives(step, id, session),
    ensures
        registry::owned_by(m, id, session) || registry::takeable(m, id),
        wins(step, id, session) ==> registry::takeable(m, id),
        registry::owned_by(t, id, session),
        registry::is_dirty(t, id),
        registry::in_use(t, id),
{
    if let PolicyStep::Admit(before, event, after) = step {
        admission::law_save_before_steal(
            (AdmitState { view: before, slots: m }),
            event,
            (AdmitState { view: after, slots: t }),
            id,
        );
    }
}

/// No step changes the owner of a dirty slot, and only the publish of the slot
/// under its owner's name makes it clean, unless a turn is on its way on it.
pub proof fn law_dirty_slot_is_kept(m: Slots, step: PolicyStep, t: Slots, id: u32, owner: Seq<char>)
    requires
        policy_step(m, step, t),
        registry::owned_by(m, id, owner),
        registry::is_dirty(m, id),
    ensures
        registry::owned_by(t, id, owner),
        registry::is_dirty(t, id) || publishes(step, id, owner) && !registry::in_use(m, id),
{
    if let PolicyStep::Admit(before, event, after) = step {
        let s = AdmitState { view: before, slots: m };
        let n = AdmitState { view: after, slots: t };
        admission::law_admission_drops_no_state(s, event, n, id);
        if admission::holds(after.stage, id) && !admission::holds(before.stage, id) {
            admission::law_save_before_steal(s, event, n, id);
        }
    }
}

/// No step takes a slot that a turn is on its way on, or makes it clean, and only
/// the end of a turn of its owner lowers the count of its turns.
pub proof fn law_slot_in_use_is_kept(m: Slots, step: PolicyStep, t: Slots, id: u32, owner: Seq<char>)
    requires
        policy_step(m, step, t),
        registry::owned_by(m, id, owner),
        registry::in_use(m, id),
    ensures
        registry::owned_by(t, id, owner),
        registry::is_dirty(m, id) ==> registry::is_dirty(t, id),
        registry::known(t, id).turns >= registry::known(m, id).turns || step == PolicyStep::Release(id, owner),
        registry::known(t, id).turns + 1 >= registry::known(m, id).turns,
{
    if let PolicyStep::Admit(before, event, after) = step {
        let s = AdmitState { view: before, slots: m };
        let n = AdmitState { view: after, slots: t };
        admission::law_admission_drops_no_state(s, event, n, id);
        if admission::holds(after.stage, id) && !admission::holds(before.stage, id) {
            admission::law_save_before_steal(s, event, n, id);
        }
    }
}

/// Nothing unpublished ever changes hands: whatever turns and saves run side by
/// side, a slot that was dirty and a session's is still both, or it was published
/// under that session's name in between, with no turn on its way on it.
pub proof fn law_dirty_slot_is_published_before_it_changes_hands(
    ms: Seq<Slots>,
    steps: Seq<PolicyStep>,
    i: int,
    k: int,
    id: u32,
    owner: Seq<char>,
)
    requires
        policy_run(ms, steps),
        0 <= i <= k < ms.len(),
        registry::owned_by(ms[i], id, owner),
        registry::is_dirty(ms[i], id),
    ensures
        (registry::owned_by(ms[k], id, owner) && registry::is_dirty(ms[k], id)) || exists|j: int|
            i <= j < k && publishes(#[trigger] steps[j], id, owner) && !registry::in_use(ms[j], id),
    decreases k - i,
{
    if i < k {
        law_dirty_slot_is_published_before_it_changes_hands(ms, steps, i, k - 1, id, owner);
        if registry::owned_by(ms[k - 1], id, owner) && registry::is_dirty(ms[k - 1], id) {
            assert(policy_step(ms[k - 1], steps[k - 1], ms[k - 1 + 1]));
            law_dirty_slot_is_kept(ms[k - 1], steps[k - 1], ms[k], id, owner);
        }
    }
}

/// A slot is dirty from the moment a turn is steered to it until its state is
/// published: whatever runs side by side, after a turn of a session was given a
/// slot, the slot is the session's and dirty, or it was published under the
/// session's name at a moment at which no turn was on its way on it.
pub proof fn law_steered_slot_is_dirty_until_published(
    ms: Seq<Slots>,
    steps: Seq<PolicyStep>,
    i: int,
    k: int,
    id: u32,
    session: Seq<char>,
)
    requires
        policy_run(ms, steps),
        0 <= i < k < ms.len(),
        gives(steps[i], id, session),
    ensures
        (registry::owned_by(ms[k], id, session) && registry::is_dirty(ms[k], id)) || exists|j: int|
            i < j < k && publishes(#[trigger] steps[j], id, session) && !registry::in_use(ms[j], id),
{
    assert(policy_step(ms[i], steps[i], ms[i + 1]));
    law_given_slot_is_reserved(ms[i], steps[i], ms[i + 1], id, session);
    law_dirty_slot_is_published_before_it_changes_hands(ms, steps, i + 1, k, id, session);
}

/// A slot that a turn is on its way on is dirty and has an owner, and so is every
/// dirty slot owned: it holds of every registry that is reached from the empty
/// one, whatever runs side by side.
pub proof fn law_slot_in_use_is_dirty(ms: Seq<Slots>, steps: Seq<PolicyStep>, k: int, id: u32)
    requires
        policy_run(ms, steps),
        ms[0] == Slots::empty(),
        0 <= k < ms.len(),
    ensures
        registry::in_use(ms[k], id) ==> registry::is_dirty(ms[k], id) && registry::known(ms[k], id).session is Some,
        registry::is_dirty(ms[k], id) ==> registry::known(ms[k], id).session is Some,
    decreases k,
{
    if k > 0 {
        law_slot_in_use_is_dirty(ms, steps, k - 1, id);
        assert(policy_step(ms[k - 1], steps[k - 1], ms[k - 1 + 1]));
        if let PolicyStep::Admit(before, event, after) = steps[k - 1] {
            let s = AdmitState { view: before, slots: ms[k - 1] };
            let n = AdmitState { view: after, slots: ms[k] };
            admission::law_admission_drops_no_state(s, event, n, id);
            if admission::holds(after.stage, id) && !admission::holds(before.stage, id) {
                admission::law_save_before_steal(s, event, n, id);
            }
        }
    }
}

/// A slot that a session's turn was given is that session's, and dirty, for as
/// long as a turn is on its way on it: no admission wins it, and it is given to
/// turns of that session alone, whatever runs side by side. So no other session
/// restores over it, takes it or relabels it.
pub proof fn law_slot_of_a_turn_is_nobody_elses(
    ms: Seq<Slots>,
    steps: Seq<PolicyStep>,
    i: int,
    k: int,
    id: u32,
    session: Seq<char>,
)
    requires
        policy_run(ms, steps),
        0 <= i < k < ms.len(),
        gives(steps[i], id, session),
        forall|j: int| i < j < k ==> registry::in_use(#[trigger] ms[j], id),
    ensures
        registry::owned_by(ms[k], id, session),
        registry::is_dirty(ms[k], id),
        forall|j: int, other: Seq<char>| i < j < k ==> !#[trigger] wins(steps[j], id, other),
        forall|j: int, other: Seq<char>| i < j < k && #[trigger] gives(steps[j], id, other) ==> other == session,
    decreases k - i,
{
    assert(policy_step(ms[i], steps[i], ms[i + 1]));
    law_given_slot_is_reserved(ms[i], steps[i], ms[i + 1], id, session);
    if i + 1 < k {
        law_slot_of_a_turn_is_nobody_elses(ms, steps, i, k - 1, id, session);
        let (m, step, t) = (ms[k - 1], steps[k - 1], ms[k]);
        assert(policy_step(ms[k - 1], steps[k - 1], ms[k - 1 + 1]));
        assert(registry::in_use(ms[k - 1], id));
        law_slot_in_use_is_kept(m, step, t, id, session);
        assert forall|j: int, other: Seq<char>| i < j < k implies !#[trigger] wins(steps[j], id, other) by {
            if j == k - 1 && wins(step, id, other) {
                law_given_slot_is_reserved(m, step, t, id, other);
            }
        }
        assert forall|j: int, other: Seq<char>| i < j < k && #[trigger] gives(steps[j], id, other) implies other == session by {
            assert(!wins(steps[j], id, other));
            if j == k - 1 {
                law_given_slot_is_reserved(m, step, t, id, other);
            } else {
                assert(gives(steps[j], id, other));
            }
        }
    }
}

/// A turn keeps its slot in use until a turn of its session on that slot is over.
pub proof fn law_slot_is_in_use_until_a_turn_is_over(
    ms: Seq<Slots>,
    steps: Seq<PolicyStep>,
    i: int,
    k: int,
    id: u32,
    session: Seq<char>,
)
    requires
        policy_run(ms, steps),
        0 <= i < k < ms.len(),
        gives(steps[i], id, session),
        forall|j: int| i < j < k ==> #[trigger] steps[j] != PolicyStep::Release(id, session),
    ensures
        registry::in_use(ms[k], id),
        registry::owned_by(ms[k], id, session),
        registry::is_dirty(ms[k], id),
    decreases k - i,
{
    assert(policy_step(ms[i], steps[i], ms[i + 1]));
    law_given_slot_is_reserved(ms[i], steps[i], ms[i + 1], id, session);
    if i + 1 < k {
        law_slot_is_in_use_until_a_turn_is_over(ms, steps, i, k - 1, id, session);
        assert(policy_step(ms[k - 1], steps[k - 1], ms[k - 1 + 1]));
        law_slot_in_use_is_kept(ms[k - 1], steps[k - 1], ms[k], id, session);
    }
}

} // verus!
