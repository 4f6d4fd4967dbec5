//! The write lock: a lookup holds it shared, a publish holds it exclusively.

use crate::admission::AdmitStage;
use crate::admission::Admission;
use crate::publish::SaveStage;
use crate::publish::SlotSave;
use vstd::prelude::*;

verus! {

/// How the lock is to be held.
#[derive(Debug, Clone, Copy, PartialEq, Eq, Structural)]
pub enum LockMode {
    /// Not at all.
    Free,
    /// Along with others that hold it shared.
    Shared,
    /// Alone.
    Exclusive,
}

/// Whether a readers-writer lock lets two holders in at once.
pub open spec fn compatible(a: LockMode, b: LockMode) -> bool {
    a is Free || b is Free || (a is Shared && b is Shared)
}

/// An admission holds the lock while it looks for a slot.
pub open spec fn admit_lock(stage: AdmitStage) -> LockMode {
    if stage is Lookup {
        LockMode::Shared
    } else {
        LockMode::Free
    }
}

/// The save of a slot holds the lock from its first to its last step.
pub open spec fn save_lock(stage: SaveStage) -> LockMode {
    if stage is Done || stage is Failed {
        LockMode::Free
    } else {
        LockMode::Exclusive
    }
}

impl Admission {
    /// How the lock is to be held at this stage.
    pub fn lock_mode(&self) -> (g: LockMode)
        ensures
            g == admit_lock(self.stage),
    {
        match self.stage {
            AdmitStage::Lookup => LockMode::Shared,
            _ => LockMode::Free,
        }
    }
}

impl SlotSave {
    /// How the lock is to be held at this stage.
    pub fn lock_mode(&self) -> (g: LockMode)
        ensures
            g == save_lock(self.stage),
    {
        match self.stage {
            SaveStage::Done => LockMode::Free,
            SaveStage::Failed => LockMode::Free,
            _ => LockMode::Exclusive,
        }
    }
}

/// A lookup never decides while a publish is under way, as long as the lock keeps
/// incompatible holders apart.
pub proof fn law_no_lookup_during_a_publish(lookup: AdmitStage, save: SaveStage)
    requires
        compatible(admit_lock(lookup), save_lock(save)),
        lookup is Lookup,
    ensures
        save is Done || save is Failed,
{
}

/// Two publishes are never under way at once.
pub proof fn law_one_publish_at_a_time(a: SaveStage, b: SaveStage)
    requires
        compatible(save_lock(a), save_lock(b)),
    ensures
        a is Done || a is Failed || b is Done || b is Failed,
{
}

/// Whether a save is under way.
pub open spec fn under_way(stage: SaveStage) -> bool {
    !(stage is Done || stage is Failed)
}

/// A lookup and a publish that overlap in time are serialized: given the stages
/// of an admission and of a save at every moment, as long as the lock keeps
/// incompatible holders apart, the whole lookup is over before the save begins,
/// or begins after the save has published or failed.
pub proof fn law_lookup_and_publish_are_serialized(
    admission: Seq<AdmitStage>,
    save: Seq<SaveStage>,
    l0: int,
    l1: int,
    s0: int,
    s1: int,
)
    requires
        admission.len() == save.len(),
        forall|t: int|
            0 <= t < save.len() ==> compatible(admit_lock(#[trigger] admission[t]), save_lock(#[trigger] save[t])),
        0 <= l0 <= l1 < admission.len(),
        forall|t: int| l0 <= t <= l1 ==> (#[trigger] admission[t]) is Lookup,
        0 <= s0 <= s1 < save.len(),
        forall|t: int| s0 <= t <= s1 ==> under_way(#[trigger] save[t]),
    ensures
        l1 < s0 || s1 < l0,
{
    let t = if l0 < s0 { s0 } else { l0 };
    if t <= l1 && t <= s1 {
        assert(admission[t] is Lookup);
        assert(under_way(save[t]));
    }
}

/// Two publishes are serialized: given the stages of two saves at every moment,
/// as long as the lock keeps incompatible holders apart, the one is over before
/// the other begins.
pub proof fn law_publishes_are_serialized(a: Seq<SaveStage>, b: Seq<SaveStage>, a0: int, a1: int, b0: int, b1: int)
    requires
        a.len() == b.len(),
        forall|t: int| 0 <= t < a.len() ==> compatible(save_lock(#[trigger] a[t]), save_lock(#[trigger] b[t])),
        0 <= a0 <= a1 < a.len(),
        forall|t: int| a0 <= t <= a1 ==> under_way(#[trigger] a[t]),
        0 <= b0 <= b1 < b.len(),
        forall|t: int| b0 <= t <= b1 ==> under_way(#[trigger] b[t]),
    ensures
        a1 < b0 || b1 < a0,
{
    let t = if a0 < b0 { b0 } else { a0 };
    if t <= a1 && t <= b1 {
        assert(under_way(a[t]));
        assert(under_way(b[t]));
    }
}

/// An admission holds the lock for its lookup alone: while it restores a blob,
/// waits for a victim to be published (the save itself takes the lock), or its
/// turn is decoded, it blocks nobody.
pub proof fn law_only_the_lookup_is_locked(stage: AdmitStage, other: LockMode)
    requires
        !(stage is Lookup),
    ensures
        compatible(admit_lock(stage), other),
{
}

/// Lookups run side by side, a publish runs alone, and whatever else a turn does
/// goes on beside all of them.
pub proof fn law_lock_is_shared_by_lookups_alone(a: AdmitStage, save: SaveStage)
    ensures
        a == AdmitStage::Lookup ==> admit_lock(a) == LockMode::Shared,
        a != AdmitStage::Lookup ==> admit_lock(a) == LockMode::Free,
        save == SaveStage::Save || save == SaveStage::Publish || save == SaveStage::Touch ==> save_lock(save)
            == LockMode::Exclusive,
        save == SaveStage::Done || save == SaveStage::Failed ==> save_lock(save) == LockMode::Free,
        compatible(LockMode::Shared, LockMode::Shared),
        !compatible(LockMode::Shared, LockMode::Exclusive),
        !compatible(LockMode::Exclusive, LockMode::Exclusive),
{
}

} // verus!
