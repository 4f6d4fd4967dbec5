//! The dirty-slot registry: which session owns each backend slot, and whether
//! the slot's state is still unpublished.

use crate::backend::SlotState;
use crate::text;
use std::collections::HashMap;
use vstd::prelude::*;

verus! {

broadcast use vstd::std_specs::hash::group_hash_axioms;

/// What is known of one slot.
pub struct SlotInfo {
    pub session: Option<String>,
    /// Set from the moment a turn is steered to this slot until the post-turn
    /// save publishes. A dirty slot is never stolen.
    pub dirty: bool,
    pub busy: bool,
    /// How many turns are on their way on this slot: from the moment one is
    /// given the slot until it is over. Meanwhile nobody else gets the slot.
    pub turns: u64,
}

/// What is known of one slot, with the session as plain characters.
pub struct SlotView {
    pub session: Option<Seq<char>>,
    pub dirty: bool,
    pub busy: bool,
    pub turns: u64,
}

impl View for SlotInfo {
    type V = SlotView;

    open spec fn view(&self) -> SlotView {
        SlotView {
            session: match self.session {
                Some(s) => Some(s@),
                None => None,
            },
            dirty: self.dirty,
            busy: self.busy,
            turns: self.turns,
        }
    }
}

/// The registry's content: the known slots by their number.
pub type Slots = Map<u32, SlotView>;

/// A slot that nothing is known of.
pub open spec fn fresh_slot() -> SlotView {
    SlotView { session: None, dirty: false, busy: false, turns: 0 }
}

/// What the registry knows of a slot.
pub open spec fn known(m: Slots, id: u32) -> SlotView {
    if m.contains_key(id) {
        m[id]
    } else {
        fresh_slot()
    }
}

/// Whether a slot's state is unpublished.
pub open spec fn is_dirty(m: Slots, id: u32) -> bool {
    known(m, id).dirty
}

/// Whether a slot belongs to a session.
pub open spec fn owned_by(m: Slots, id: u32, session: Seq<char>) -> bool {
    m.contains_key(id) && m[id].session == Some(session)
}

/// The registry after one reported slot was looked at.
pub open spec fn observed_one(m: Slots, s: SlotState) -> Slots {
    m.insert(s.id, SlotView { busy: s.is_processing, ..known(m, s.id) })
}

/// The registry after the reported slots were looked at in turn.
pub open spec fn observed(m: Slots, reported: Seq<SlotState>) -> Slots
    decreases reported.len(),
{
    if reported.len() == 0 {
        m
    } else {
        observed_one(observed(m, reported.drop_last()), reported.last())
    }
}

/// Whether a turn is on its way on a slot.
pub open spec fn in_use(m: Slots, id: u32) -> bool {
    known(m, id).turns > 0
}

/// Whether a slot may be given to a session: its state is published, and no turn
/// is on its way on it.
pub open spec fn takeable(m: Slots, id: u32) -> bool {
    !is_dirty(m, id) && !in_use(m, id)
}

/// Whether a reported slot may be taken as it is: neither processing, nor in use,
/// nor dirty.
pub open spec fn free(m: Slots, s: SlotState) -> bool {
    !s.is_processing && takeable(m, s.id)
}

/// Whether a reported slot may be taken once its state is published: dirty, but
/// neither processing nor in use.
pub open spec fn evictable(m: Slots, s: SlotState) -> bool {
    !s.is_processing && is_dirty(m, s.id) && !in_use(m, s.id)
}

/// `k` is the first reported slot that is free.
pub open spec fn first_free(m: Slots, reported: Seq<SlotState>, k: int) -> bool {
    &&& 0 <= k < reported.len()
    &&& free(m, reported[k])
    &&& forall|j: int| 0 <= j < k ==> !free(m, #[trigger] reported[j])
}

/// `k` is the first reported slot that is evictable.
pub open spec fn first_evictable(m: Slots, reported: Seq<SlotState>, k: int) -> bool {
    &&& 0 <= k < reported.len()
    &&& evictable(m, reported[k])
    &&& forall|j: int| 0 <= j < k ==> !evictable(m, #[trigger] reported[j])
}

/// The registry after a slot was marked as holding a session's state,
/// unpublished.
pub open spec fn dirtied(m: Slots, id: u32, session: Seq<char>) -> Slots {
    m.insert(id, SlotView { session: Some(session), dirty: true, ..known(m, id) })
}

/// The registry after a slot's state was published.
pub open spec fn cleaned(m: Slots, id: u32) -> Slots {
    if m.contains_key(id) {
        m.insert(id, SlotView { dirty: false, ..m[id] })
    } else {
        m
    }
}

/// The registry after a slot was given to a turn of a session: the slot is the
/// session's, dirty, and in use by one more turn.
pub open spec fn reserved(m: Slots, id: u32, session: Seq<char>) -> Slots {
    let turns = known(m, id).turns;
    m.insert(
        id,
        SlotView {
            session: Some(session),
            dirty: true,
            turns: if turns < u64::MAX { (turns + 1) as u64 } else { turns },
            ..known(m, id)
        },
    )
}

/// The registry after a turn of a session on a slot is over; nothing changes
/// unless the slot is the session's.
pub open spec fn released(m: Slots, id: u32, session: Seq<char>) -> Slots {
    if owned_by(m, id, session) {
        let turns = m[id].turns;
        m.insert(id, SlotView { turns: if turns > 0 { (turns - 1) as u64 } else { 0 }, ..m[id] })
    } else {
        m
    }
}

/// The registry after a slot's state was published under a session's name: clean
/// if the slot is the session's and no turn is on its way on it, else as it was.
pub open spec fn published(m: Slots, id: u32, session: Seq<char>) -> Slots {
    if owned_by(m, id, session) && !in_use(m, id) {
        cleaned(m, id)
    } else {
        m
    }
}

/// The session of an evicted slot.
pub open spec fn victim_view(v: Option<String>) -> Option<Seq<char>> {
    match v {
        Some(s) => Some(s@),
        None => None,
    }
}

/// Looking at reported slots changes neither an owner, nor a dirty mark, nor who
/// uses a slot.
pub proof fn lemma_observed_keeps(m: Slots, reported: Seq<SlotState>, id: u32)
    ensures
        known(observed(m, reported), id).session == known(m, id).session,
        known(observed(m, reported), id).dirty == known(m, id).dirty,
        known(observed(m, reported), id).turns == known(m, id).turns,
        m.contains_key(id) ==> observed(m, reported).contains_key(id),
    decreases reported.len(),
{
    if reported.len() > 0 {
        lemma_observed_keeps(m, reported.drop_last(), id);
    }
}

/// The slots that were seen so far, by their number.
pub struct SlotRegistry {
    slots: HashMap<u32, SlotInfo>,
}

impl View for SlotRegistry {
    type V = Slots;

    closed spec fn view(&self) -> Slots {
        self.slots@.map_values(|s: SlotInfo| s@)
    }
}

impl SlotRegistry {
    /// A dirty slot always has an owner: there is a session to publish it under.
    pub open spec fn wf(&self) -> bool {
        forall|id: u32| #[trigger] self@.contains_key(id) && self@[id].dirty ==> self@[id].session is Some
    }

    /// A registry that has seen no slot.
    pub fn new() -> (r: Self)
        ensures
            r.wf(),
            r@ == Slots::empty(),
    {
        let r = SlotRegistry { slots: HashMap::new() };
        assert(r@ =~= Slots::empty());
        r
    }

    /// What is known of a slot.
    pub fn slot(&self, id: u32) -> (r: Option<&SlotInfo>)
        ensures
            r is Some <==> self@.contains_key(id),
            r matches Some(s) ==> s@ == self@[id],
    {
        self.slots.get(&id)
    }

    /// A slot that the session owns already: its turn is steered straight back.
    /// Should it own several, which of them is left open.
    pub fn hot_slot(&self, session: &str) -> (r: Option<u32>)
        ensures
            r matches Some(id) ==> owned_by(self@, id, session@),
            r is None ==> forall|id: u32| !owned_by(self@, id, session@),
            r matches Some(id) ==> self@.contains_key(id) && self@[id].session == Some(session@),
            r is None ==> forall|id: u32| #[trigger] self@.contains_key(id) ==> self@[id].session != Some(session@),
    {
        let ghost all = self.slots@;
        for (id, s) in it: self.slots.iter()
            invariant
                all == self.slots@,
                forall|j: int| 0 <= j < it.index() ==> !((#[trigger] it.seq()[j]).1@.session == Some(session@)),
                forall|k: u32| #[trigger] all.contains_key(k) ==> it.seq().contains((&k, &all[k])),
                forall|j: int| 0 <= j < it.seq().len() ==> all.contains_key(*(#[trigger] it.seq()[j]).0) && all[*it.seq()[j].0] == *it.seq()[j].1,
        {
            if let Some(owner) = &s.session {
                if text::same_text(owner.as_str(), session) {
                    return Some(*id);
                }
            }
        }
        None
    }

    /// Whether a slot belongs to a session.
    pub fn owns(&self, id: u32, session: &str) -> (r: bool)
        ensures
            r == owned_by(self@, id, session@),
    {
        match self.slots.get(&id) {
            Some(s) => match &s.session {
                Some(owner) => text::same_text(owner.as_str(), session),
                None => false,
            },
            None => false,
        }
    }

    /// Whether a slot's state is unpublished.
    pub fn dirty(&self, id: u32) -> (r: bool)
        ensures
            r == is_dirty(self@, id),
    {
        match self.slots.get(&id) {
            Some(s) => s.dirty,
            None => false,
        }
    }

    /// Whether a turn is on its way on a slot.
    pub fn used(&self, id: u32) -> (r: bool)
        ensures
            r == in_use(self@, id),
    {
        match self.slots.get(&id) {
            Some(s) => s.turns > 0,
            None => false,
        }
    }

    /// Note what a slot reports, and tell whether it is dirty and whether it is
    /// in use.
    fn observe(&mut self, s: SlotState) -> (r: (bool, bool))
        ensures
            final(self)@ == observed_one(old(self)@, s),
            r.0 == is_dirty(old(self)@, s.id),
            r.1 == in_use(old(self)@, s.id),
    {
        let e = self.slots.entry(s.id).or_insert(SlotInfo { session: None, dirty: false, busy: false, turns: 0 });
        e.busy = s.is_processing;
        let r = (e.dirty, e.turns > 0);
        assert(self@ =~= observed_one(old(self)@, s));
        r
    }

    /// Find the first reported slot that is neither processing, nor in use, nor
    /// dirty, and note what was looked at on the way.
    pub fn pick_free(&mut self, reported: &Vec<SlotState>) -> (r: Option<u32>)
        requires
            old(self).wf(),
        ensures
            final(self).wf(),
            r matches Some(id) ==> exists|k: int| #[trigger] first_free(old(self)@, reported@, k)
                && id == reported@[k].id
                && final(self)@ == observed(old(self)@, reported@.take(k + 1)),
            r is None ==> final(self)@ == observed(old(self)@, reported@)
                && forall|k: int| 0 <= k < reported@.len() ==> !free(old(self)@, #[trigger] reported@[k]),
            r is None ==> forall|k: int|
                0 <= k < reported@.len() ==> (#[trigger] reported@[k]).is_processing || old(self)@.contains_key(
                    reported@[k].id,
                ) && (old(self)@[reported@[k].id].dirty || old(self)@[reported@[k].id].turns > 0),
            r matches Some(id) ==> old(self)@.contains_key(id) ==> !old(self)@[id].dirty && old(self)@[id].turns == 0,
    {
        let ghost before = self@;
        let mut i: usize = 0;
        while i < reported.len()
            invariant
                i <= reported@.len(),
                before == old(self)@,
                self@ == observed(before, reported@.take(i as int)),
                self.wf(),
                forall|j: int| 0 <= j < i ==> !free(before, #[trigger] reported@[j]),
            decreases reported@.len() - i,
        {
            let s = reported[i];
            let (dirty, used) = self.observe(s);
            proof {
                assert(reported@.take(i + 1).drop_last() =~= reported@.take(i as int));
                lemma_observed_keeps(before, reported@.take(i as int), s.id);
            }
            if !(s.is_processing || dirty || used) {
                assert(first_free(before, reported@, i as int));
                return Some(s.id);
            }
            i += 1;
        }
        assert(reported@.take(reported@.len() as int) =~= reported@);
        None
    }

    /// Find the first reported slot that is dirty but neither processing nor in
    /// use, with the session whose state has to be published before the slot is taken.
    pub fn find_evictable(&mut self, reported: &Vec<SlotState>) -> (r: Option<(u32, Option<String>)>)
        requires
            old(self).wf(),
        ensures
            final(self).wf(),
            r matches Some(found) ==> exists|k: int| #[trigger] first_evictable(old(self)@, reported@, k)
                && found.0 == reported@[k].id
                && victim_view(found.1) == known(old(self)@, found.0).session
                && found.1 is Some
                && final(self)@ == observed(old(self)@, reported@.take(k + 1)),
            r is None ==> final(self)@ == observed(old(self)@, reported@)
                && forall|k: int| 0 <= k < reported@.len() ==> !evictable(old(self)@, #[trigger] reported@[k]),
            r is None ==> forall|k: int|
                0 <= k < reported@.len() ==> (#[trigger] reported@[k]).is_processing || !old(self)@.contains_key(
                    reported@[k].id,
                ) || !old(self)@[reported@[k].id].dirty || old(self)@[reported@[k].id].turns > 0,
            r matches Some(found) ==> old(self)@.contains_key(found.0) && old(self)@[found.0].dirty
                && old(self)@[found.0].turns == 0,
    {
        let ghost before = self@;
        let mut i: usize = 0;
        while i < reported.len()
            invariant
                i <= reported@.len(),
                before == old(self)@,
                self@ == observed(before, reported@.take(i as int)),
                old(self).wf(),
                self.wf(),
                forall|j: int| 0 <= j < i ==> !evictable(before, #[trigger] reported@[j]),
            decreases reported@.len() - i,
        {
            let s = reported[i];
            let (dirty, used) = self.observe(s);
            proof {
                assert(reported@.take(i + 1).drop_last() =~= reported@.take(i as int));
                lemma_observed_keeps(before, reported@.take(i as int), s.id);
                lemma_observed_keeps(before, reported@.take(i + 1), s.id);
            }
            if !s.is_processing && dirty && !used {
                assert(first_evictable(before, reported@, i as int));
                let owner = match self.slots.get(&s.id) {
                    Some(e) => match &e.session {
                        Some(t) => Some(t.clone()),
                        None => None,
                    },
                    None => None,
                };
                return Some((s.id, owner));
            }
            i += 1;
        }
        assert(reported@.take(reported@.len() as int) =~= reported@);
        None
    }

    /// Mark a slot as holding the session's state, unpublished: nobody else may
    /// use it before its state is published.
    pub fn mark_dirty(&mut self, id: u32, session: &str)
        requires
            old(self).wf(),
        ensures
            final(self).wf(),
            final(self)@ == dirtied(old(self)@, id, session@),
    {
        let e = self.slots.entry(id).or_insert(SlotInfo { session: None, dirty: false, busy: false, turns: 0 });
        e.session = Some(session.to_owned());
        e.dirty = true;
        assert(self@ =~= dirtied(old(self)@, id, session@));
    }

    /// Mark a slot's state as published, whoever's it is.
    pub fn mark_clean(&mut self, id: u32)
        requires
            old(self).wf(),
        ensures
            final(self).wf(),
            final(self)@ == cleaned(old(self)@, id),
    {
        if self.slots.contains_key(&id) {
            let e = self.slots.entry(id).or_insert(SlotInfo { session: None, dirty: false, busy: false, turns: 0 });
            e.dirty = false;
        }
        assert(self@ =~= cleaned(old(self)@, id));
    }

    /// Give a slot to a turn of a session: from now on it is the session's and
    /// dirty, and nobody else gets it before the turn is over and its state is
    /// published.
    pub fn reserve(&mut self, id: u32, session: &str)
        requires
            old(self).wf(),
        ensures
            final(self).wf(),
            final(self)@ == reserved(old(self)@, id, session@),
    {
        self.mark_dirty(id, session);
        let ghost marked = self@;
        assert(marked.contains_key(id));
        assert(self.slots@.contains_key(id));
        let e = self.slots.entry(id).or_insert(SlotInfo { session: None, dirty: false, busy: false, turns: 0 });
        let turns: u64 = e.turns.saturating_add(1);
        e.turns = turns;
        assert(self@ =~= marked.insert(id, SlotView { turns, ..marked[id] }));
        assert(self@ =~= reserved(old(self)@, id, session@));
    }

    /// A turn of a session on a slot is over.
    pub fn release(&mut self, id: u32, session: &str)
        requires
            old(self).wf(),
        ensures
            final(self).wf(),
            final(self)@ == released(old(self)@, id, session@),
    {
        if self.owns(id, session) {
            let e = self.slots.entry(id).or_insert(SlotInfo { session: None, dirty: false, busy: false, turns: 0 });
            if e.turns > 0 {
                e.turns = e.turns - 1;
            }
        }
        assert(self@ =~= released(old(self)@, id, session@));
    }

    /// A slot's state was published under a session's name: the slot is clean if
    /// it is the session's, unless another turn is on its way on it already.
    pub fn mark_published(&mut self, id: u32, session: &str)
        requires
            old(self).wf(),
        ensures
            final(self).wf(),
            final(self)@ == published(old(self)@, id, session@),
    {
        if self.owns(id, session) && !self.used(id) {
            self.mark_clean(id);
        }
    }
}

/// Whether a reported slot is free is a matter of three marks alone: it does not
/// say that it is processing, and what is known of it, if anything, is neither
/// that it is dirty nor that a turn is on its way. Its position does not matter,
/// nor does who had it last.
pub proof fn law_free_is_idle_clean_and_unused(m: Slots, s: SlotState)
    ensures
        free(m, s) <==> !s.is_processing && (m.contains_key(s.id) ==> !m[s.id].dirty && m[s.id].turns == 0),
        evictable(m, s) <==> !s.is_processing && m.contains_key(s.id) && m[s.id].dirty && m[s.id].turns == 0,
{
}

/// What a look at reported slots leaves behind: a slot that is not among them is
/// as it was; one that is has the processing mark of its last report, and
/// everything else as it was, or the marks of a slot that nothing is known of.
pub proof fn law_a_look_changes_the_processing_mark_alone(m: Slots, reported: Seq<SlotState>, k: int)
    requires
        0 <= k < reported.len(),
        forall|j: int| k < j < reported.len() ==> (#[trigger] reported[j]).id != reported[k].id,
    ensures
        ({
            let id = reported[k].id;
            let t = observed(m, reported);
            &&& t.contains_key(id)
            &&& t[id].busy == reported[k].is_processing
            &&& m.contains_key(id) ==> t[id].session == m[id].session && t[id].dirty == m[id].dirty && t[id].turns
                == m[id].turns
            &&& !m.contains_key(id) ==> t[id].session is None && !t[id].dirty && t[id].turns == 0
        }),
    decreases reported.len(),
{
    let id = reported[k].id;
    let head = reported.drop_last();
    if k == reported.len() - 1 {
        lemma_observed_keeps(m, head, id);
    } else {
        assert forall|j: int| k < j < head.len() implies (#[trigger] head[j]).id != head[k].id by {
            assert(reported[j].id != reported[k].id);
        }
        law_a_look_changes_the_processing_mark_alone(m, head, k);
        assert(reported[reported.len() - 1].id != id);
    }
}

/// A slot that no report names is as it was.
pub proof fn law_a_look_leaves_the_rest(m: Slots, reported: Seq<SlotState>, id: u32)
    requires
        forall|j: int| 0 <= j < reported.len() ==> (#[trigger] reported[j]).id != id,
    ensures
        observed(m, reported).contains_key(id) == m.contains_key(id),
        m.contains_key(id) ==> observed(m, reported)[id] == m[id],
    decreases reported.len(),
{
    if reported.len() > 0 {
        let head = reported.drop_last();
        assert forall|j: int| 0 <= j < head.len() implies (#[trigger] head[j]).id != id by {
            assert(reported[j].id != id);
        }
        law_a_look_leaves_the_rest(m, head, id);
        assert(reported[reported.len() - 1].id != id);
    }
}

/// What giving a slot to a turn means for the slot: it is the session's, it is
/// dirty, and one more turn is on its way on it.
pub proof fn law_reserving_marks_the_slot(m: Slots, id: u32, session: Seq<char>)
    requires
        m.contains_key(id) ==> m[id].turns < u64::MAX,
    ensures
        ({
            let t = reserved(m, id, session);
            &&& t.contains_key(id)
            &&& t[id].session == Some(session)
            &&& t[id].dirty
            &&& t[id].turns == (if m.contains_key(id) { m[id].turns as int } else { 0 }) + 1
            &&& t[id].busy == (m.contains_key(id) && m[id].busy)
        }),
        ({
            let t = dirtied(m, id, session);
            &&& t.contains_key(id)
            &&& t[id].session == Some(session)
            &&& t[id].dirty
            &&& t[id].turns == (if m.contains_key(id) { m[id].turns as int } else { 0 })
            &&& t[id].busy == (m.contains_key(id) && m[id].busy)
        }),
{
}

/// The end of a turn takes back what giving it the slot added: there is one turn
/// less on its way, and the slot is still the session's, and dirty.
pub proof fn law_releasing_undoes_the_count(m: Slots, id: u32, session: Seq<char>)
    requires
        m.contains_key(id) ==> m[id].turns < u64::MAX,
    ensures
        ({
            let t = released(reserved(m, id, session), id, session);
            &&& t[id].turns == (if m.contains_key(id) { m[id].turns as int } else { 0 })
            &&& t[id].session == Some(session)
            &&& t[id].dirty
        }),
{
}

/// The end of a turn of a session that does not own the slot changes nothing, and
/// neither does a publish under its name.
pub proof fn law_only_the_owner_releases_and_publishes(m: Slots, id: u32, session: Seq<char>)
    requires
        !(m.contains_key(id) && m[id].session == Some(session)),
    ensures
        released(m, id, session) == m,
        published(m, id, session) == m,
{
}

/// A publish under the owner's name makes a slot clean that no turn is on its way
/// on, and changes nothing else of it.
pub proof fn law_publishing_cleans_the_slot(m: Slots, id: u32, session: Seq<char>)
    requires
        m.contains_key(id),
        m[id].session == Some(session),
    ensures
        ({
            let t = published(m, id, session);
            &&& t.contains_key(id)
            &&& t[id].dirty == (m[id].dirty && m[id].turns > 0)
            &&& t[id].session == m[id].session
            &&& t[id].turns == m[id].turns
            &&& t[id].busy == m[id].busy
            &&& cleaned(m, id).contains_key(id) && !cleaned(m, id)[id].dirty
            &&& cleaned(m, id)[id].session == m[id].session
        }),
{
}

/// Whatever happens to one slot, every other slot is as it was.
pub proof fn law_other_slots_are_as_they_were(m: Slots, id: u32, session: Seq<char>, other: u32)
    requires
        other != id,
    ensures
        forall|t: Slots|
            t == reserved(m, id, session) || t == dirtied(m, id, session) || t == released(m, id, session) || t
                == published(m, id, session) || t == cleaned(m, id) ==> (#[trigger] t.contains_key(other)) == m.contains_key(other) && (
            m.contains_key(other) ==> t[other] == m[other]),
{
}

/// The end of a turn of the owner lowers the count of the turns on its way by
/// one, down to none, and changes nothing else of the slot.
pub proof fn law_releasing_lowers_the_count(m: Slots, id: u32, session: Seq<char>)
    requires
        m.contains_key(id),
        m[id].session == Some(session),
    ensures
        ({
            let t = released(m, id, session);
            &&& t.contains_key(id)
            &&& t[id].turns == if m[id].turns > 0 { m[id].turns - 1 } else { 0 }
            &&& t[id].session == m[id].session
            &&& t[id].dirty == m[id].dirty
            &&& t[id].busy == m[id].busy
        }),
{
}

/// A slot that nothing is known of is not made known by marking it clean.
pub proof fn law_unknown_slot_is_not_marked_clean(m: Slots, id: u32)
    requires
        !m.contains_key(id),
    ensures
        cleaned(m, id) == m,
{
}

/// What is known of a slot is what its record holds.
pub proof fn law_record_is_taken_as_it_is(info: SlotInfo)
    ensures
        info@.session is Some <==> info.session is Some,
        info.session matches Some(s) ==> info@.session == Some(s@),
        info@.dirty == info.dirty,
        info@.busy == info.busy,
        info@.turns == info.turns,
{
}

} // verus!
