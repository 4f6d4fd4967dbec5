//! Seed-on-first-sight: the system-prompt bag and the seed dance.
//!
//! The dance runs once per request, before the full request is forwarded:
//!
//! - **second sight** (the bag says `Cached`): restore only, no prefill. A
//!   missing blob is a cold prefill.
//! - **first sight**: prefill the system prompt, confirm position and idleness,
//!   save, publish; then the bag says `Cached`.
//! - a failed seed leaves `Failed` in the bag; the next sight tries again, and
//!   the request is served normally in any case.
//!
//! The dance names what is to be done next and is told what came of it.

use crate::assoc::Assoc;
use crate::backend::SlotState;
use crate::digest;
use crate::evict;
use crate::json;
use crate::json::JsonView;
use crate::keys;
use crate::text;
pub use crate::publish::FsPublisher;
pub use crate::publish::MemoryPublisher;
pub use crate::publish::Publisher;
use serde_json::Value;
use vstd::prelude::*;

verus! {

/// A blob's disk lifecycle.
#[derive(Debug, Clone, Copy, PartialEq, Eq, Structural)]
pub enum BagState {
    Uncached,
    Cached,
    Failed,
}

/// One system-prompt family: its prompt head and where its blob stands.
#[derive(Debug, Clone)]
pub struct BagEntry {
    pub system: Value,
    pub state: BagState,
}

/// One system-prompt family as a mathematical value.
pub struct BagView {
    pub system: JsonView,
    pub state: BagState,
}

impl View for BagEntry {
    type V = BagView;

    open spec fn view(&self) -> BagView {
        BagView { system: json::json_view(self.system), state: self.state }
    }
}

/// The bag's content: the families by their recognition key.
pub type Bag = Map<Seq<char>, BagView>;

/// The outcome of one dance for one request.
#[derive(Debug, Clone, Copy, PartialEq, Eq, Structural)]
pub enum SeedResult {
    /// Second sight: the cached blob was restored, without any prefill.
    Restored,
    /// Second sight but the blob is gone: the caller serves the request normally
    /// (cold prefill on the full prompt).
    ColdPrefill,
    /// First sight: the dance ran and the system-prompt blob is published.
    Seeded,
    /// A step failed; the bag says `Failed`, and the next sight tries again.
    Failed,
    /// Nothing was done: no system prompt in the request, the slot is processing,
    /// or the backend does not report the slot.
    Skipped,
}

/// Where a dance stands.
#[derive(Debug, Clone, Copy, PartialEq, Eq, Structural)]
pub enum SeedStage {
    /// The backend is to report its slots.
    Inspect,
    /// The family's blob is to be restored into the slot.
    Restore,
    /// The system prompt is to be prefilled on the slot.
    Prefill,
    /// The backend is to report its slots again, to confirm the position.
    Confirm,
    /// The slot is to be saved to the scratch file.
    Save,
    /// The scratch file is to be published.
    Publish,
    /// The dance is over.
    Done(SeedResult),
}

/// What a dance asks to be done next.
pub enum SeedAction {
    /// Report the slots.
    ListSlots,
    /// Restore the blob of that name into the slot.
    Restore(u32, String),
    /// Forward the messages to the slot and generate nothing.
    Prefill(u32, Value),
    /// Save the slot to a file of that name.
    Save(u32, String),
    /// Publish the file of the first name under the second.
    Publish(String, String),
    /// Nothing: the dance is over.
    Finished(SeedResult),
}

/// What came of what a dance asked for.
pub enum SeedEvent {
    /// The slots that the backend reports; nothing if it could not be asked.
    Slots(Option<Vec<SlotState>>),
    /// Whether any other step went well.
    Outcome(bool),
}

/// What came of what a dance asked for, as a mathematical value.
pub enum SeedEventView {
    Slots(Option<Seq<SlotState>>),
    Outcome(bool),
}

impl View for SeedEvent {
    type V = SeedEventView;

    open spec fn view(&self) -> SeedEventView {
        match self {
            SeedEvent::Slots(Some(s)) => SeedEventView::Slots(Some(s@)),
            SeedEvent::Slots(None) => SeedEventView::Slots(None),
            SeedEvent::Outcome(ok) => SeedEventView::Outcome(*ok),
        }
    }
}

/// The first report on a slot.
pub open spec fn report_on(slots: Seq<SlotState>, slot: u32) -> Option<SlotState>
    decreases slots.len(),
{
    if slots.len() == 0 {
        None
    } else if slots[0].id == slot {
        Some(slots[0])
    } else {
        report_on(slots.drop_first(), slot)
    }
}

/// Whether the backend reports the slot, and reports it as not processing.
pub open spec fn reported_idle(slots: Option<Seq<SlotState>>, slot: u32) -> bool {
    slots matches Some(s) && report_on(s, slot) matches Some(r) && !r.is_processing
}

/// Whether the backend reports the slot as idle at a position past zero: the
/// prefill landed.
pub open spec fn position_confirmed(slots: Option<Seq<SlotState>>, slot: u32) -> bool {
    slots matches Some(s) && report_on(s, slot) matches Some(r) && !r.is_processing && r.n_tokens > 0
}

/// What the bag says of a family.
pub open spec fn bag_state(bag: Bag, key: Seq<char>) -> Option<BagState> {
    if bag.contains_key(key) {
        Some(bag[key].state)
    } else {
        None
    }
}

/// The stage that follows, given what the bag says of the family and what came
/// of the step. An event that does not belong to the stage changes nothing.
pub open spec fn next_stage(stage: SeedStage, slot: u32, state: Option<BagState>, event: SeedEventView) -> SeedStage {
    match (stage, event) {
        (SeedStage::Inspect, SeedEventView::Slots(s)) => if !reported_idle(s, slot) {
            SeedStage::Done(SeedResult::Skipped)
        } else if state == Some(BagState::Cached) {
            SeedStage::Restore
        } else {
            SeedStage::Prefill
        },
        (SeedStage::Restore, SeedEventView::Outcome(ok)) => SeedStage::Done(
            if ok { SeedResult::Restored } else { SeedResult::ColdPrefill },
        ),
        (SeedStage::Prefill, SeedEventView::Outcome(ok)) => if ok {
            SeedStage::Confirm
        } else {
            SeedStage::Done(SeedResult::Failed)
        },
        (SeedStage::Confirm, SeedEventView::Slots(s)) => if position_confirmed(s, slot) {
            SeedStage::Save
        } else {
            SeedStage::Done(SeedResult::Failed)
        },
        (SeedStage::Save, SeedEventView::Outcome(ok)) => if ok {
            SeedStage::Publish
        } else {
            SeedStage::Done(SeedResult::Failed)
        },
        (SeedStage::Publish, SeedEventView::Outcome(ok)) => SeedStage::Done(
            if ok { SeedResult::Seeded } else { SeedResult::Failed },
        ),
        _ => stage,
    }
}

/// The entry of a family that is about to be seeded: a failed one is tried
/// again, and a new one takes its prompt head from the request.
pub open spec fn entry_to_seed(bag: Bag, key: Seq<char>, systems: Seq<JsonView>) -> BagView {
    let e = if bag.contains_key(key) {
        bag[key]
    } else {
        BagView { system: JsonView::Array(Seq::empty()), state: BagState::Uncached }
    };
    BagView {
        system: if e.system == JsonView::Array(Seq::empty()) { JsonView::Array(systems) } else { e.system },
        state: if e.state == BagState::Failed { BagState::Uncached } else { e.state },
    }
}

/// The bag after a family's seed failed.
pub open spec fn bag_failed(bag: Bag, key: Seq<char>) -> Bag {
    let system = if bag.contains_key(key) { bag[key].system } else { JsonView::Null };
    bag.insert(key, BagView { system, state: BagState::Failed })
}

/// The bag after a family's blob was published.
pub open spec fn bag_cached(bag: Bag, key: Seq<char>) -> Bag {
    if bag.contains_key(key) {
        bag.insert(key, BagView { system: bag[key].system, state: BagState::Cached })
    } else {
        bag
    }
}

/// The bag after one step of a dance.
pub open spec fn next_bag(stage: SeedStage, slot: u32, key: Seq<char>, systems: Seq<JsonView>, bag: Bag, event: SeedEventView) -> Bag {
    let next = next_stage(stage, slot, bag_state(bag, key), event);
    if stage is Inspect && next is Prefill {
        bag.insert(key, entry_to_seed(bag, key, systems))
    } else if !(stage is Done) && next == SeedStage::Done(SeedResult::Failed) {
        bag_failed(bag, key)
    } else if stage is Publish && next == SeedStage::Done(SeedResult::Seeded) {
        bag_cached(bag, key)
    } else {
        bag
    }
}

/// Whether a message's role is `system`.
pub open spec fn is_system(message: JsonView) -> bool {
    json::member_view(message, "role"@) matches Some(r) && json::text_view(r) == Some("system"@)
}

/// The system messages of a request, in order.
pub open spec fn systems_view(request: JsonView) -> Seq<JsonView> {
    match keys::messages_view(request) {
        Some(m) => m.filter(|d: JsonView| is_system(d)),
        None => Seq::empty(),
    }
}

/// The recognition key of a request's family; nothing without a system message.
pub open spec fn family_key(request: JsonView) -> Option<Seq<char>> {
    if systems_view(request).len() == 0 {
        None
    } else {
        Some(text::hex_text(digest::sha256(keys::framed(systems_view(request)))).take(16))
    }
}

/// The name that a seeded family is published under.
pub open spec fn seed_name_text(key: Seq<char>) -> Seq<char> {
    "sys-"@ + key + "__seed.bin"@
}

fn system_message(message: &Value) -> (r: bool)
    ensures
        r == is_system(json::json_view(*message)),
{
    match json::member(message, "role") {
        Some(v) => match json::as_text(v) {
            Some(role) => text::same_text(role, "system"),
            None => false,
        },
        None => false,
    }
}

/// Copies of a request's system messages, in order.
fn system_messages(request: &Value) -> (r: Vec<Value>)
    ensures
        json::json_views(r@) == systems_view(json::json_view(*request)),
{
    let mut out: Vec<Value> = Vec::new();
    if let Some(msgs) = keys::messages(request) {
        let ghost docs = json::json_views(msgs@);
        let ghost pred = |d: JsonView| is_system(d);
        let mut i: usize = 0;
        while i < msgs.len()
            invariant
                i <= msgs@.len(),
                docs == json::json_views(msgs@),
                pred == (|d: JsonView| is_system(d)),
                json::json_views(out@) == docs.take(i as int).filter(pred),
            decreases msgs@.len() - i,
        {
            proof {
                assert(docs.take(i + 1).drop_last() =~= docs.take(i as int));
                reveal_with_fuel(Seq::filter, 2);
            }
            if system_message(&msgs[i]) {
                let ghost before = out@;
                out.push(msgs[i].clone());
                assert(json::json_views(out@) =~= json::json_views(before).push(docs[i as int]));
            }
            i += 1;
        }
        proof {
            assert(docs.take(docs.len() as int) =~= docs);
        }
    } else {
        assert(json::json_views(out@) =~= Seq::<JsonView>::empty());
    }
    out
}

fn key_of(systems: &Vec<Value>) -> (key: String)
    ensures
        key@ == text::hex_text(digest::sha256(keys::framed(json::json_views(systems@)))).take(16),
        key@.len() == 16,
        text::is_hex(key@),
        keys::all_zero_free(json::json_views(systems@)),
{
    let ghost docs = json::json_views(systems@);
    let mut data: Vec<u8> = Vec::new();
    let mut i: usize = 0;
    while i < systems.len()
        invariant
            i <= systems@.len(),
            docs == json::json_views(systems@),
            data@ == keys::framed(docs.take(i as int)),
            keys::all_zero_free(docs.take(i as int)),
        decreases systems@.len() - i,
    {
        let text = json::to_text(&systems[i]);
        proof {
            let more = docs.take(i + 1);
            assert(more.drop_last() =~= docs.take(i as int));
            assert forall|j: int| 0 <= j < more.len() implies json::zero_free(json::json_text(#[trigger] more[j])) by {
                if j < i {
                    assert(more[j] == docs.take(i as int)[j]);
                }
            }
        }
        keys::frame(&mut data, text);
        i += 1;
    }
    proof {
        assert(docs.take(docs.len() as int) =~= docs);
    }
    let digest = digest::sha256_digest(data.as_slice());
    keys::hex16(digest.as_slice())
}

fn find_report(slots: &Vec<SlotState>, slot: u32) -> (r: Option<SlotState>)
    ensures
        r == report_on(slots@, slot),
{
    let mut i: usize = 0;
    assert(slots@.skip(0) =~= slots@);
    while i < slots.len()
        invariant
            i <= slots@.len(),
            report_on(slots@, slot) == report_on(slots@.skip(i as int), slot),
        decreases slots@.len() - i,
    {
        if slots[i].id == slot {
            return Some(slots[i]);
        }
        assert(slots@.skip(i as int).drop_first() =~= slots@.skip(i + 1));
        i += 1;
    }
    None
}

/// The seed orchestrator: the bag of the families that were seen.
pub struct SeedDance {
    bag: Assoc<BagEntry>,
}

impl View for SeedDance {
    type V = Bag;

    closed spec fn view(&self) -> Bag {
        self.bag@.map_values(|e: BagEntry| e@)
    }
}

/// One dance for one request on one slot.
pub struct Prepare {
    pub slot: u32,
    pub key: String,
    /// The request's system messages.
    pub systems: Value,
    /// What is to be prefilled.
    pub prompt: Value,
    pub stage: SeedStage,
}

impl SeedDance {
    /// A bag that has seen no family.
    pub fn new() -> (r: Self)
        ensures
            r@ == Bag::empty(),
    {
        let r = SeedDance { bag: Assoc::new() };
        assert(r@ =~= Bag::empty());
        r
    }

    /// Recognition key: hash of the `system` messages, in order, as sixteen
    /// hexadecimal digits.
    pub fn system_hash(messages: &Value) -> (r: Option<String>)
        ensures
            match r {
                Some(k) => {
                    &&& family_key(json::json_view(*messages)) == Some(k@)
                    &&& k@.len() == 16
                    &&& text::is_hex(k@)
                    &&& keys::all_zero_free(systems_view(json::json_view(*messages)))
                },
                None => family_key(json::json_view(*messages)) is None,
            },
    {
        let systems = system_messages(messages);
        proof {
            assert(json::json_views(systems@).len() == systems@.len());
        }
        if systems.len() == 0 {
            None
        } else {
            Some(key_of(&systems))
        }
    }

    /// The name that a seeded family is published under.
    pub fn blob_name(key: &str) -> (name: String)
        ensures
            name@ == seed_name_text(key@),
    {
        text::join3("sys-", key, "__seed.bin")
    }

    /// What the bag says of a family.
    pub fn state(&self, key: &str) -> (r: Option<BagState>)
        ensures
            r == bag_state(self@, key@),
    {
        match self.bag.get(key) {
            Some(e) => Some(e.state),
            None => None,
        }
    }

    /// Begin the dance for a request on a slot. Without a system prompt there is
    /// nothing to seed, and it is over at once.
    pub fn prepare(&self, slot: u32, messages: &Value) -> (p: Prepare)
        ensures
            p.slot == slot,
            json::json_view(p.systems) == JsonView::Array(systems_view(json::json_view(*messages))),
            match family_key(json::json_view(*messages)) {
                Some(k) => p.key@ == k && p.stage == SeedStage::Inspect,
                None => p.stage == SeedStage::Done(SeedResult::Skipped),
            },
    {
        let (key, stage) = match Self::system_hash(messages) {
            Some(k) => (k, SeedStage::Inspect),
            None => (String::new(), SeedStage::Done(SeedResult::Skipped)),
        };
        Prepare { slot, key, systems: json::of_elements(system_messages(messages)), prompt: json::null(), stage }
    }

    fn enter(&mut self, key: &str, systems: &Value) -> (prompt: Value)
        requires
            json::elements_view(json::json_view(*systems)) is Some,
        ensures
            final(self)@ == old(self)@.insert(
                key@,
                entry_to_seed(old(self)@, key@, json::elements_view(json::json_view(*systems))->0),
            ),
            json::json_view(prompt) == final(self)@[key@].system,
    {
        let ghost docs = json::elements_view(json::json_view(*systems))->0;
        let ghost wanted = entry_to_seed(self@, key@, docs);
        let (head, state) = match self.bag.get(key) {
            Some(e) => {
                let unset = match json::elements(&e.system) {
                    Some(items) => {
                        let ghost views = json::json_views(items@);
                        let empty = items.len() == 0;
                        proof {
                            assert(views.len() == items@.len());
                            if empty {
                                assert(views =~= Seq::<JsonView>::empty());
                            }
                        }
                        empty
                    },
                    None => false,
                };
                let head = if unset { systems.clone() } else { e.system.clone() };
                let state = if e.state == BagState::Failed { BagState::Uncached } else { e.state };
                (head, state)
            },
            None => (systems.clone(), BagState::Uncached),
        };
        assert(json::json_view(head) == wanted.system);
        assert(state == wanted.state);
        let prompt = head.clone();
        self.bag.insert(key, BagEntry { system: head, state });
        assert(self@ =~= old(self)@.insert(key@, wanted));
        prompt
    }

    fn mark_cached(&mut self, key: &str)
        ensures
            final(self)@ == bag_cached(old(self)@, key@),
    {
        let system = match self.bag.get(key) {
            Some(e) => Some(e.system.clone()),
            None => None,
        };
        if let Some(system) = system {
            self.bag.insert(key, BagEntry { system, state: BagState::Cached });
        }
        assert(self@ =~= bag_cached(old(self)@, key@));
    }

    fn mark_failed(&mut self, key: &str)
        ensures
            final(self)@ == bag_failed(old(self)@, key@),
    {
        let system = match self.bag.get(key) {
            Some(e) => e.system.clone(),
            None => json::null(),
        };
        self.bag.insert(key, BagEntry { system, state: BagState::Failed });
        assert(self@ =~= bag_failed(old(self)@, key@));
    }
}

impl Prepare {
    /// The request's system messages.
    pub open spec fn documents(&self) -> Seq<JsonView> {
        json::elements_view(json::json_view(self.systems))->0
    }

    /// The system messages are an array.
    pub open spec fn wf(&self) -> bool {
        json::elements_view(json::json_view(self.systems)) is Some
    }

    /// What is to be done next.
    pub fn action(&self) -> (a: SeedAction)
        ensures
            match self.stage {
                SeedStage::Inspect => a is ListSlots,
                SeedStage::Restore => a matches SeedAction::Restore(id, n)
                    && id == self.slot && n@ == seed_name_text(self.key@),
                SeedStage::Prefill => a matches SeedAction::Prefill(id, m)
                    && id == self.slot && json::json_view(m) == json::json_view(self.prompt),
                SeedStage::Confirm => a is ListSlots,
                SeedStage::Save => a matches SeedAction::Save(id, f)
                    && id == self.slot && f@ == keys::scratch_name_text(seed_name_text(self.key@)),
                SeedStage::Publish => a matches SeedAction::Publish(f, n)
                    && f@ == keys::scratch_name_text(seed_name_text(self.key@))
                    && n@ == seed_name_text(self.key@),
                SeedStage::Done(r) => a == SeedAction::Finished(r),
            },
    {
        let name = SeedDance::blob_name(self.key.as_str());
        match self.stage {
            SeedStage::Inspect => SeedAction::ListSlots,
            SeedStage::Restore => SeedAction::Restore(self.slot, name),
            SeedStage::Prefill => SeedAction::Prefill(self.slot, self.prompt.clone()),
            SeedStage::Confirm => SeedAction::ListSlots,
            SeedStage::Save => SeedAction::Save(self.slot, keys::scratch_name(name.as_str())),
            SeedStage::Publish => SeedAction::Publish(keys::scratch_name(name.as_str()), name),
            SeedStage::Done(r) => SeedAction::Finished(r),
        }
    }

    /// Go on with what came of the last step.
    pub fn resume(&mut self, event: SeedEvent, dance: &mut SeedDance)
        requires
            old(self).wf(),
        ensures
            final(self).wf(),
            final(self).slot == old(self).slot,
            final(self).key == old(self).key,
            final(self).systems == old(self).systems,
            final(self).stage == next_stage(old(self).stage, old(self).slot, bag_state(old(dance)@, old(self).key@), event@),
            final(dance)@ == next_bag(
                old(self).stage,
                old(self).slot,
                old(self).key@,
                old(self).documents(),
                old(dance)@,
                event@,
            ),
            if old(self).stage is Inspect && final(self).stage is Prefill {
                json::json_view(final(self).prompt) == final(dance)@[old(self).key@].system
            } else {
                final(self).prompt == old(self).prompt
            },
    {
        match (self.stage, event) {
            (SeedStage::Inspect, SeedEvent::Slots(slots)) => {
                let idle = match &slots {
                    Some(s) => match find_report(s, self.slot) {
                        Some(r) => !r.is_processing,
                        None => false,
                    },
                    None => false,
                };
                if !idle {
                    self.stage = SeedStage::Done(SeedResult::Skipped);
                } else if dance.state(self.key.as_str()) == Some(BagState::Cached) {
                    self.stage = SeedStage::Restore;
                } else {
                    self.prompt = dance.enter(self.key.as_str(), &self.systems);
                    self.stage = SeedStage::Prefill;
                }
            },
            (SeedStage::Restore, SeedEvent::Outcome(ok)) => {
                self.stage = SeedStage::Done(if ok { SeedResult::Restored } else { SeedResult::ColdPrefill });
            },
            (SeedStage::Prefill, SeedEvent::Outcome(ok)) => {
                if ok {
                    self.stage = SeedStage::Confirm;
                } else {
                    dance.mark_failed(self.key.as_str());
                    self.stage = SeedStage::Done(SeedResult::Failed);
                }
            },
            (SeedStage::Confirm, SeedEvent::Slots(slots)) => {
                let landed = match &slots {
                    Some(s) => match find_report(s, self.slot) {
                        Some(r) => !r.is_processing && r.n_tokens > 0,
                        None => false,
                    },
                    None => false,
                };
                if landed {
                    self.stage = SeedStage::Save;
                } else {
                    dance.mark_failed(self.key.as_str());
                    self.stage = SeedStage::Done(SeedResult::Failed);
                }
            },
            (SeedStage::Save, SeedEvent::Outcome(ok)) => {
                if ok {
                    self.stage = SeedStage::Publish;
                } else {
                    dance.mark_failed(self.key.as_str());
                    self.stage = SeedStage::Done(SeedResult::Failed);
                }
            },
            (SeedStage::Publish, SeedEvent::Outcome(ok)) => {
                if ok {
                    dance.mark_cached(self.key.as_str());
                    self.stage = SeedStage::Done(SeedResult::Seeded);
                } else {
                    dance.mark_failed(self.key.as_str());
                    self.stage = SeedStage::Done(SeedResult::Failed);
                }
            },
            _ => {},
        }
    }
}

/// The stages of a dance on a slot, with what the bag said at each step and what
/// came of it. In between, other dances may have changed the bag.
pub open spec fn seed_run(slot: u32, stages: Seq<SeedStage>, states: Seq<Option<BagState>>, events: Seq<SeedEventView>) -> bool {
    &&& stages.len() == events.len() + 1
    &&& states.len() == events.len()
    &&& stages[0] == SeedStage::Inspect
    &&& forall|i: int| 0 <= i < events.len() ==> #[trigger] stages[i + 1] == next_stage(stages[i], slot, states[i], events[i])
}

/// The prefill went well at a step.
pub open spec fn prefilled_at(stages: Seq<SeedStage>, events: Seq<SeedEventView>, i: int) -> bool {
    0 <= i < events.len() && stages[i] is Prefill && events[i] == SeedEventView::Outcome(true)
}

/// The backend reported the slot idle at a position past zero at a step.
pub open spec fn confirmed_at(slot: u32, stages: Seq<SeedStage>, events: Seq<SeedEventView>, i: int) -> bool {
    0 <= i < events.len() && stages[i] is Confirm && (events[i] matches SeedEventView::Slots(s) && position_confirmed(s, slot))
}

/// The backend reported the slot idle at the first step.
pub open spec fn idle_at(slot: u32, stages: Seq<SeedStage>, events: Seq<SeedEventView>, i: int) -> bool {
    0 <= i < events.len() && stages[i] is Inspect && (events[i] matches SeedEventView::Slots(s) && reported_idle(s, slot))
}

proof fn lemma_idle(slot: u32, stages: Seq<SeedStage>, states: Seq<Option<BagState>>, events: Seq<SeedEventView>, k: int)
    requires
        seed_run(slot, stages, states, events),
        0 <= k < stages.len(),
        !(stages[k] is Inspect),
        stages[k] != SeedStage::Done(SeedResult::Skipped),
    ensures
        exists|i: int| i < k && idle_at(slot, stages, events, i),
    decreases k,
{
    assert(k > 0);
    assert(stages[(k - 1) + 1] == next_stage(stages[k - 1], slot, states[k - 1], events[k - 1]));
    if stages[k - 1] is Inspect {
        assert(idle_at(slot, stages, events, k - 1));
    } else {
        lemma_idle(slot, stages, states, events, k - 1);
    }
}

proof fn lemma_prefilled(slot: u32, stages: Seq<SeedStage>, states: Seq<Option<BagState>>, events: Seq<SeedEventView>, k: int)
    requires
        seed_run(slot, stages, states, events),
        0 <= k < stages.len(),
        stages[k] is Confirm,
    ensures
        exists|i: int| i < k && prefilled_at(stages, events, i),
    decreases k,
{
    assert(k > 0);
    assert(stages[(k - 1) + 1] == next_stage(stages[k - 1], slot, states[k - 1], events[k - 1]));
    if stages[k - 1] is Prefill {
        assert(prefilled_at(stages, events, k - 1));
    } else {
        lemma_prefilled(slot, stages, states, events, k - 1);
    }
}

/// A miss prefills strictly before it saves, and it never saves an unconfirmed
/// position: before a save is asked for, a prefill went well, and after that the
/// backend reported the slot idle at a position past zero.
pub proof fn law_prefill_and_confirm_before_save(
    slot: u32,
    stages: Seq<SeedStage>,
    states: Seq<Option<BagState>>,
    events: Seq<SeedEventView>,
    k: int,
)
    requires
        seed_run(slot, stages, states, events),
        0 <= k < stages.len(),
        stages[k] is Save || stages[k] is Publish || stages[k] == SeedStage::Done(SeedResult::Seeded),
    ensures
        exists|i: int, j: int|
            i < j < k && #[trigger] prefilled_at(stages, events, i) && #[trigger] confirmed_at(slot, stages, events, j),
    decreases k,
{
    assert(k > 0);
    assert(stages[(k - 1) + 1] == next_stage(stages[k - 1], slot, states[k - 1], events[k - 1]));
    if stages[k - 1] is Confirm {
        lemma_prefilled(slot, stages, states, events, k - 1);
        let i = choose|i: int| i < k - 1 && prefilled_at(stages, events, i);
        assert(prefilled_at(stages, events, i));
        assert(confirmed_at(slot, stages, events, k - 1));
    } else {
        law_prefill_and_confirm_before_save(slot, stages, states, events, k - 1);
        let (i, j) = choose|i: int, j: int|
            i < j < k - 1 && #[trigger] prefilled_at(stages, events, i) && #[trigger] confirmed_at(slot, stages, events, j);
        assert(prefilled_at(stages, events, i) && confirmed_at(slot, stages, events, j));
    }
}

/// Nothing is ever asked of a processing slot: before a restore or a prefill is
/// asked for, the backend reported the slot as idle (and a save is confirmed
/// once more).
pub proof fn law_never_onto_a_processing_slot(
    slot: u32,
    stages: Seq<SeedStage>,
    states: Seq<Option<BagState>>,
    events: Seq<SeedEventView>,
    k: int,
)
    requires
        seed_run(slot, stages, states, events),
        0 <= k < stages.len(),
        stages[k] is Restore || stages[k] is Prefill || stages[k] is Save,
    ensures
        exists|i: int| i < k && idle_at(slot, stages, events, i),
        stages[k] is Save ==> exists|j: int| j < k && confirmed_at(slot, stages, events, j),
{
    lemma_idle(slot, stages, states, events, k);
    if stages[k] is Save {
        law_prefill_and_confirm_before_save(slot, stages, states, events, k);
        let (i, j) = choose|i: int, j: int|
            i < j < k && #[trigger] prefilled_at(stages, events, i) && #[trigger] confirmed_at(slot, stages, events, j);
        assert(confirmed_at(slot, stages, events, j));
    }
}

/// A second sight never prefills, and never saves: where the bag says `Cached`
/// when the slots are looked at, the dance only restores, or does nothing.
pub proof fn law_second_sight_never_prefills(
    slot: u32,
    stages: Seq<SeedStage>,
    states: Seq<Option<BagState>>,
    events: Seq<SeedEventView>,
    k: int,
)
    requires
        seed_run(slot, stages, states, events),
        forall|i: int| 0 <= i < events.len() && (#[trigger] stages[i]) is Inspect ==> states[i] == Some(BagState::Cached),
        0 <= k < stages.len(),
    ensures
        stages[k] is Inspect || stages[k] is Restore || stages[k] == SeedStage::Done(SeedResult::Restored)
            || stages[k] == SeedStage::Done(SeedResult::ColdPrefill) || stages[k] == SeedStage::Done(SeedResult::Skipped),
    decreases k,
{
    if k > 0 {
        law_second_sight_never_prefills(slot, stages, states, events, k - 1);
        assert(stages[(k - 1) + 1] == next_stage(stages[k - 1], slot, states[k - 1], events[k - 1]));
    }
}

/// A seed that fails never leaves the family cached, and the next sight of it on
/// an idle slot runs the dance again.
pub proof fn law_failed_seed_is_retried(
    stage: SeedStage,
    slot: u32,
    key: Seq<char>,
    systems: Seq<JsonView>,
    bag: Bag,
    event: SeedEventView,
    again: u32,
    slots: Option<Seq<SlotState>>,
)
    requires
        !(stage is Done),
        next_stage(stage, slot, bag_state(bag, key), event) == SeedStage::Done(SeedResult::Failed),
        reported_idle(slots, again),
    ensures
        ({
            let after = next_bag(stage, slot, key, systems, bag, event);
            let sight = SeedEventView::Slots(slots);
            &&& bag_state(after, key) == Some(BagState::Failed)
            &&& next_stage(SeedStage::Inspect, again, bag_state(after, key), sight) is Prefill
            &&& bag_state(next_bag(SeedStage::Inspect, again, key, systems, after, sight), key) == Some(BagState::Uncached)
        }),
{
}

/// A family that was seeded is restored at the next sight of it on an idle slot.
pub proof fn law_seeded_family_is_restored(
    slot: u32,
    key: Seq<char>,
    systems: Seq<JsonView>,
    bag: Bag,
    again: u32,
    slots: Option<Seq<SlotState>>,
)
    requires
        bag.contains_key(key),
        reported_idle(slots, again),
    ensures
        ({
            let after = next_bag(SeedStage::Publish, slot, key, systems, bag, SeedEventView::Outcome(true));
            &&& bag_state(after, key) == Some(BagState::Cached)
            &&& next_stage(SeedStage::Inspect, again, bag_state(after, key), SeedEventView::Slots(slots)) is Restore
        }),
{
}

/// A family becomes cached only by a publish that went well; a step of its dance
/// leaves every other family as it was.
pub proof fn law_cached_only_by_publish(
    stage: SeedStage,
    slot: u32,
    key: Seq<char>,
    systems: Seq<JsonView>,
    bag: Bag,
    event: SeedEventView,
    other: Seq<char>,
)
    ensures
        bag_state(next_bag(stage, slot, key, systems, bag, event), key) == Some(BagState::Cached) && bag_state(bag, key)
            != Some(BagState::Cached) ==> stage is Publish && event == SeedEventView::Outcome(true),
        other != key ==> bag_state(next_bag(stage, slot, key, systems, bag, event), other) == bag_state(bag, other),
{
}

/// One step of any dance: where it stood, its slot, its family, its request's
/// system messages, and what came of what it asked for.
pub struct DanceStep {
    pub stage: SeedStage,
    pub slot: u32,
    pub key: Seq<char>,
    pub systems: Seq<JsonView>,
    pub event: SeedEventView,
}

/// The bag before and after every step, from the empty one on, whatever dances
/// run side by side.
pub open spec fn bag_history(bags: Seq<Bag>, steps: Seq<DanceStep>) -> bool {
    &&& bags.len() == steps.len() + 1
    &&& bags[0] == Bag::empty()
    &&& forall|i: int|
        0 <= i < steps.len() ==> bags[i + 1] == next_bag(
            (#[trigger] steps[i]).stage,
            steps[i].slot,
            steps[i].key,
            steps[i].systems,
            bags[i],
            steps[i].event,
        )
}

/// Whether a step is a publish of a family that went well.
pub open spec fn publishes_family(step: DanceStep, key: Seq<char>) -> bool {
    step.key == key && step.stage is Publish && step.event == SeedEventView::Outcome(true)
}

/// A family is cached only if it was published: whatever dances ran side by side,
/// the bag says `Cached` only after a publish of the family's blob went well.
pub proof fn law_cached_family_was_published(bags: Seq<Bag>, steps: Seq<DanceStep>, k: int, key: Seq<char>)
    requires
        bag_history(bags, steps),
        0 <= k < bags.len(),
        bag_state(bags[k], key) == Some(BagState::Cached),
    ensures
        exists|j: int| 0 <= j < k && publishes_family(#[trigger] steps[j], key),
    decreases k,
{
    assert(k > 0);
    let s = steps[k - 1];
    assert(bags[k - 1 + 1] == next_bag(s.stage, s.slot, s.key, s.systems, bags[k - 1], s.event));
    law_cached_only_by_publish(s.stage, s.slot, s.key, s.systems, bags[k - 1], s.event, key);
    if bag_state(bags[k - 1], key) == Some(BagState::Cached) {
        law_cached_family_was_published(bags, steps, k - 1, key);
    } else {
        assert(publishes_family(s, key));
    }
}

/// Two requests are of one family only if their system messages are the same,
/// text by text and in the same order, unless the shortened digest collides on
/// them; what else they hold does not matter.
pub proof fn law_family_is_its_system_messages(a: JsonView, b: JsonView)
    requires
        systems_view(a).len() > 0,
        systems_view(b).len() > 0,
        keys::all_zero_free(systems_view(a)),
        keys::all_zero_free(systems_view(b)),
        keys::no_collision(keys::framed(systems_view(a)), keys::framed(systems_view(b))),
    ensures
        family_key(a) == family_key(b) <==> keys::texts_of(systems_view(a)) == keys::texts_of(systems_view(b)),
{
    keys::law_framing_tells_messages_apart(systems_view(a), systems_view(b));
}

/// A seeded family's blob never has the name of a session's.
pub proof fn law_seed_is_apart_from_sessions(key: Seq<char>, header: Option<Seq<char>>, body: JsonView, sig: Seq<char>)
    ensures
        seed_name_text(key) != keys::blob_name_text(keys::session_key_text(header, body), sig),
{
    reveal_strlit("sys-");
    reveal_strlit("hdr-");
    reveal_strlit("conv-");
    let session = keys::session_key_text(header, body);
    assert(session.len() > 0 && (session[0] == 'h' || session[0] == 'c'));
    assert(keys::blob_name_text(session, sig)[0] == session[0]);
    assert(seed_name_text(key)[0] == 's');
}

/// A seeded family's blob counts as a blob, and its scratch file does not.
pub proof fn law_seed_is_a_blob_file(key: Seq<char>)
    ensures
        evict::blob_file_name(seed_name_text(key)),
        !evict::blob_file_name(keys::scratch_name_text(seed_name_text(key))),
{
    reveal_strlit("sys-");
    reveal_strlit("__seed.bin");
    let n = seed_name_text(key);
    assert(n.skip(n.len() - 4) =~= seq!['.', 'b', 'i', 'n']);
    keys::law_scratch_is_no_blob(n);
}

/// Whose message it is decides: a message counts for the family if and only if it
/// is an object whose `role` is the string `system`.
pub proof fn law_role_decides(message: JsonView)
    ensures
        is_system(message) <==> (message matches JsonView::Object(m) && m.contains_key("role"@) && m["role"@]
            == JsonView::Text("system"@)),
{
}

proof fn lemma_messages(a: JsonView, members: Map<Seq<char>, JsonView>, list: Seq<JsonView>)
    requires
        a == JsonView::Object(members.insert("messages"@, JsonView::Array(list))),
    ensures
        keys::messages_view(a) == Some(list),
{
}

/// A message of any other role counts for nothing, wherever it stands: with or
/// without it the request is of the same family, and the same prompt head is
/// prefilled. So the turns of a conversation are of one family, whatever the user
/// and the assistant say and whatever else the requests hold.
pub proof fn law_other_roles_do_not_matter(
    a: Map<Seq<char>, JsonView>,
    b: Map<Seq<char>, JsonView>,
    before: Seq<JsonView>,
    message: JsonView,
    after: Seq<JsonView>,
)
    requires
        !(message matches JsonView::Object(m) && m.contains_key("role"@) && m["role"@] == JsonView::Text("system"@)),
    ensures
        ({
            let with = JsonView::Object(a.insert("messages"@, JsonView::Array(before + seq![message] + after)));
            let without = JsonView::Object(b.insert("messages"@, JsonView::Array(before + after)));
            family_key(with) == family_key(without) && systems_view(with) == systems_view(without)
        }),
{
    let p = |d: JsonView| is_system(d);
    lemma_filter_around(before, message, after);
    Seq::filter_distributes_over_add(before, after, p);
    let with = JsonView::Object(a.insert("messages"@, JsonView::Array(before + seq![message] + after)));
    let without = JsonView::Object(b.insert("messages"@, JsonView::Array(before + after)));
    lemma_messages(with, a, before + seq![message] + after);
    lemma_messages(without, b, before + after);
    assert(systems_view(with) =~= systems_view(without));
}

proof fn lemma_filter_around(before: Seq<JsonView>, message: JsonView, after: Seq<JsonView>)
    ensures
        (before + seq![message] + after).filter(|d: JsonView| is_system(d)) == before.filter(|d: JsonView| is_system(d)) + (
        if is_system(message) {
            seq![message]
        } else {
            Seq::empty()
        }) + after.filter(|d: JsonView| is_system(d)),
{
    let p = |d: JsonView| is_system(d);
    Seq::filter_distributes_over_add(before + seq![message], after, p);
    Seq::filter_distributes_over_add(before, seq![message], p);
    reveal_with_fuel(Seq::filter, 2);
    assert(seq![message].drop_last() =~= Seq::<JsonView>::empty());
    assert(seq![message].filter(p) =~= if is_system(message) { seq![message] } else { Seq::empty() });
}

/// A system message counts, wherever it stands: it is among the family's messages
/// at its place, and the request has a family.
pub proof fn law_system_message_counts(
    a: Map<Seq<char>, JsonView>,
    before: Seq<JsonView>,
    members: Map<Seq<char>, JsonView>,
    after: Seq<JsonView>,
)
    ensures
        ({
            let message = JsonView::Object(members.insert("role"@, JsonView::Text("system"@)));
            let whole = JsonView::Object(a.insert("messages"@, JsonView::Array(before + seq![message] + after)));
            let head = JsonView::Object(a.insert("messages"@, JsonView::Array(before)));
            let tail = JsonView::Object(a.insert("messages"@, JsonView::Array(after)));
            &&& systems_view(whole) == systems_view(head) + seq![message] + systems_view(tail)
            &&& family_key(whole) == Some(
                text::hex_text(
                    digest::sha256(keys::framed(systems_view(head) + seq![message] + systems_view(tail))),
                ).take(16),
            )
        }),
{
    let message = JsonView::Object(members.insert("role"@, JsonView::Text("system"@)));
    lemma_filter_around(before, message, after);
    let whole = JsonView::Object(a.insert("messages"@, JsonView::Array(before + seq![message] + after)));
    lemma_messages(whole, a, before + seq![message] + after);
    lemma_messages(JsonView::Object(a.insert("messages"@, JsonView::Array(before))), a, before);
    lemma_messages(JsonView::Object(a.insert("messages"@, JsonView::Array(after))), a, after);
    assert(is_system(message));
    assert(systems_view(whole).len() > 0);
}

/// A request without a system message has no family: none of its messages is an
/// object whose `role` is the string `system`, or it has no array of messages.
pub proof fn law_no_family_without_a_system_message(request: JsonView)
    requires
        request matches JsonView::Object(r) ==> (r.contains_key("messages"@) ==> (r["messages"@] matches JsonView::Array(list)
            ==> (forall|i: int| #![trigger list[i]]
            0 <= i < list.len() ==> !(list[i] matches JsonView::Object(m) && m.contains_key("role"@) && m["role"@]
                == JsonView::Text("system"@))))),
    ensures
        family_key(request) is None,
{
    if let Some(list) = keys::messages_view(request) {
        assert forall|i: int| 0 <= i < list.len() implies !is_system(#[trigger] list[i]) by {}
        lemma_nothing_to_keep(list);
    }
}

proof fn lemma_nothing_to_keep(list: Seq<JsonView>)
    requires
        forall|i: int| 0 <= i < list.len() ==> !is_system(#[trigger] list[i]),
    ensures
        list.filter(|d: JsonView| is_system(d)).len() == 0,
    decreases list.len(),
{
    reveal(Seq::filter);
    if list.len() > 0 {
        assert(!is_system(list[list.len() - 1]));
        assert forall|i: int| 0 <= i < list.drop_last().len() implies !is_system(#[trigger] list.drop_last()[i]) by {
            assert(list[i] == list.drop_last()[i]);
        }
        lemma_nothing_to_keep(list.drop_last());
    }
}

proof fn lemma_first_report(slots: Seq<SlotState>, slot: u32, k: int)
    requires
        0 <= k < slots.len(),
        slots[k].id == slot,
        forall|j: int| 0 <= j < k ==> (#[trigger] slots[j]).id != slot,
    ensures
        report_on(slots, slot) == Some(slots[k]),
    decreases slots.len(),
{
    if k > 0 {
        assert(slots[0].id != slot);
        let rest = slots.drop_first();
        assert forall|j: int| 0 <= j < k - 1 implies (#[trigger] rest[j]).id != slot by {
            assert(rest[j] == slots[j + 1]);
        }
        lemma_first_report(rest, slot, k - 1);
    }
}

proof fn lemma_no_report(slots: Seq<SlotState>, slot: u32)
    requires
        forall|j: int| 0 <= j < slots.len() ==> (#[trigger] slots[j]).id != slot,
    ensures
        report_on(slots, slot) is None,
    decreases slots.len(),
{
    if slots.len() > 0 {
        assert(slots[0].id != slot);
        let rest = slots.drop_first();
        assert forall|j: int| 0 <= j < rest.len() implies (#[trigger] rest[j]).id != slot by {
            assert(rest[j] == slots[j + 1]);
        }
        lemma_no_report(rest, slot);
    }
}

/// The first report on a slot decides: the slot is idle if it does not say that
/// it is processing, and its position is confirmed if moreover it is past zero.
pub proof fn law_first_report_decides(slots: Seq<SlotState>, slot: u32, k: int)
    requires
        0 <= k < slots.len(),
        slots[k].id == slot,
        forall|j: int| 0 <= j < k ==> (#[trigger] slots[j]).id != slot,
    ensures
        reported_idle(Some(slots), slot) <==> !slots[k].is_processing,
        position_confirmed(Some(slots), slot) <==> !slots[k].is_processing && slots[k].n_tokens > 0,
{
    lemma_first_report(slots, slot, k);
}

/// A slot that the backend does not report is not idle, nor is any slot of a
/// backend that could not be asked.
pub proof fn law_unreported_slot_is_not_idle(slots: Seq<SlotState>, slot: u32)
    requires
        forall|j: int| 0 <= j < slots.len() ==> (#[trigger] slots[j]).id != slot,
    ensures
        !reported_idle(Some(slots), slot),
        !position_confirmed(Some(slots), slot),
        !reported_idle(None, slot),
        !position_confirmed(None, slot),
{
    lemma_no_report(slots, slot);
}

/// How a dance begins: on a slot that is not reported idle nothing is done; on an
/// idle one a cached family is restored, and any other is prefilled.
pub proof fn law_sight_decides(slot: u32, state: Option<BagState>, slots: Option<Seq<SlotState>>)
    ensures
        ({
            let next = next_stage(SeedStage::Inspect, slot, state, SeedEventView::Slots(slots));
            &&& !reported_idle(slots, slot) ==> next == SeedStage::Done(SeedResult::Skipped)
            &&& reported_idle(slots, slot) && state == Some(BagState::Cached) ==> next == SeedStage::Restore
            &&& reported_idle(slots, slot) && state != Some(BagState::Cached) ==> next == SeedStage::Prefill
        }),
{
}

/// A dance whose every step goes well runs to its end: prefill, confirm, save,
/// publish, seeded; and a restore that goes well ends restored.
pub proof fn law_good_steps_lead_to_the_end(slot: u32, state: Option<BagState>, slots: Option<Seq<SlotState>>)
    requires
        position_confirmed(slots, slot),
    ensures
        next_stage(SeedStage::Prefill, slot, state, SeedEventView::Outcome(true)) == SeedStage::Confirm,
        next_stage(SeedStage::Confirm, slot, state, SeedEventView::Slots(slots)) == SeedStage::Save,
        next_stage(SeedStage::Save, slot, state, SeedEventView::Outcome(true)) == SeedStage::Publish,
        next_stage(SeedStage::Publish, slot, state, SeedEventView::Outcome(true)) == SeedStage::Done(SeedResult::Seeded),
        next_stage(SeedStage::Restore, slot, state, SeedEventView::Outcome(true)) == SeedStage::Done(SeedResult::Restored),
{
}

/// A step that fails ends the dance: a seed has failed, and a blob that could not
/// be restored means a cold prefill.
pub proof fn law_failed_step_ends_the_dance(
    stage: SeedStage,
    slot: u32,
    state: Option<BagState>,
    slots: Option<Seq<SlotState>>,
)
    requires
        !position_confirmed(slots, slot),
    ensures
        stage == SeedStage::Prefill || stage == SeedStage::Save || stage == SeedStage::Publish ==> next_stage(
            stage,
            slot,
            state,
            SeedEventView::Outcome(false),
        ) == SeedStage::Done(SeedResult::Failed),
        next_stage(SeedStage::Confirm, slot, state, SeedEventView::Slots(slots)) == SeedStage::Done(SeedResult::Failed),
        next_stage(SeedStage::Restore, slot, state, SeedEventView::Outcome(false)) == SeedStage::Done(
            SeedResult::ColdPrefill,
        ),
{
}

/// An answer to a question that was not asked changes nothing, and a dance that
/// is over stays over.
pub proof fn law_stray_events_change_nothing(
    stage: SeedStage,
    slot: u32,
    key: Seq<char>,
    systems: Seq<JsonView>,
    bag: Bag,
    event: SeedEventView,
)
    requires
        stage is Done || (stage is Inspect || stage is Confirm) != (event is Slots),
    ensures
        next_stage(stage, slot, bag_state(bag, key), event) == stage,
        next_bag(stage, slot, key, systems, bag, event) == bag,
{
}

/// On first sight of a family the bag takes the request's system messages as its
/// prompt head, and says that it is not cached yet.
pub proof fn law_first_sight_takes_the_prompt_head(
    slot: u32,
    key: Seq<char>,
    systems: Seq<JsonView>,
    bag: Bag,
    slots: Option<Seq<SlotState>>,
)
    requires
        reported_idle(slots, slot),
        !bag.contains_key(key),
    ensures
        ({
            let after = next_bag(SeedStage::Inspect, slot, key, systems, bag, SeedEventView::Slots(slots));
            &&& after.contains_key(key)
            &&& after[key].system == JsonView::Array(systems)
            &&& after[key].state == BagState::Uncached
        }),
{
}

/// A family that the bag knows by a prompt head keeps it through every step of
/// any dance, and every other family keeps its whole entry.
pub proof fn law_prompt_head_is_kept(
    stage: SeedStage,
    slot: u32,
    key: Seq<char>,
    systems: Seq<JsonView>,
    bag: Bag,
    event: SeedEventView,
    other: Seq<char>,
)
    ensures
        ({
            let after = next_bag(stage, slot, key, systems, bag, event);
            &&& bag.contains_key(key) && bag[key].system != JsonView::Array(Seq::empty()) ==> after.contains_key(key)
                && after[key].system == bag[key].system
            &&& other != key ==> after.contains_key(other) == bag.contains_key(other) && (bag.contains_key(other)
                ==> after[other] == bag[other])
        }),
{
}

/// What the bag says once a dance of a family is over: cached if it was seeded,
/// failed if it failed, and what it said before otherwise.
pub proof fn law_bag_tells_how_the_dance_ended(
    stage: SeedStage,
    slot: u32,
    key: Seq<char>,
    systems: Seq<JsonView>,
    bag: Bag,
    event: SeedEventView,
)
    requires
        !(stage is Done),
        bag.contains_key(key),
    ensures
        ({
            let next = next_stage(stage, slot, bag_state(bag, key), event);
            let after = next_bag(stage, slot, key, systems, bag, event);
            &&& after.contains_key(key)
            &&& next == SeedStage::Done(SeedResult::Seeded) ==> after[key].state == BagState::Cached
            &&& next == SeedStage::Done(SeedResult::Failed) ==> after[key].state == BagState::Failed
            &&& next == SeedStage::Done(SeedResult::Restored) || next == SeedStage::Done(SeedResult::ColdPrefill) || next
                == SeedStage::Done(SeedResult::Skipped) ==> after[key].state == bag[key].state
        }),
{
}

/// A seeded family's blob is named by its key: `sys-`, the key, and `__seed.bin`.
pub proof fn law_seed_name_is_made_of_the_key(key: Seq<char>)
    ensures
        ({
            let n = seed_name_text(key);
            &&& n.len() == key.len() + 14
            &&& n.take(4) == seq!['s', 'y', 's', '-']
            &&& n.subrange(4, n.len() - 10) == key
            &&& n.skip(n.len() - 10) == seq!['_', '_', 's', 'e', 'e', 'd', '.', 'b', 'i', 'n']
        }),
{
    reveal_strlit("sys-");
    reveal_strlit("__seed.bin");
    let n = seed_name_text(key);
    assert(n.take(4) =~= seq!['s', 'y', 's', '-']);
    assert(n.subrange(4, n.len() - 10) =~= key);
    assert(n.skip(n.len() - 10) =~= seq!['_', '_', 's', 'e', 'e', 'd', '.', 'b', 'i', 'n']);
}

/// What the bag says of a family is the state of its entry, and nothing of a
/// family that has none; an entry is taken as it is.
pub proof fn law_bag_says_what_the_entry_says(bag: Bag, key: Seq<char>, entry: BagEntry)
    ensures
        bag.contains_key(key) ==> bag_state(bag, key) == Some(bag[key].state),
        !bag.contains_key(key) ==> bag_state(bag, key) is None,
        entry@.state == entry.state,
        entry@.system == json::json_view(entry.system),
{
}

/// What came of a step is taken as it was told.
pub proof fn law_event_is_taken_as_told(slots: Vec<SlotState>, ok: bool)
    ensures
        SeedEvent::Slots(Some(slots))@ == SeedEventView::Slots(Some(slots@)),
        SeedEvent::Slots(None)@ == SeedEventView::Slots(None),
        SeedEvent::Outcome(ok)@ == SeedEventView::Outcome(ok),
{
}

} // verus!
