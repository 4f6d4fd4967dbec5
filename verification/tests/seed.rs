//! The seed dance's invariants, asserted on the call sequence of a scripted
//! backend.

use ollm::backend::SlotState;
use ollm::seed::{
    BagState, MemoryPublisher, Publisher, SeedAction, SeedDance, SeedEvent, SeedResult,
};
use serde_json::Value;

/// One recorded backend call, in call order.
#[derive(Debug, Clone, PartialEq)]
enum Call {
    Slots,
    PrefillOnly { slot: u32, n_msgs: usize },
    Save { slot: u32, name: String },
    Restore { slot: u32, name: String },
}

/// A scripted backend: `slots` is its truth, `calls` is the record.
struct FakeBackend {
    slots: Vec<SlotState>,
    calls: Vec<Call>,
    prefill_delta: u64,
    fail_save: bool,
    fail_prefill: bool,
    fail_restore: bool,
    fail_slots: bool,
}

impl FakeBackend {
    fn with_slots(slots: Vec<SlotState>) -> Self {
        Self {
            slots,
            calls: Vec::new(),
            prefill_delta: 0,
            fail_save: false,
            fail_prefill: false,
            fail_restore: false,
            fail_slots: false,
        }
    }

    fn prefill_only(&mut self, slot: u32, messages: &Value) -> bool {
        let n_msgs = messages.as_array().map(|a| a.len()).unwrap_or(0);
        self.calls.push(Call::PrefillOnly { slot, n_msgs });
        if self.fail_prefill {
            return false;
        }
        if let Some(s) = self.slots.iter_mut().find(|s| s.id == slot) {
            s.n_tokens = s.n_tokens.saturating_add(self.prefill_delta);
            s.is_processing = false;
        }
        true
    }
}

/// Run the dance against the scripted backend.
fn prepare(
    dance: &mut SeedDance,
    be: &mut FakeBackend,
    publisher: &mut MemoryPublisher,
    slot: u32,
    request: &Value,
) -> SeedResult {
    let mut p = dance.prepare(slot, request);
    loop {
        let event = match p.action() {
            SeedAction::ListSlots => {
                be.calls.push(Call::Slots);
                SeedEvent::Slots(if be.fail_slots { None } else { Some(be.slots.clone()) })
            }
            SeedAction::Restore(slot, name) => {
                be.calls.push(Call::Restore { slot, name });
                SeedEvent::Outcome(!be.fail_restore)
            }
            SeedAction::Prefill(slot, system) => SeedEvent::Outcome(be.prefill_only(slot, &system)),
            SeedAction::Save(slot, name) => {
                be.calls.push(Call::Save { slot, name });
                SeedEvent::Outcome(!be.fail_save)
            }
            SeedAction::Publish(scratch, name) => {
                SeedEvent::Outcome(publisher.publish(&scratch, &name).is_ok())
            }
            SeedAction::Finished(r) => return r,
        };
        p.resume(event, dance);
    }
}

fn idle_slot(id: u32) -> SlotState {
    SlotState { id, is_processing: false, n_tokens: 0 }
}

fn message(role: &str, content: &str) -> Value {
    let mut m = serde_json::Map::new();
    m.insert("role".to_string(), Value::String(role.to_string()));
    m.insert("content".to_string(), Value::String(content.to_string()));
    Value::Object(m)
}

fn request(messages: Vec<Value>) -> Value {
    let mut r = serde_json::Map::new();
    r.insert("messages".to_string(), Value::Array(messages));
    r.insert("stream".to_string(), Value::Bool(false));
    Value::Object(r)
}

fn sys_req(system: &str, user: &str) -> Value {
    request(vec![message("system", system), message("user", user)])
}

fn key_of(system: &str) -> String {
    SeedDance::system_hash(&sys_req(system, "x")).unwrap()
}

fn first_index(calls: &[Call], v: &Call) -> Option<usize> {
    calls.iter().position(|c| c == v)
}

fn count(calls: &[Call], v: &Call) -> usize {
    calls.iter().filter(|c| *c == v).count()
}

#[test]
fn prefill_strictly_before_save() {
    let mut be = FakeBackend::with_slots(vec![idle_slot(1)]);
    be.prefill_delta = 42;
    let mut pub_ = MemoryPublisher::default();
    let mut dance = SeedDance::new();
    let res = prepare(&mut dance, &mut be, &mut pub_, 1, &sys_req("sys", "hi"));
    assert_eq!(res, SeedResult::Seeded);
    let calls = &be.calls;
    let pf = first_index(calls, &Call::PrefillOnly { slot: 1, n_msgs: 1 }).unwrap();
    let sv = calls.iter().position(|c| matches!(c, Call::Save { slot: 1, .. })).unwrap();
    assert!(pf < sv, "prefill (idx {pf}) must strictly precede save (idx {sv}): {calls:?}");
    let slots_after = calls.iter().filter(|c| *c == &Call::Slots).count();
    assert!(slots_after >= 2, "position must be confirmed after prefill: {calls:?}");
    assert_eq!(sv, calls.len() - 1, "save is the last step: {calls:?}");
}

#[test]
fn never_save_unconfirmed_position() {
    let mut be = FakeBackend::with_slots(vec![idle_slot(1)]);
    be.prefill_delta = 0;
    let mut pub_ = MemoryPublisher::default();
    let mut dance = SeedDance::new();
    let res = prepare(&mut dance, &mut be, &mut pub_, 1, &sys_req("sys", "hi"));
    assert_eq!(res, SeedResult::Failed);
    let calls = &be.calls;
    assert!(
        calls.iter().all(|c| !matches!(c, Call::Save { .. })),
        "no save on unconfirmed position: {calls:?}"
    );
    assert_eq!(dance.state(&key_of("sys")), Some(BagState::Failed));
}

#[test]
fn second_sight_restore_zero_prefill() {
    let mut be = FakeBackend::with_slots(vec![idle_slot(1)]);
    be.prefill_delta = 42;
    let mut pub_ = MemoryPublisher::default();
    let mut dance = SeedDance::new();
    assert_eq!(
        prepare(&mut dance, &mut be, &mut pub_, 1, &sys_req("sys", "a")),
        SeedResult::Seeded
    );
    let before = be.calls.len();
    assert_eq!(
        prepare(&mut dance, &mut be, &mut pub_, 1, &sys_req("sys", "b")),
        SeedResult::Restored
    );
    let delta = &be.calls[before..];
    assert!(
        delta.iter().any(|c| matches!(c, Call::Restore { slot: 1, .. })),
        "second sight must restore: {delta:?}"
    );
    assert_eq!(
        count(delta, &Call::PrefillOnly { slot: 1, n_msgs: 1 }),
        0,
        "second sight must NOT prefill: {delta:?}"
    );
}

#[test]
fn never_restore_onto_processing_slot() {
    let mut be = FakeBackend::with_slots(vec![idle_slot(1)]);
    be.prefill_delta = 42;
    let mut pub_ = MemoryPublisher::default();
    let mut dance = SeedDance::new();
    assert_eq!(
        prepare(&mut dance, &mut be, &mut pub_, 1, &sys_req("sys", "a")),
        SeedResult::Seeded
    );
    be.slots[0].is_processing = true;
    assert_eq!(
        prepare(&mut dance, &mut be, &mut pub_, 1, &sys_req("sys", "b")),
        SeedResult::Skipped
    );
    let calls = &be.calls;
    assert!(
        calls.iter().all(|c| !matches!(c, Call::Restore { .. })),
        "R3: never restore onto a processing slot: {calls:?}"
    );
}

#[test]
fn save_failure_leaves_bag_uncached() {
    let mut be = FakeBackend::with_slots(vec![idle_slot(1)]);
    be.prefill_delta = 42;
    be.fail_save = true;
    let mut pub_ = MemoryPublisher::default();
    let mut dance = SeedDance::new();
    let res = prepare(&mut dance, &mut be, &mut pub_, 1, &sys_req("sys", "hi"));
    assert_eq!(res, SeedResult::Failed);
    let key = key_of("sys");
    assert_ne!(
        dance.state(&key),
        Some(BagState::Cached),
        "bag must not be cached after a failed save"
    );
    assert!(pub_.files.is_empty(), "no blob may be published on failure");
}

#[test]
fn failed_seed_retries_next_sight() {
    let mut be = FakeBackend::with_slots(vec![idle_slot(1)]);
    be.prefill_delta = 42;
    be.fail_save = true;
    let mut pub_ = MemoryPublisher::default();
    let mut dance = SeedDance::new();
    assert_eq!(
        prepare(&mut dance, &mut be, &mut pub_, 1, &sys_req("sys", "a")),
        SeedResult::Failed
    );
    be.fail_save = false;
    assert_eq!(
        prepare(&mut dance, &mut be, &mut pub_, 1, &sys_req("sys", "b")),
        SeedResult::Seeded
    );
    assert_eq!(dance.state(&key_of("sys")), Some(BagState::Cached));
}

#[test]
fn no_system_prompt_is_skipped() {
    let mut be = FakeBackend::with_slots(vec![idle_slot(1)]);
    let mut pub_ = MemoryPublisher::default();
    let mut dance = SeedDance::new();
    let mut req = serde_json::Map::new();
    req.insert("messages".to_string(), Value::Array(vec![message("user", "hi")]));
    let req = Value::Object(req);
    assert_eq!(prepare(&mut dance, &mut be, &mut pub_, 1, &req), SeedResult::Skipped);
    let calls = &be.calls;
    assert!(
        calls.iter().all(|c| !matches!(c, Call::PrefillOnly { .. } | Call::Save { .. })),
        "no system prompt => no prefill/save: {calls:?}"
    );
}

#[test]
fn system_hash_is_the_digest_of_the_system_messages() {
    assert_eq!(key_of("sys"), "6ee8e27b8ccfffb1");
    let two = request(vec![message("system", "a"), message("user", "x"), message("system", "b")]);
    assert_eq!(SeedDance::system_hash(&two), Some("8273549323fd5f98".to_string()));
    assert_eq!(SeedDance::system_hash(&request(vec![message("user", "x")])), None);
    assert_eq!(SeedDance::system_hash(&Value::Null), None);
    assert_eq!(SeedDance::system_hash(&sys_req("sys", "a")), SeedDance::system_hash(&sys_req("sys", "b")));
}

#[test]
fn a_seeded_family_is_published_under_its_name() {
    let mut be = FakeBackend::with_slots(vec![idle_slot(0), idle_slot(1)]);
    be.prefill_delta = 7;
    let mut pub_ = MemoryPublisher::default();
    let mut dance = SeedDance::new();
    assert_eq!(dance.state(&key_of("sys")), None);
    assert_eq!(prepare(&mut dance, &mut be, &mut pub_, 1, &sys_req("sys", "hi")), SeedResult::Seeded);
    let name = format!("sys-{}__seed.bin", key_of("sys"));
    assert_eq!(SeedDance::blob_name(&key_of("sys")), name);
    assert_eq!(pub_.publish_calls, vec![(format!("{name}.save"), name.clone())]);
    assert_eq!(pub_.files.get(&name), Some(&format!("{name}.save")));
    assert_eq!(be.calls[3], Call::Save { slot: 1, name: format!("{name}.save") });
    assert_eq!(prepare(&mut dance, &mut be, &mut pub_, 0, &sys_req("sys", "hi")), SeedResult::Restored);
    assert_eq!(be.calls[5], Call::Restore { slot: 0, name });
}

#[test]
fn an_evicted_seed_is_a_cold_prefill() {
    let mut be = FakeBackend::with_slots(vec![idle_slot(1)]);
    be.prefill_delta = 42;
    let mut pub_ = MemoryPublisher::default();
    let mut dance = SeedDance::new();
    prepare(&mut dance, &mut be, &mut pub_, 1, &sys_req("sys", "a"));
    be.fail_restore = true;
    assert_eq!(prepare(&mut dance, &mut be, &mut pub_, 1, &sys_req("sys", "b")), SeedResult::ColdPrefill);
    assert_eq!(dance.state(&key_of("sys")), Some(BagState::Cached));
}

#[test]
fn unknown_slot_and_silent_backend_are_skipped() {
    let mut be = FakeBackend::with_slots(vec![idle_slot(1)]);
    let mut pub_ = MemoryPublisher::default();
    let mut dance = SeedDance::new();
    assert_eq!(prepare(&mut dance, &mut be, &mut pub_, 9, &sys_req("sys", "a")), SeedResult::Skipped);
    be.fail_slots = true;
    assert_eq!(prepare(&mut dance, &mut be, &mut pub_, 1, &sys_req("sys", "a")), SeedResult::Skipped);
    assert_eq!(dance.state(&key_of("sys")), None);
    assert_eq!(be.calls, vec![Call::Slots, Call::Slots]);
}

#[test]
fn failed_prefill_and_failed_publish_leave_failed() {
    let mut be = FakeBackend::with_slots(vec![idle_slot(1)]);
    be.prefill_delta = 42;
    be.fail_prefill = true;
    let mut pub_ = MemoryPublisher::default();
    let mut dance = SeedDance::new();
    assert_eq!(prepare(&mut dance, &mut be, &mut pub_, 1, &sys_req("sys", "a")), SeedResult::Failed);
    assert_eq!(be.calls.len(), 2);
    be.fail_prefill = false;
    pub_.fail = true;
    assert_eq!(prepare(&mut dance, &mut be, &mut pub_, 1, &sys_req("sys", "a")), SeedResult::Failed);
    assert_eq!(dance.state(&key_of("sys")), Some(BagState::Failed));
    assert!(pub_.publish_calls.is_empty());
    assert_eq!(
        pub_.publish("a.save", "a"),
        Err("simulated publish failure (a.save)".to_string())
    );
}
