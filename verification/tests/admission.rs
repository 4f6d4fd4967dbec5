//! The slot registry, admission, and the write lock.

use ollm::admission::{Admission, AdmitAction, AdmitEvent, AdmitStage};
use ollm::backend::SlotState;
use ollm::lock::LockMode;
use ollm::publish::SlotSave;
use ollm::registry::SlotRegistry;

const SIG: &str = "0123456789ab";

fn idle(id: u32) -> SlotState {
    SlotState { id, is_processing: false, n_tokens: 0 }
}

fn busy(id: u32) -> SlotState {
    SlotState { id, is_processing: true, n_tokens: 0 }
}

fn owner(reg: &SlotRegistry, id: u32) -> Option<String> {
    reg.slot(id).and_then(|s| s.session.clone())
}

#[test]
fn registry_tracks_owner_and_dirt() {
    let mut reg = SlotRegistry::new();
    assert!(reg.slot(1).is_none());
    assert_eq!(reg.hot_slot("hdr-a"), None);
    reg.mark_clean(1);
    reg.release(1, "hdr-a");
    reg.mark_published(1, "hdr-a");
    assert!(reg.slot(1).is_none());
    reg.mark_dirty(1, "hdr-a");
    assert_eq!(reg.hot_slot("hdr-a"), Some(1));
    assert!(reg.slot(1).unwrap().dirty);
    reg.mark_clean(1);
    assert!(!reg.slot(1).unwrap().dirty);
    assert_eq!(reg.hot_slot("hdr-a"), Some(1));
    reg.mark_dirty(1, "hdr-b");
    assert_eq!(reg.hot_slot("hdr-a"), None);
    assert_eq!(reg.hot_slot("hdr-b"), Some(1));
    assert!(reg.owns(1, "hdr-b"));
    assert!(!reg.owns(1, "hdr-a"));
    reg.mark_published(1, "hdr-a");
    assert!(reg.dirty(1));
    reg.mark_published(1, "hdr-b");
    assert!(!reg.dirty(1));
    reg.reserve(1, "hdr-b");
    assert!(reg.dirty(1) && reg.used(1));
    reg.mark_published(1, "hdr-b");
    assert!(reg.dirty(1));
    reg.release(1, "hdr-a");
    assert!(reg.used(1));
    reg.release(1, "hdr-b");
    assert!(!reg.used(1));
}

#[test]
fn registry_picks_free_before_evictable() {
    let mut reg = SlotRegistry::new();
    reg.mark_dirty(1, "hdr-a");
    let report = vec![busy(0), idle(1), idle(2), idle(3)];
    assert_eq!(reg.pick_free(&report), Some(2));
    assert!(reg.slot(0).unwrap().busy);
    assert!(reg.slot(3).is_none());
    assert_eq!(reg.find_evictable(&report), Some((1, Some("hdr-a".to_string()))));
    assert_eq!(reg.pick_free(&vec![busy(2), idle(1)]), None);
    assert_eq!(reg.find_evictable(&vec![busy(1), idle(3)]), None);
    assert_eq!(reg.pick_free(&vec![]), None);
}

#[test]
fn a_known_session_goes_straight_back() {
    let mut reg = SlotRegistry::new();
    reg.mark_dirty(4, "hdr-a");
    let a = Admission::begin("hdr-a", SIG, true, &mut reg);
    assert_eq!(a.stage, AdmitStage::Ready(Some(4)));
    assert!(matches!(a.action(), AdmitAction::Forward(Some(4))));
    assert_eq!(a.lock_mode(), LockMode::Free);
    assert!(reg.dirty(4) && reg.used(4));
    assert_eq!(reg.find_evictable(&vec![idle(4)]), None);
    reg.release(4, "hdr-a");
    assert_eq!(reg.find_evictable(&vec![idle(4)]), Some((4, Some("hdr-a".to_string()))));
}

#[test]
fn a_new_session_takes_a_free_slot() {
    let mut reg = SlotRegistry::new();
    let mut a = Admission::begin("hdr-a", SIG, false, &mut reg);
    assert!(matches!(a.action(), AdmitAction::ListSlots));
    assert_eq!(a.lock_mode(), LockMode::Shared);
    a.resume(AdmitEvent::Slots(Some(vec![busy(0), idle(1)])), &mut reg);
    assert!(matches!(a.action(), AdmitAction::Forward(Some(1))));
    assert_eq!(owner(&reg, 1), Some("hdr-a".to_string()));
    assert!(reg.slot(1).unwrap().dirty);
}

#[test]
fn a_cached_session_is_restored_first() {
    let mut reg = SlotRegistry::new();
    let mut a = Admission::begin("hdr-a", SIG, true, &mut reg);
    a.resume(AdmitEvent::Outcome(true), &mut reg);
    assert_eq!(a.stage, AdmitStage::Lookup);
    a.resume(AdmitEvent::Slots(Some(vec![idle(1)])), &mut reg);
    assert!(matches!(a.action(), AdmitAction::Restore(1, n) if n == "hdr-a__0123456789ab.bin"));
    assert_eq!(owner(&reg, 1), Some("hdr-a".to_string()));
    assert!(reg.slot(1).unwrap().dirty);
    a.resume(AdmitEvent::Outcome(true), &mut reg);
    assert!(matches!(a.action(), AdmitAction::Touch(n) if n == "hdr-a__0123456789ab.bin"));
    a.resume(AdmitEvent::Outcome(true), &mut reg);
    assert_eq!(a.stage, AdmitStage::Ready(Some(1)));
    assert!(reg.slot(1).unwrap().dirty);

    let mut reg = SlotRegistry::new();
    let mut a = Admission::begin("hdr-a", SIG, true, &mut reg);
    a.resume(AdmitEvent::Slots(Some(vec![idle(1)])), &mut reg);
    a.resume(AdmitEvent::Outcome(false), &mut reg);
    assert_eq!(a.stage, AdmitStage::Ready(Some(1)));
}

#[test]
fn a_dirty_slot_is_published_before_it_is_taken() {
    let mut reg = SlotRegistry::new();
    reg.mark_dirty(1, "hdr-victim");
    let mut a = Admission::begin("hdr-new", SIG, true, &mut reg);
    a.resume(AdmitEvent::Slots(Some(vec![idle(1)])), &mut reg);
    assert_eq!(a.stage, AdmitStage::Reclaim);
    assert_eq!(a.lock_mode(), LockMode::Free);
    a.resume(AdmitEvent::Slots(Some(vec![idle(1)])), &mut reg);
    assert!(matches!(a.action(), AdmitAction::Publish(1, v) if v == "hdr-victim"));
    assert_eq!(owner(&reg, 1), Some("hdr-victim".to_string()));

    let mut save = SlotSave::begin(1, "hdr-victim", SIG);
    assert_eq!(save.lock_mode(), LockMode::Exclusive);
    for _ in 0..3 {
        save.resume(true, &mut reg);
    }
    assert_eq!(save.lock_mode(), LockMode::Free);
    assert!(!reg.slot(1).unwrap().dirty);

    a.resume(AdmitEvent::Outcome(true), &mut reg);
    assert_eq!(a.stage, AdmitStage::Restore(1));
    a.resume(AdmitEvent::Outcome(false), &mut reg);
    assert_eq!(a.stage, AdmitStage::Ready(Some(1)));
    assert_eq!(owner(&reg, 1), Some("hdr-new".to_string()));
    assert!(reg.slot(1).unwrap().dirty);
}

#[test]
fn a_failed_publish_takes_nothing() {
    let mut reg = SlotRegistry::new();
    reg.mark_dirty(1, "hdr-victim");
    let mut a = Admission::begin("hdr-new", SIG, false, &mut reg);
    a.resume(AdmitEvent::Slots(Some(vec![idle(1)])), &mut reg);
    a.resume(AdmitEvent::Slots(Some(vec![idle(1)])), &mut reg);
    a.resume(AdmitEvent::Outcome(false), &mut reg);
    assert!(matches!(a.action(), AdmitAction::Forward(None)));
    assert_eq!(owner(&reg, 1), Some("hdr-victim".to_string()));
    assert!(reg.slot(1).unwrap().dirty);
}

#[test]
fn busy_or_silent_backends_forward_unsteered() {
    let mut reg = SlotRegistry::new();
    let mut a = Admission::begin("hdr-a", SIG, true, &mut reg);
    a.resume(AdmitEvent::Slots(Some(vec![busy(0), busy(1)])), &mut reg);
    a.resume(AdmitEvent::Slots(Some(vec![busy(0), busy(1)])), &mut reg);
    assert_eq!(a.stage, AdmitStage::Ready(None));

    let mut a = Admission::begin("hdr-a", SIG, true, &mut reg);
    a.resume(AdmitEvent::Slots(None), &mut reg);
    a.resume(AdmitEvent::Slots(None), &mut reg);
    assert_eq!(a.stage, AdmitStage::Ready(None));
}

#[test]
fn of_two_admissions_side_by_side_one_gets_the_slot() {
    let mut reg = SlotRegistry::new();
    let mut a = Admission::begin("hdr-a", SIG, true, &mut reg);
    let mut b = Admission::begin("hdr-b", SIG, true, &mut reg);
    a.resume(AdmitEvent::Slots(Some(vec![idle(1)])), &mut reg);
    b.resume(AdmitEvent::Slots(Some(vec![idle(1)])), &mut reg);
    assert_eq!(a.stage, AdmitStage::Restore(1));
    assert_eq!(b.stage, AdmitStage::Reclaim);
    b.resume(AdmitEvent::Slots(Some(vec![idle(1)])), &mut reg);
    assert_eq!(b.stage, AdmitStage::Ready(None));
    a.resume(AdmitEvent::Outcome(true), &mut reg);
    a.resume(AdmitEvent::Outcome(true), &mut reg);
    assert_eq!(a.stage, AdmitStage::Ready(Some(1)));
    assert_eq!(owner(&reg, 1), Some("hdr-a".to_string()));
}

#[test]
fn of_two_evictions_side_by_side_one_gets_the_slot() {
    let mut reg = SlotRegistry::new();
    reg.mark_dirty(1, "hdr-victim");
    let mut a = Admission::begin("hdr-a", SIG, false, &mut reg);
    let mut b = Admission::begin("hdr-b", SIG, false, &mut reg);
    for _ in 0..2 {
        a.resume(AdmitEvent::Slots(Some(vec![idle(1)])), &mut reg);
        b.resume(AdmitEvent::Slots(Some(vec![idle(1)])), &mut reg);
    }
    assert_eq!(a.stage, AdmitStage::Evict(1));
    assert_eq!(b.stage, AdmitStage::Evict(1));
    let mut save = SlotSave::evict(1, "hdr-victim", SIG, &reg).unwrap();
    for _ in 0..3 {
        save.resume(true, &mut reg);
    }
    assert!(SlotSave::evict(1, "hdr-victim", SIG, &reg).is_none());
    a.resume(AdmitEvent::Outcome(true), &mut reg);
    assert_eq!(a.stage, AdmitStage::Ready(Some(1)));
    assert!(SlotSave::evict(1, "hdr-victim", SIG, &reg).is_none());
    b.resume(AdmitEvent::Outcome(true), &mut reg);
    assert_eq!(b.stage, AdmitStage::Ready(None));
    assert_eq!(owner(&reg, 1), Some("hdr-a".to_string()));
}
