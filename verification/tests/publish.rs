//! Transactional publish, on disk and for a slot.

use ollm::publish::{
    FileAction, FileStage, FsPublisher, MemoryPublisher, Publication, Publisher, SaveAction,
    SaveStage, SlotSave,
};
use ollm::registry::SlotRegistry;

fn publication() -> Publication {
    FsPublisher::new("/cache".to_string()).publish("a.bin.save", "a.bin")
}

#[test]
fn a_publish_syncs_before_it_renames() {
    let mut p = publication();
    assert!(matches!(p.action(), FileAction::Open(path) if path == "/cache/a.bin.save"));
    p.resume(Ok(()));
    assert!(matches!(p.action(), FileAction::Sync));
    p.resume(Ok(()));
    assert!(matches!(p.action(), FileAction::Rename(from, to)
        if from == "/cache/a.bin.save" && to == "/cache/a.bin"));
    p.resume(Ok(()));
    assert!(matches!(p.action(), FileAction::SyncDir(dir) if dir == "/cache"));
    p.resume(Err("not a directory".to_string()));
    assert!(matches!(p.action(), FileAction::Finished(Ok(()))));
    p.resume(Err("late".to_string()));
    assert_eq!(p.stage, FileStage::Done);
}

#[test]
fn the_directory_of_the_blob_is_synced() {
    let mut p = FsPublisher::new("/cache".to_string()).publish("a.save", "sub/a");
    for _ in 0..3 {
        p.resume(Ok(()));
    }
    assert!(matches!(p.action(), FileAction::SyncDir(dir) if dir == "/cache/sub"));
    let mut p = FsPublisher::new("/c".to_string()).publish("d", "a/");
    for _ in 0..3 {
        p.resume(Ok(()));
    }
    assert!(matches!(p.action(), FileAction::SyncDir(dir) if dir == "/c"));
    let mut p = FsPublisher::new("/".to_string()).publish("d", "");
    for _ in 0..3 {
        p.resume(Ok(()));
    }
    assert!(matches!(p.action(), FileAction::Finished(Ok(()))));
}

#[test]
fn a_publish_that_fails_tells_where() {
    let mut p = publication();
    p.resume(Err("gone".to_string()));
    assert!(matches!(p.action(), FileAction::Finished(Err(e)) if e == "open scratch a.bin.save: gone"));
    p.resume(Ok(()));
    assert_eq!(p.stage, FileStage::Failed);

    let mut p = publication();
    p.resume(Ok(()));
    p.resume(Err("io".to_string()));
    assert!(matches!(p.action(), FileAction::Finished(Err(e)) if e == "fsync a.bin.save: io"));

    let mut p = publication();
    p.resume(Ok(()));
    p.resume(Ok(()));
    p.resume(Err("full".to_string()));
    assert!(matches!(p.action(), FileAction::Finished(Err(e)) if e == "rename a.bin.save -> a.bin: full"));
}

#[test]
fn a_saved_slot_is_clean() {
    let mut reg = SlotRegistry::new();
    reg.mark_dirty(3, "hdr-a");
    let mut save = SlotSave::begin(3, "hdr-a", "0123456789ab");
    assert!(matches!(save.action(), SaveAction::SaveSlot(3, f) if f == "hdr-a__0123456789ab.bin.save"));
    save.resume(true, &mut reg);
    assert!(matches!(save.action(), SaveAction::Publish(f, n)
        if f == "hdr-a__0123456789ab.bin.save" && n == "hdr-a__0123456789ab.bin"));
    assert!(reg.slot(3).unwrap().dirty);
    save.resume(true, &mut reg);
    assert!(matches!(save.action(), SaveAction::Touch(n) if n == "hdr-a__0123456789ab.bin"));
    save.resume(true, &mut reg);
    assert!(matches!(save.action(), SaveAction::Finished(true)));
    assert!(!reg.slot(3).unwrap().dirty);
    assert_eq!(reg.slot(3).unwrap().session, Some("hdr-a".to_string()));
}

#[test]
fn a_save_that_fails_leaves_the_slot_dirty() {
    for failing in 0..2 {
        let mut reg = SlotRegistry::new();
        reg.mark_dirty(3, "hdr-a");
        let mut save = SlotSave::begin(3, "hdr-a", "s");
        for step in 0..3 {
            save.resume(step != failing, &mut reg);
        }
        assert_eq!(save.stage, SaveStage::Failed);
        assert!(matches!(save.action(), SaveAction::Finished(false)));
        assert!(reg.slot(3).unwrap().dirty);
    }
}

#[test]
fn memory_publisher_records_what_it_published() {
    let mut p = MemoryPublisher::default();
    assert!(p.files.is_empty());
    assert_eq!(p.publish("x.save", "x"), Ok(()));
    assert_eq!(p.publish("y.save", "y"), Ok(()));
    assert_eq!(p.publish("x2.save", "x"), Ok(()));
    assert_eq!(p.files.get("x"), Some(&"x2.save".to_string()));
    assert_eq!(p.files.get("y"), Some(&"y.save".to_string()));
    assert_eq!(p.files.get("z"), None);
    assert_eq!(p.publish_calls.len(), 3);
    p.fail = true;
    assert_eq!(p.publish("z.save", "z"), Err("simulated publish failure (z.save)".to_string()));
    assert_eq!(p.publish_calls.len(), 3);
}
