//! Transactional publish: slot state goes to a scratch file, is made durable,
//! and becomes visible by one rename.

use crate::assoc::Assoc;
use crate::keys;
use crate::registry;
use crate::registry::SlotRegistry;
use crate::registry::Slots;
use crate::text;
use vstd::prelude::*;

verus! {

/// The disk half of a publish.
pub trait Publisher {
    /// Make the scratch file that the backend wrote durable, and rename it into
    /// place.
    fn publish(&mut self, scratch: &str, final_name: &str) -> (r: Result<(), String>);
}

/// Where a publication stands.
#[derive(Debug, Clone, Copy, PartialEq, Eq, Structural)]
pub enum FileStage {
    /// The scratch file is to be opened.
    Open,
    /// The scratch file is open and is to be synced.
    Sync,
    /// The scratch file is durable and is to be renamed into place.
    Rename,
    /// The blob is visible; the directory that it stands in, if any, is to be
    /// synced.
    SyncDir,
    /// The blob is published.
    Done,
    /// A step failed; nothing became visible.
    Failed,
}

/// What a publication asks to be done next.
pub enum FileAction {
    /// Open the file at the path.
    Open(String),
    /// Sync the file that was opened.
    Sync,
    /// Rename the first path to the second.
    Rename(String, String),
    /// Sync the directory.
    SyncDir(String),
    /// Nothing: the publication is over.
    Finished(Result<(), String>),
}

/// The stage that follows once the step of a stage went well or failed. A
/// directory that cannot be synced does not undo a rename.
pub open spec fn next_file_stage(stage: FileStage, ok: bool) -> FileStage {
    match stage {
        FileStage::Open => if ok { FileStage::Sync } else { FileStage::Failed },
        FileStage::Sync => if ok { FileStage::Rename } else { FileStage::Failed },
        FileStage::Rename => if ok { FileStage::SyncDir } else { FileStage::Failed },
        FileStage::SyncDir => FileStage::Done,
        FileStage::Done => FileStage::Done,
        FileStage::Failed => FileStage::Failed,
    }
}

/// The error of a publication whose step failed at a stage.
pub open spec fn file_error(stage: FileStage, scratch: Seq<char>, final_name: Seq<char>, cause: Seq<char>) -> Seq<char> {
    match stage {
        FileStage::Open => "open scratch "@ + scratch + ": "@ + cause,
        FileStage::Sync => "fsync "@ + scratch + ": "@ + cause,
        _ => "rename "@ + scratch + " -> "@ + final_name + ": "@ + cause,
    }
}

/// One publish on disk, step by step: open the scratch file, sync it, rename it
/// into place, sync the directory.
pub struct Publication {
    pub dir: String,
    pub scratch: String,
    pub final_name: String,
    pub stage: FileStage,
    pub error: String,
}

impl Publication {
    /// What is to be done next.
    pub fn action(&self) -> (a: FileAction)
        ensures
            match self.stage {
                FileStage::Open => a matches FileAction::Open(p) && p@ == text::joined_path(self.dir@, self.scratch@),
                FileStage::Sync => a is Sync,
                FileStage::Rename => a matches FileAction::Rename(p, q)
                    && p@ == text::joined_path(self.dir@, self.scratch@)
                    && q@ == text::joined_path(self.dir@, self.final_name@),
                FileStage::SyncDir => match text::parent_dir(text::joined_path(self.dir@, self.final_name@)) {
                    Some(parent) => a matches FileAction::SyncDir(d) && d@ == parent,
                    None => a matches FileAction::Finished(r) && r is Ok,
                },
                FileStage::Done => a matches FileAction::Finished(r) && r is Ok,
                FileStage::Failed => a matches FileAction::Finished(r) && r matches Err(e) && e@ == self.error@,
            },
    {
        let scratch = self.scratch.as_str();
        match self.stage {
            FileStage::Open => FileAction::Open(text::join_path(self.dir.as_str(), scratch)),
            FileStage::Sync => FileAction::Sync,
            FileStage::Rename => FileAction::Rename(
                text::join_path(self.dir.as_str(), scratch),
                text::join_path(self.dir.as_str(), self.final_name.as_str()),
            ),
            FileStage::SyncDir => match text::parent_of(
                text::join_path(self.dir.as_str(), self.final_name.as_str()).as_str(),
            ) {
                Some(parent) => FileAction::SyncDir(parent),
                None => FileAction::Finished(Ok(())),
            },
            FileStage::Done => FileAction::Finished(Ok(())),
            FileStage::Failed => FileAction::Finished(Err(self.error.clone())),
        }
    }

    /// Go on with what the last step came to.
    pub fn resume(&mut self, outcome: Result<(), String>)
        ensures
            final(self).dir == old(self).dir,
            final(self).scratch == old(self).scratch,
            final(self).final_name == old(self).final_name,
            final(self).stage == next_file_stage(old(self).stage, outcome is Ok),
            final(self).error@ == (if final(self).stage is Failed && !(old(self).stage is Failed) {
                file_error(old(self).stage, old(self).scratch@, old(self).final_name@, outcome->Err_0@)
            } else {
                old(self).error@
            }),
    {
        match outcome {
            Ok(_) => {
                self.stage = match self.stage {
                    FileStage::Open => FileStage::Sync,
                    FileStage::Sync => FileStage::Rename,
                    FileStage::Rename => FileStage::SyncDir,
                    FileStage::SyncDir => FileStage::Done,
                    FileStage::Done => FileStage::Done,
                    FileStage::Failed => FileStage::Failed,
                };
            },
            Err(cause) => {
                let scratch = self.scratch.as_str();
                match self.stage {
                    FileStage::Open => {
                        self.error = text::join2(text::join3("open scratch ", scratch, ": ").as_str(), cause.as_str());
                        self.stage = FileStage::Failed;
                    },
                    FileStage::Sync => {
                        self.error = text::join2(text::join3("fsync ", scratch, ": ").as_str(), cause.as_str());
                        self.stage = FileStage::Failed;
                    },
                    FileStage::Rename => {
                        let head = text::join3("rename ", scratch, " -> ");
                        let tail = text::join2(": ", cause.as_str());
                        self.error = text::join3(head.as_str(), self.final_name.as_str(), tail.as_str());
                        proof {
                            assert(self.error@ =~= file_error(
                                FileStage::Rename,
                                old(self).scratch@,
                                old(self).final_name@,
                                cause@,
                            ));
                        }
                        self.stage = FileStage::Failed;
                    },
                    FileStage::SyncDir => {
                        self.stage = FileStage::Done;
                    },
                    _ => {},
                }
            },
        }
    }
}

/// Publishes within one directory (the cache directory).
pub struct FsPublisher {
    pub dir: String,
}

impl FsPublisher {
    pub fn new(dir: String) -> (r: Self)
        ensures
            r.dir == dir,
    {
        FsPublisher { dir }
    }

    /// Begin to publish a scratch file under its final name.
    pub fn publish(&self, scratch: &str, final_name: &str) -> (p: Publication)
        ensures
            p.dir@ == self.dir@,
            p.scratch@ == scratch@,
            p.final_name@ == final_name@,
            p.stage is Open,
            p.error@ == Seq::<char>::empty(),
    {
        Publication {
            dir: self.dir.clone(),
            scratch: scratch.to_owned(),
            final_name: final_name.to_owned(),
            stage: FileStage::Open,
            error: String::new(),
        }
    }
}

/// A publisher that keeps the published files in memory.
pub struct MemoryPublisher {
    /// What each published name was renamed from.
    pub files: Assoc<String>,
    /// The scratch and the final name of every publish that went well, in order.
    pub publish_calls: Vec<(String, String)>,
    /// While set, a publish fails.
    pub fail: bool,
}

impl MemoryPublisher {
    /// What each published name was renamed from.
    pub open spec fn published(&self) -> Map<Seq<char>, Seq<char>> {
        self.files@.map_values(|s: String| s@)
    }

    /// The scratch and the final name of every publish that went well, in order.
    pub open spec fn calls(&self) -> Seq<(Seq<char>, Seq<char>)> {
        self.publish_calls@.map_values(|c: (String, String)| (c.0@, c.1@))
    }
}

impl Default for MemoryPublisher {
    fn default() -> (r: Self)
        ensures
            r.published() == Map::<Seq<char>, Seq<char>>::empty(),
            r.calls() == Seq::<(Seq<char>, Seq<char>)>::empty(),
            !r.fail,
    {
        let r = MemoryPublisher { files: Assoc::new(), publish_calls: Vec::new(), fail: false };
        assert(r.published() =~= Map::<Seq<char>, Seq<char>>::empty());
        assert(r.calls() =~= Seq::<(Seq<char>, Seq<char>)>::empty());
        r
    }
}

impl Publisher for MemoryPublisher {
    fn publish(&mut self, scratch: &str, final_name: &str) -> (r: Result<(), String>)
        ensures
            old(self).fail ==> *final(self) == *old(self),
            old(self).fail ==> (r matches Err(e) && e@ == "simulated publish failure ("@ + scratch@ + ")"@),
            !old(self).fail ==> r is Ok,
            !old(self).fail ==> final(self).calls() == old(self).calls().push((scratch@, final_name@)),
            !old(self).fail ==> final(self).published() == old(self).published().insert(final_name@, scratch@),
            !old(self).fail ==> !final(self).fail,
    {
        if self.fail {
            return Err(text::join3("simulated publish failure (", scratch, ")"));
        }
        self.publish_calls.push((scratch.to_owned(), final_name.to_owned()));
        self.files.insert(final_name, scratch.to_owned());
        assert(self.calls() =~= old(self).calls().push((scratch@, final_name@)));
        assert(self.published() =~= old(self).published().insert(final_name@, scratch@));
        Ok(())
    }
}

/// Where the save of a slot stands.
#[derive(Debug, Clone, Copy, PartialEq, Eq, Structural)]
pub enum SaveStage {
    /// The backend is to write the slot's state to the scratch file.
    Save,
    /// The scratch file is to be published.
    Publish,
    /// The blob is visible and is to be marked as just used.
    Touch,
    /// The state is published, and the slot is clean unless it is in use again.
    Done,
    /// A step failed; the slot is as dirty as before.
    Failed,
}

/// What the save of a slot asks to be done next.
pub enum SaveAction {
    /// Have the backend save the slot to a file of that name.
    SaveSlot(u32, String),
    /// Publish the file of the first name under the second.
    Publish(String, String),
    /// Set the last use of the blob of that name to now.
    Touch(String),
    /// Nothing: the save is over, and the state is published or not.
    Finished(bool),
}

/// The stage that follows once the step of a stage went well or failed.
pub open spec fn next_save_stage(stage: SaveStage, ok: bool) -> SaveStage {
    match stage {
        SaveStage::Save => if ok { SaveStage::Publish } else { SaveStage::Failed },
        SaveStage::Publish => if ok { SaveStage::Touch } else { SaveStage::Failed },
        SaveStage::Touch => SaveStage::Done,
        SaveStage::Done => SaveStage::Done,
        SaveStage::Failed => SaveStage::Failed,
    }
}

/// The registry after one step of the save of a slot for a session: the slot is
/// marked once its state is published, and nothing changes before.
pub open spec fn registry_after_save(m: Slots, slot: u32, session: Seq<char>, stage: SaveStage) -> Slots {
    if stage is Touch {
        registry::published(m, slot, session)
    } else {
        m
    }
}

/// The publish of one slot's state under its session's name. From its first to
/// its last step no lookup may run.
pub struct SlotSave {
    pub slot: u32,
    pub session: String,
    pub name: String,
    pub stage: SaveStage,
}

impl SlotSave {
    /// Begin to publish a slot's state as the session's blob.
    pub fn begin(slot: u32, session: &str, sig: &str) -> (r: Self)
        ensures
            r.slot == slot,
            r.session@ == session@,
            r.name@ == keys::blob_name_text(session@, sig@),
            r.stage is Save,
    {
        SlotSave {
            slot,
            session: session.to_owned(),
            name: keys::blob_name(session, sig),
            stage: SaveStage::Save,
        }
    }

    /// Begin to publish the state of a slot that is to be evicted. There is
    /// nothing to publish under the owner's name if the slot is no longer the
    /// owner's, or was published meanwhile. To be called with the lock already
    /// held as the save needs it.
    pub fn evict(slot: u32, owner: &str, sig: &str, registry: &SlotRegistry) -> (r: Option<Self>)
        ensures
            match r {
                Some(save) => {
                    &&& registry::owned_by(registry@, slot, owner@)
                    &&& registry::is_dirty(registry@, slot)
                    &&& save.slot == slot
                    &&& save.session@ == owner@
                    &&& save.name@ == keys::blob_name_text(owner@, sig@)
                    &&& save.stage is Save
                },
                None => !registry::owned_by(registry@, slot, owner@) || !registry::is_dirty(registry@, slot),
            },
    {
        if registry.owns(slot, owner) && registry.dirty(slot) {
            Some(SlotSave::begin(slot, owner, sig))
        } else {
            None
        }
    }

    /// What is to be done next.
    pub fn action(&self) -> (a: SaveAction)
        ensures
            match self.stage {
                SaveStage::Save => a matches SaveAction::SaveSlot(id, f)
                    && id == self.slot && f@ == keys::scratch_name_text(self.name@),
                SaveStage::Publish => a matches SaveAction::Publish(f, n)
                    && f@ == keys::scratch_name_text(self.name@) && n@ == self.name@,
                SaveStage::Touch => a matches SaveAction::Touch(n) && n@ == self.name@,
                SaveStage::Done => a == SaveAction::Finished(true),
                SaveStage::Failed => a == SaveAction::Finished(false),
            },
    {
        match self.stage {
            SaveStage::Save => SaveAction::SaveSlot(self.slot, keys::scratch_name(self.name.as_str())),
            SaveStage::Publish => SaveAction::Publish(keys::scratch_name(self.name.as_str()), self.name.clone()),
            SaveStage::Touch => SaveAction::Touch(self.name.clone()),
            SaveStage::Done => SaveAction::Finished(true),
            SaveStage::Failed => SaveAction::Finished(false),
        }
    }

    /// Go on with whether the last step went well.
    pub fn resume(&mut self, ok: bool, registry: &mut SlotRegistry)
        requires
            old(registry).wf(),
        ensures
            final(registry).wf(),
            final(registry)@ == registry_after_save(
                old(registry)@,
                old(self).slot,
                old(self).session@,
                old(self).stage,
            ),
            final(self).slot == old(self).slot,
            final(self).session == old(self).session,
            final(self).name == old(self).name,
            final(self).stage == next_save_stage(old(self).stage, ok),
    {
        match self.stage {
            SaveStage::Save => {
                self.stage = if ok { SaveStage::Publish } else { SaveStage::Failed };
            },
            SaveStage::Publish => {
                self.stage = if ok { SaveStage::Touch } else { SaveStage::Failed };
            },
            SaveStage::Touch => {
                registry.mark_published(self.slot, self.session.as_str());
                self.stage = SaveStage::Done;
            },
            _ => {},
        }
    }
}

/// The stages of a publication, given what its steps came to.
pub open spec fn file_run(stages: Seq<FileStage>, oks: Seq<bool>) -> bool {
    &&& stages.len() == oks.len() + 1
    &&& stages[0] == FileStage::Open
    &&& forall|i: int| 0 <= i < oks.len() ==> #[trigger] stages[i + 1] == next_file_stage(stages[i], oks[i])
}

/// Transactional publish: a blob becomes visible only by a rename, and the rename
/// is asked for only after the scratch file was opened and synced. So a visible
/// blob is complete.
pub proof fn law_rename_only_what_is_durable(stages: Seq<FileStage>, oks: Seq<bool>, k: int)
    requires
        file_run(stages, oks),
        0 <= k < stages.len(),
        stages[k] is Rename,
    ensures
        k == 2,
        stages[0] is Open && oks[0],
        stages[1] is Sync && oks[1],
{
    lemma_file_run(stages, oks, 1);
    lemma_file_run(stages, oks, k);
}

/// A publication ends well if and only if the scratch file was opened, synced
/// and renamed.
pub proof fn law_published_means_renamed(stages: Seq<FileStage>, oks: Seq<bool>, k: int)
    requires
        file_run(stages, oks),
        4 <= k < stages.len(),
    ensures
        stages[k] is Done || stages[k] is Failed,
        stages[k] is Done <==> oks[0] && oks[1] && oks[2],
{
    lemma_file_run(stages, oks, k);
}

proof fn lemma_file_run(stages: Seq<FileStage>, oks: Seq<bool>, k: int)
    requires
        file_run(stages, oks),
        0 <= k < stages.len(),
    ensures
        k == 0 ==> stages[k] is Open,
        k >= 1 && !oks[0] ==> stages[k] is Failed,
        k == 1 && oks[0] ==> stages[k] is Sync,
        k >= 2 && oks[0] && !oks[1] ==> stages[k] is Failed,
        k == 2 && oks[0] && oks[1] ==> stages[k] is Rename,
        k >= 3 && oks[0] && oks[1] && !oks[2] ==> stages[k] is Failed,
        k == 3 && oks[0] && oks[1] && oks[2] ==> stages[k] is SyncDir,
        k >= 4 && oks[0] && oks[1] && oks[2] ==> stages[k] is Done,
    decreases k,
{
    if k > 0 {
        lemma_file_run(stages, oks, k - 1);
        assert(stages[(k - 1) + 1] == next_file_stage(stages[k - 1], oks[k - 1]));
    }
}

/// The stages of the save of a slot, given what its steps came to.
pub open spec fn save_run(stages: Seq<SaveStage>, oks: Seq<bool>) -> bool {
    &&& stages.len() == oks.len() + 1
    &&& stages[0] == SaveStage::Save
    &&& forall|i: int| 0 <= i < oks.len() ==> #[trigger] stages[i + 1] == next_save_stage(stages[i], oks[i])
}

/// The save of a slot marks it clean only once the backend saved it and the file
/// was published, and only if it still is the session's and no turn is on its way
/// on it; whatever fails before leaves the registry as it was.
pub proof fn law_clean_only_when_published(m: Slots, slot: u32, session: Seq<char>, stages: Seq<SaveStage>, oks: Seq<bool>, k: int)
    requires
        save_run(stages, oks),
        0 <= k < oks.len(),
        registry_after_save(m, slot, session, stages[k]) != m,
    ensures
        k == 2,
        oks[0],
        oks[1],
        registry_after_save(m, slot, session, stages[k]) == registry::cleaned(m, slot),
        registry::owned_by(m, slot, session),
        !registry::in_use(m, slot),
        forall|other: u32| other != slot ==> registry::known(registry::cleaned(m, slot), other) == registry::known(m, other),
{
    assert(stages[0int + 1] == next_save_stage(stages[0], oks[0]));
    if k >= 2 {
        assert(stages[1int + 1] == next_save_stage(stages[1], oks[1]));
        lemma_save_tail(stages, oks, k);
    }
}

proof fn lemma_save_tail(stages: Seq<SaveStage>, oks: Seq<bool>, k: int)
    requires
        save_run(stages, oks),
        2 <= k < stages.len(),
    ensures
        k > 2 ==> stages[k] is Done || stages[k] is Failed,
        k == 2 ==> (stages[k] is Touch && oks[0] && oks[1]) || stages[k] is Failed,
    decreases k,
{
    if k == 2 {
        assert(stages[0int + 1] == next_save_stage(stages[0], oks[0]));
        assert(stages[1int + 1] == next_save_stage(stages[1], oks[1]));
    } else {
        lemma_save_tail(stages, oks, k - 1);
        assert(stages[(k - 1) + 1] == next_save_stage(stages[k - 1], oks[k - 1]));
    }
}

/// The order of a publication: each step that goes well leads to the next, and no
/// step is passed over; a step before the rename that fails ends it. Once the
/// rename went well the publication ends well, whatever comes of the directory.
pub proof fn law_publication_goes_step_by_step(ok: bool)
    ensures
        next_file_stage(FileStage::Open, true) == FileStage::Sync,
        next_file_stage(FileStage::Sync, true) == FileStage::Rename,
        next_file_stage(FileStage::Rename, true) == FileStage::SyncDir,
        next_file_stage(FileStage::SyncDir, ok) == FileStage::Done,
        next_file_stage(FileStage::Open, false) == FileStage::Failed,
        next_file_stage(FileStage::Sync, false) == FileStage::Failed,
        next_file_stage(FileStage::Rename, false) == FileStage::Failed,
        next_file_stage(FileStage::Done, ok) == FileStage::Done,
        next_file_stage(FileStage::Failed, ok) == FileStage::Failed,
{
}

/// An error of a publication tells the step, the files and the whole cause.
pub proof fn law_file_error_tells_all(scratch: Seq<char>, final_name: Seq<char>, cause: Seq<char>)
    ensures
        file_error(FileStage::Open, scratch, final_name, cause) == "open scratch "@ + scratch + ": "@ + cause,
        file_error(FileStage::Sync, scratch, final_name, cause) == "fsync "@ + scratch + ": "@ + cause,
        file_error(FileStage::Rename, scratch, final_name, cause) == "rename "@ + scratch + " -> "@ + final_name + ": "@
            + cause,
{
}

/// The order of a save: the backend saves, the file is published, the blob is
/// marked as used; a step before that fails ends it without success.
pub proof fn law_save_goes_step_by_step(ok: bool)
    ensures
        next_save_stage(SaveStage::Save, true) == SaveStage::Publish,
        next_save_stage(SaveStage::Publish, true) == SaveStage::Touch,
        next_save_stage(SaveStage::Touch, ok) == SaveStage::Done,
        next_save_stage(SaveStage::Save, false) == SaveStage::Failed,
        next_save_stage(SaveStage::Publish, false) == SaveStage::Failed,
        next_save_stage(SaveStage::Done, ok) == SaveStage::Done,
        next_save_stage(SaveStage::Failed, ok) == SaveStage::Failed,
{
}

/// A save that went well leaves its slot clean: when its last step is done, a
/// slot that is the session's and that no turn is on its way on is not dirty any
/// more. Every step before leaves the registry as it was.
pub proof fn law_save_that_went_well_cleans_the_slot(m: Slots, slot: u32, session: Seq<char>, stage: SaveStage)
    ensures
        m.contains_key(slot) && m[slot].session == Some(session) && m[slot].turns == 0 ==> {
            let t = registry_after_save(m, slot, session, SaveStage::Touch);
            t.contains_key(slot) && !t[slot].dirty && t[slot].session == Some(session)
        },
        stage != SaveStage::Touch ==> registry_after_save(m, slot, session, stage) == m,
{
}

} // verus!
