//! Keeping files: in which order to write, move and remove them so that an
//! interruption loses nothing, and in which order to look for a copy that can
//! be read.
//!
//! Nothing here touches a file. A `FileWrite` says what to do next and is told
//! how it went; `load_step` is told what reading a copy gave and says where to
//! look next.

use crate::storage::PhraseData;
use vstd::prelude::*;

verus! {

/// The file with the phrases.
pub const PHRASES_FILE: &'static str = "phrases.json";

/// Its backup.
pub const BACKUP_FILE: &'static str = "phrases.backup.json";

/// The file with the settings.
pub const SETTINGS_FILE: &'static str = "settings.json";

/// Its backup.
pub const SETTINGS_BACKUP_FILE: &'static str = "settings.backup.json";

/// Where the phrases are put before others replace them.
pub const PRE_IMPORT_FILE: &'static str = "phrases.pre-import.json";

/// The files that take part in a write: the file itself, its former version,
/// and the new version under way.
#[derive(Debug, Clone, Copy, PartialEq, Eq, Structural)]
pub enum Slot {
    Main,
    Old,
    Tmp,
}

/// One thing to do to files.
#[derive(Debug, Clone, Copy, PartialEq, Eq, Structural)]
pub enum FileOp {
    /// Create the directory that the file is in.
    CreateParent,
    /// Write the new version to `Slot::Tmp`.
    WriteTmp,
    /// See whether `Slot::Main` is there; that it is counts as success.
    LookForMain,
    /// See whether `Slot::Old` is there; that it is, and that it cannot be told,
    /// counts as success.
    LookForOld,
    /// Remove the file.
    Remove(Slot),
    /// Move the first file to where the second is, or was. What the second held
    /// is replaced.
    Rename(Slot, Slot),
}

/// How far a write has come.
#[derive(Debug, Clone, Copy, PartialEq, Eq, Structural)]
pub enum Stage {
    CreateParent,
    WriteTmp,
    LookForMain,
    LookForOld,
    /// Put the new version in place of the file, with a former version beside it
    /// that may be all that can be read.
    MoveOver,
    SetAside,
    SwapIn,
    RollBack,
    DropOld,
    /// Write the new version of a file whose former version is not kept.
    WriteExport,
    MoveIn,
    DropTmp,
    Written,
    Failed,
}

impl Stage {
    /// What to do at this stage; nothing, once the write is over.
    pub open spec fn op(self) -> Option<FileOp> {
        match self {
            Stage::CreateParent => Some(FileOp::CreateParent),
            Stage::WriteTmp => Some(FileOp::WriteTmp),
            Stage::LookForMain => Some(FileOp::LookForMain),
            Stage::LookForOld => Some(FileOp::LookForOld),
            Stage::MoveOver => Some(FileOp::Rename(Slot::Tmp, Slot::Main)),
            Stage::SetAside => Some(FileOp::Rename(Slot::Main, Slot::Old)),
            Stage::SwapIn => Some(FileOp::Rename(Slot::Tmp, Slot::Main)),
            Stage::RollBack => Some(FileOp::Rename(Slot::Old, Slot::Main)),
            Stage::DropOld => Some(FileOp::Remove(Slot::Old)),
            Stage::WriteExport => Some(FileOp::WriteTmp),
            Stage::MoveIn => Some(FileOp::Rename(Slot::Tmp, Slot::Main)),
            Stage::DropTmp => Some(FileOp::Remove(Slot::Tmp)),
            Stage::Written => None,
            Stage::Failed => None,
        }
    }

    /// The next stage, by whether this one went well.
    pub open spec fn after(self, ok: bool) -> Stage {
        match self {
            Stage::CreateParent => if ok {
                Stage::WriteTmp
            } else {
                Stage::Failed
            },
            Stage::WriteTmp => if ok {
                Stage::LookForMain
            } else {
                Stage::DropTmp
            },
            Stage::LookForMain => if ok {
                Stage::LookForOld
            } else {
                Stage::MoveIn
            },
            Stage::LookForOld => if ok {
                Stage::MoveOver
            } else {
                Stage::SetAside
            },
            Stage::MoveOver => if ok {
                Stage::DropOld
            } else {
                Stage::DropTmp
            },
            Stage::SetAside => if ok {
                Stage::SwapIn
            } else {
                Stage::DropTmp
            },
            Stage::SwapIn => if ok {
                Stage::DropOld
            } else {
                Stage::RollBack
            },
            Stage::RollBack => Stage::DropTmp,
            Stage::DropOld => Stage::Written,
            Stage::WriteExport => if ok {
                Stage::MoveIn
            } else {
                Stage::DropTmp
            },
            Stage::MoveIn => if ok {
                Stage::Written
            } else {
                Stage::DropTmp
            },
            Stage::DropTmp => Stage::Failed,
            Stage::Written => Stage::Written,
            Stage::Failed => Stage::Failed,
        }
    }

    /// Whether the write fails if this stage does, so that its error is the
    /// one to report.
    pub open spec fn is_decisive(self) -> bool {
        match self {
            Stage::CreateParent => true,
            Stage::WriteTmp => true,
            Stage::MoveOver => true,
            Stage::SetAside => true,
            Stage::SwapIn => true,
            Stage::WriteExport => true,
            Stage::MoveIn => true,
            _ => false,
        }
    }

    /// An upper bound on the stages still to come.
    pub open spec fn left(self) -> nat {
        match self {
            Stage::CreateParent => 8,
            Stage::WriteTmp => 7,
            Stage::LookForMain => 6,
            Stage::LookForOld => 5,
            Stage::MoveOver => 2,
            Stage::SetAside => 4,
            Stage::SwapIn => 3,
            Stage::RollBack => 2,
            Stage::DropOld => 1,
            Stage::WriteExport => 3,
            Stage::MoveIn => 2,
            Stage::DropTmp => 1,
            Stage::Written => 0,
            Stage::Failed => 0,
        }
    }
}

/// A write under way.
pub struct FileWrite {
    stage: Stage,
}

impl View for FileWrite {
    type V = Stage;

    closed spec fn view(&self) -> Stage {
        self.stage
    }
}

impl FileWrite {
    /// What to do next; nothing, once the write is over.
    pub fn op(&self) -> (r: Option<FileOp>)
        ensures
            r == self@.op(),
    {
        match self.stage {
            Stage::CreateParent => Some(FileOp::CreateParent),
            Stage::WriteTmp => Some(FileOp::WriteTmp),
            Stage::LookForMain => Some(FileOp::LookForMain),
            Stage::LookForOld => Some(FileOp::LookForOld),
            Stage::MoveOver => Some(FileOp::Rename(Slot::Tmp, Slot::Main)),
            Stage::SetAside => Some(FileOp::Rename(Slot::Main, Slot::Old)),
            Stage::SwapIn => Some(FileOp::Rename(Slot::Tmp, Slot::Main)),
            Stage::RollBack => Some(FileOp::Rename(Slot::Old, Slot::Main)),
            Stage::DropOld => Some(FileOp::Remove(Slot::Old)),
            Stage::WriteExport => Some(FileOp::WriteTmp),
            Stage::MoveIn => Some(FileOp::Rename(Slot::Tmp, Slot::Main)),
            Stage::DropTmp => Some(FileOp::Remove(Slot::Tmp)),
            Stage::Written => None,
            Stage::Failed => None,
        }
    }

    /// Whether the write fails if what is to be done next does.
    pub fn is_decisive(&self) -> (r: bool)
        ensures
            r == self@.is_decisive(),
    {
        match self.stage {
            Stage::CreateParent => true,
            Stage::WriteTmp => true,
            Stage::MoveOver => true,
            Stage::SetAside => true,
            Stage::SwapIn => true,
            Stage::WriteExport => true,
            Stage::MoveIn => true,
            _ => false,
        }
    }

    /// Whether the new version is in its place.
    pub fn is_written(&self) -> (r: bool)
        ensures
            r == (self@ == Stage::Written),
    {
        self.stage == Stage::Written
    }

    /// Tells how what was to be done went.
    pub fn report(&mut self, ok: bool)
        ensures
            final(self)@ == old(self)@.after(ok),
    {
        let next = match self.stage {
            Stage::CreateParent => if ok {
                Stage::WriteTmp
            } else {
                Stage::Failed
            },
            Stage::WriteTmp => if ok {
                Stage::LookForMain
            } else {
                Stage::DropTmp
            },
            Stage::LookForMain => if ok {
                Stage::LookForOld
            } else {
                Stage::MoveIn
            },
            Stage::LookForOld => if ok {
                Stage::MoveOver
            } else {
                Stage::SetAside
            },
            Stage::MoveOver => if ok {
                Stage::DropOld
            } else {
                Stage::DropTmp
            },
            Stage::SetAside => if ok {
                Stage::SwapIn
            } else {
                Stage::DropTmp
            },
            Stage::SwapIn => if ok {
                Stage::DropOld
            } else {
                Stage::RollBack
            },
            Stage::RollBack => Stage::DropTmp,
            Stage::DropOld => Stage::Written,
            Stage::WriteExport => if ok {
                Stage::MoveIn
            } else {
                Stage::DropTmp
            },
            Stage::MoveIn => if ok {
                Stage::Written
            } else {
                Stage::DropTmp
            },
            Stage::DropTmp => Stage::Failed,
            Stage::Written => Stage::Written,
            Stage::Failed => Stage::Failed,
        };
        self.stage = next;
    }
}

/// Starts to replace a file such that at any moment the file or its former
/// version can be read, if either could before. `has_parent` says whether the path names a directory
/// that the file is in.
pub fn atomic_write(has_parent: bool) -> (r: FileWrite)
    ensures
        r@ == (if has_parent {
            Stage::CreateParent
        } else {
            Stage::WriteTmp
        }),
{
    FileWrite {
        stage: if has_parent {
            Stage::CreateParent
        } else {
            Stage::WriteTmp
        },
    }
}

/// Starts to write the phrases to a file that the user named. Nothing beside
/// it is touched but the new version under way.
pub fn export_phrases() -> (r: FileWrite)
    ensures
        r@ == Stage::WriteExport,
{
    FileWrite { stage: Stage::WriteExport }
}

/// A write is over after at most eight reports, whatever they say.
pub proof fn every_write_ends(stage: Stage, ok: bool)
    requires
        stage.op() is Some,
    ensures
        stage.after(ok).left() < stage.left() <= 8,
{
}

/// The write fails at once where a decisive stage fails, and else only after
/// one did: from every other stage success is still to be had.
pub proof fn decisive_stages_decide(stage: Stage, ok: bool)
    requires
        stage.op() is Some,
    ensures
        stage.is_decisive() && !ok ==> stage.after(ok) == Stage::Failed || stage.after(ok)
            == Stage::DropTmp || stage.after(ok) == Stage::RollBack,
        stage.after(ok) == Stage::Failed || stage.after(ok) == Stage::DropTmp || stage.after(ok)
            == Stage::RollBack ==> (stage.is_decisive() && !ok) || stage == Stage::DropTmp || stage
            == Stage::RollBack,
{
}

/// The contents of the files that take part in a write.
#[verifier::ext_equal]
pub struct Disk {
    pub main: Option<Seq<char>>,
    pub old: Option<Seq<char>>,
    pub tmp: Option<Seq<char>>,
}

impl Disk {
    /// What a file holds.
    pub open spec fn get(self, slot: Slot) -> Option<Seq<char>> {
        match slot {
            Slot::Main => self.main,
            Slot::Old => self.old,
            Slot::Tmp => self.tmp,
        }
    }

    /// With that in the file.
    pub open spec fn with(self, slot: Slot, text: Option<Seq<char>>) -> Disk {
        match slot {
            Slot::Main => Disk { main: text, ..self },
            Slot::Old => Disk { old: text, ..self },
            Slot::Tmp => Disk { tmp: text, ..self },
        }
    }

    /// `op` may leave the files as `then` and go as `ok` says. A write that
    /// fails or is cut short may leave anything in the file it wrote to; to
    /// move or to remove a file is done as a whole or not at all.
    pub open spec fn may_become(self, op: FileOp, text: Seq<char>, ok: bool, then: Disk) -> bool {
        match op {
            FileOp::CreateParent => then == self,
            FileOp::WriteTmp => {
                &&& then.main == self.main
                &&& then.old == self.old
                &&& ok ==> then.tmp == Some(text)
            },
            FileOp::LookForMain => then == self && (ok ==> self.main is Some),
            FileOp::LookForOld => then == self && (!ok ==> self.old is None),
            FileOp::Remove(slot) => if ok {
                then == self.with(slot, None)
            } else {
                then == self
            },
            FileOp::Rename(from, to) => if ok {
                self.get(from) is Some && then == self.with(to, self.get(from)).with(from, None)
            } else {
                then == self
            },
        }
    }

    /// What reading the file gives: the file if it can be made sense of, else
    /// its former version if that can.
    pub open spec fn reading(self, readable: spec_fn(Seq<char>) -> bool) -> Option<Seq<char>> {
        if self.main is Some && readable(self.main->0) {
            self.main
        } else if self.old is Some && readable(self.old->0) {
            self.old
        } else {
            None
        }
    }
}

/// A moment of a write.
pub struct Moment {
    pub stage: Stage,
    pub disk: Disk,
    /// How what was done just before went.
    pub went_well: bool,
}

/// The moments of a write of `text`, each following from the one before. A
/// write may be cut short at any of them.
pub open spec fn is_write(run: Seq<Moment>, text: Seq<char>) -> bool {
    &&& run.len() > 0
    &&& forall|i: int| 0 < i < run.len() ==> #[trigger] follows(run, text, i)
}

/// The moment at `i` follows from the one before.
pub open spec fn follows(run: Seq<Moment>, text: Seq<char>, i: int) -> bool {
    let was = run[i - 1];
    &&& was.stage.op() is Some
    &&& run[i].stage == was.stage.after(run[i].went_well)
    &&& was.disk.may_become(was.stage.op()->0, text, run[i].went_well, run[i].disk)
}

/// The stages that a write starts at.
pub open spec fn is_start(stage: Stage) -> bool {
    stage == Stage::CreateParent || stage == Stage::WriteTmp
}

/// What holds at each stage of a write that started with the files as `start`.
spec fn holds_at(start: Disk, text: Seq<char>, m: Moment) -> bool {
    let d = m.disk;
    match m.stage {
        Stage::CreateParent | Stage::WriteTmp => d.main == start.main && d.old == start.old,
        Stage::LookForMain | Stage::MoveIn => {
            d.main == start.main && d.old == start.old && d.tmp == Some(text)
        },
        Stage::LookForOld | Stage::MoveOver => {
            &&& start.main is Some
            &&& d.main == start.main
            &&& d.old == start.old
            &&& d.tmp == Some(text)
        },
        Stage::SetAside => {
            &&& start.main is Some
            &&& start.old is None
            &&& d.main == start.main
            &&& d.old is None
            &&& d.tmp == Some(text)
        },
        Stage::SwapIn | Stage::RollBack => {
            &&& start.main is Some
            &&& start.old is None
            &&& d.main is None
            &&& d.old == start.main
            &&& d.tmp == Some(text)
        },
        Stage::DropTmp | Stage::Failed => {
            ||| d.main == start.main && d.old == start.old
            ||| start.main is Some && start.old is None && d.main is None && d.old == start.main
        },
        Stage::DropOld | Stage::Written => d.main == Some(text) && d.tmp is None,
        Stage::WriteExport => false,
    }
}

proof fn lemma_holds_throughout(run: Seq<Moment>, text: Seq<char>, i: int)
    requires
        is_write(run, text),
        is_start(run[0].stage),
        0 <= i < run.len(),
    ensures
        holds_at(run[0].disk, text, run[i]),
    decreases i,
{
    if i > 0 {
        lemma_holds_throughout(run, text, i - 1);
        assert(follows(run, text, i));
    }
}

proof fn lemma_reading_at(
    start: Disk,
    text: Seq<char>,
    m: Moment,
    readable: spec_fn(Seq<char>) -> bool,
)
    requires
        holds_at(start, text, m),
        readable(text),
    ensures
        m.disk.reading(readable) == start.reading(readable) || m.disk.reading(readable) == Some(
            text,
        ),
        m.stage == Stage::Written ==> m.disk.reading(readable) == Some(text),
        m.stage == Stage::Failed ==> m.disk.reading(readable) == start.reading(readable),
{
}

/// At whatever moment a write is cut short, reading the file gives what it gave
/// before or the new version. Once the write has succeeded it gives the new
/// version; once it has failed, what it gave before.
pub proof fn a_write_loses_nothing(
    run: Seq<Moment>,
    text: Seq<char>,
    readable: spec_fn(Seq<char>) -> bool,
    i: int,
)
    requires
        is_write(run, text),
        is_start(run[0].stage),
        readable(text),
        0 <= i < run.len(),
    ensures
        run[i].disk.reading(readable) == run[0].disk.reading(readable)
            || run[i].disk.reading(readable) == Some(text),
        run[i].stage == Stage::Written ==> run[i].disk.reading(readable) == Some(text),
        run[i].stage == Stage::Failed ==> run[i].disk.reading(readable)
            == run[0].disk.reading(readable),
{
    lemma_holds_throughout(run, text, i);
    lemma_reading_at(run[0].disk, text, run[i], readable);
}

/// At every moment of a write the file or its former version is whole: one of
/// them holds what the file held at the start, or the file holds the new
/// version. This needs nothing of what the file can be read as.
pub proof fn one_whole_copy_remains(run: Seq<Moment>, text: Seq<char>, i: int)
    requires
        is_write(run, text),
        is_start(run[0].stage),
        run[0].disk.main is Some,
        0 <= i < run.len(),
    ensures
        run[i].disk.main == run[0].disk.main || run[i].disk.old == run[0].disk.main
            || run[i].disk.main == Some(text),
{
    lemma_holds_throughout(run, text, i);
}

/// What holds at each stage of an export.
spec fn export_holds_at(start: Disk, text: Seq<char>, m: Moment) -> bool {
    &&& m.disk.old == start.old
    &&& match m.stage {
        Stage::WriteExport | Stage::DropTmp | Stage::Failed => m.disk.main == start.main,
        Stage::MoveIn => m.disk.main == start.main && m.disk.tmp == Some(text),
        Stage::Written => m.disk.main == Some(text) && m.disk.tmp is None,
        _ => false,
    }
}

proof fn lemma_export_holds_throughout(run: Seq<Moment>, text: Seq<char>, i: int)
    requires
        is_write(run, text),
        run[0].stage == Stage::WriteExport,
        0 <= i < run.len(),
    ensures
        export_holds_at(run[0].disk, text, run[i]),
    decreases i,
{
    if i > 0 {
        lemma_export_holds_throughout(run, text, i - 1);
        assert(follows(run, text, i));
    }
}

/// An export leaves the file as it was until it holds the whole new version,
/// and never touches a file that happens to be named like a former version.
pub proof fn an_export_is_all_or_nothing(run: Seq<Moment>, text: Seq<char>, i: int)
    requires
        is_write(run, text),
        run[0].stage == Stage::WriteExport,
        0 <= i < run.len(),
    ensures
        run[i].stage == Stage::Written ==> run[i].disk.main == Some(text) && run[i].disk.tmp is None,
        run[i].stage != Stage::Written ==> run[i].disk.main == run[0].disk.main,
        run[i].disk.old == run[0].disk.old,
{
    lemma_export_holds_throughout(run, text, i);
}

/// A write or an export that is over leaves nothing behind: a failed one no new
/// version under way, unless removing it failed, or the directory could not be
/// made, and then nothing was touched; a finished one none at all, and no former
/// version where the file was there, unless removing that failed.
pub proof fn nothing_is_left_behind(run: Seq<Moment>, text: Seq<char>, i: int)
    requires
        is_write(run, text),
        is_start(run[0].stage) || run[0].stage == Stage::WriteExport,
        0 < i < run.len(),
    ensures
        run[i].stage == Stage::Failed ==> {
            ||| run[i - 1].stage == Stage::DropTmp && (run[i].went_well ==> run[i].disk.tmp is None)
            ||| run[i - 1].stage == Stage::CreateParent && run[i].disk == run[0].disk
        },
        run[i].stage == Stage::Written ==> {
            &&& run[i].disk.tmp is None
            &&& {
                ||| run[i - 1].stage == Stage::DropOld && (run[i].went_well
                    ==> run[i].disk.old is None)
                ||| run[i - 1].stage == Stage::MoveIn && run[i].disk.old == run[0].disk.old
            }
        },
        run[i].stage == Stage::Written && run[i - 1].stage == Stage::MoveIn && is_start(
            run[0].stage,
        ) ==> !run[i - 1].went_well,
{
    let was = run[i - 1];
    assert(follows(run, text, i));
    if i > 1 {
        assert(follows(run, text, i - 1));
    }
    if is_start(run[0].stage) {
        lemma_holds_throughout(run, text, i);
        lemma_holds_throughout(run, text, i - 1);
        if i > 1 {
            lemma_holds_throughout(run, text, i - 2);
        }
    } else {
        lemma_export_holds_throughout(run, text, i);
    }
}

/// Something that decides the write did not go well just before the moment at `i`.
pub open spec fn goes_wrong_at(run: Seq<Moment>, i: int) -> bool {
    0 < i < run.len() && run[i - 1].stage.is_decisive() && !run[i].went_well
}

/// A write or an export that is over has succeeded exactly if everything went
/// well that decides it, and then the file holds the new version.
pub proof fn a_write_that_goes_well_is_written(run: Seq<Moment>, text: Seq<char>)
    requires
        is_write(run, text),
        is_start(run[0].stage) || run[0].stage == Stage::WriteExport,
        run.last().stage.op() is None,
    ensures
        run.last().stage == Stage::Written <==> forall|i: int| !#[trigger] goes_wrong_at(run, i),
        run.last().stage == Stage::Written ==> run.last().disk.main == Some(text),
{
    let n = run.len() - 1;
    lemma_well_so_far(run, text, n);
    if is_start(run[0].stage) {
        lemma_holds_throughout(run, text, n);
    } else {
        lemma_export_holds_throughout(run, text, n);
    }
}

/// A stage of a write that will fail.
spec fn is_lost(stage: Stage) -> bool {
    stage == Stage::RollBack || stage == Stage::DropTmp || stage == Stage::Failed
}

proof fn lemma_well_so_far(run: Seq<Moment>, text: Seq<char>, n: int)
    requires
        is_write(run, text),
        is_start(run[0].stage) || run[0].stage == Stage::WriteExport,
        0 <= n < run.len(),
    ensures
        !is_lost(run[n].stage) <==> forall|i: int| i <= n ==> !#[trigger] goes_wrong_at(run, i),
    decreases n,
{
    if n > 0 {
        lemma_well_so_far(run, text, n - 1);
        assert(follows(run, text, n));
        if is_lost(run[n - 1].stage) {
            let i = choose|i: int| i <= n - 1 && #[trigger] goes_wrong_at(run, i);
            assert(goes_wrong_at(run, i));
        }
        assert(is_lost(run[n].stage) <==> is_lost(run[n - 1].stage) || goes_wrong_at(run, n));
    } else {
        assert(!goes_wrong_at(run, 0));
    }
}

/// Each stage does one thing: a new version is written before it is moved into
/// place, and the file is set aside only to be followed by the new version.
pub proof fn what_is_moved_where(stage: Stage)
    ensures
        stage.op() matches Some(FileOp::Rename(from, to)) ==> {
            ||| from == Slot::Tmp && to == Slot::Main
            ||| from == Slot::Main && to == Slot::Old && stage.after(true).op() == Some(
                FileOp::Rename(Slot::Tmp, Slot::Main),
            )
            ||| from == Slot::Old && to == Slot::Main && stage.after(true) == stage.after(false)
        },
        stage.op() is None <==> stage == Stage::Written || stage == Stage::Failed,
        stage.op() matches Some(FileOp::Remove(slot)) ==> slot != Slot::Main && stage.after(true)
            == stage.after(false),
{
}

/// Where a copy may be found, in the order of looking.
#[derive(Debug, Clone, Copy, PartialEq, Eq, Structural)]
pub enum Source {
    /// The file.
    Main,
    /// Its former version, left by a write that was cut short.
    MainOld,
    /// The backup.
    Backup,
    /// Its former version.
    BackupOld,
}

/// What to do after looking for a copy.
pub enum LoadStep<T> {
    /// Look there next.
    Read(Source),
    /// Use this; write it to the file too if `rewrite_main`.
    Found { value: T, rewrite_main: bool },
    /// There is no copy.
    Missing,
}

/// Whether a copy found there is to be written to the file.
pub open spec fn is_backup(source: Source) -> bool {
    source == Source::Backup || source == Source::BackupOld
}

/// What to do after looking at `source`, by what was found there.
pub open spec fn step_after<T>(source: Source, found: Option<T>) -> LoadStep<T> {
    match found {
        Some(value) => LoadStep::Found { value, rewrite_main: is_backup(source) },
        None => match source {
            Source::Main => LoadStep::Read(Source::MainOld),
            Source::MainOld => LoadStep::Read(Source::Backup),
            Source::Backup => LoadStep::Read(Source::BackupOld),
            Source::BackupOld => LoadStep::Missing,
        },
    }
}

/// What to do after looking at `source`, by what was found there: a value, or
/// nothing that can be read. The first to look at is `Source::Main`.
pub fn load_step<T>(source: Source, found: Option<T>) -> (r: LoadStep<T>)
    ensures
        r == step_after(source, found),
{
    match found {
        Some(value) => LoadStep::Found {
            value,
            rewrite_main: source == Source::Backup || source == Source::BackupOld,
        },
        None => match source {
            Source::Main => LoadStep::Read(Source::MainOld),
            Source::MainOld => LoadStep::Read(Source::Backup),
            Source::Backup => LoadStep::Read(Source::BackupOld),
            Source::BackupOld => LoadStep::Missing,
        },
    }
}

/// Loading the phrases, one step: as `load_step`, but where there is no copy a
/// new user's phrases are used.
pub fn load_phrases(source: Source, found: Option<PhraseData>) -> (r: LoadStep<PhraseData>)
    ensures
        match step_after(source, found) {
            LoadStep::Missing => r matches LoadStep::Found { value, rewrite_main }
                && value@ == crate::storage::default_groups() && !rewrite_main,
            step => r == step,
        },
{
    match load_step(source, found) {
        LoadStep::Missing => LoadStep::Found {
            value: PhraseData::default(),
            rewrite_main: false,
        },
        step => step,
    }
}

/// Loading the settings, one step: as `load_step`, but where there is no copy
/// `defaults` are used.
pub fn load_settings<T>(source: Source, found: Option<T>, defaults: T) -> (r: LoadStep<T>)
    ensures
        r == (match step_after(source, found) {
            LoadStep::Missing => LoadStep::Found { value: defaults, rewrite_main: false },
            step => step,
        }),
{
    match load_step(source, found) {
        LoadStep::Missing => LoadStep::Found { value: defaults, rewrite_main: false },
        step => step,
    }
}

/// Sources still to look at.
pub open spec fn sources_left(source: Source) -> nat {
    match source {
        Source::Main => 3,
        Source::MainOld => 2,
        Source::Backup => 1,
        Source::BackupOld => 0,
    }
}

/// What loading comes to when it starts at `source` and each source holds what
/// `holds` says.
pub open spec fn loaded<T>(source: Source, holds: spec_fn(Source) -> Option<T>) -> LoadStep<T>
    decreases sources_left(source),
{
    match step_after(source, holds(source)) {
        LoadStep::Read(next) => if sources_left(next) < sources_left(source) {
            loaded(next, holds)
        } else {
            LoadStep::Missing
        },
        step => step,
    }
}

/// The first copy that can be read is used, in the order file, its former
/// version, backup, the backup's former version; it is written to the file
/// exactly when it came from the backup.
pub proof fn first_readable_copy_wins<T>(holds: spec_fn(Source) -> Option<T>)
    ensures
        loaded(Source::Main, holds) == (if holds(Source::Main) is Some {
            LoadStep::Found { value: holds(Source::Main)->0, rewrite_main: false }
        } else if holds(Source::MainOld) is Some {
            LoadStep::Found { value: holds(Source::MainOld)->0, rewrite_main: false }
        } else if holds(Source::Backup) is Some {
            LoadStep::Found { value: holds(Source::Backup)->0, rewrite_main: true }
        } else if holds(Source::BackupOld) is Some {
            LoadStep::Found { value: holds(Source::BackupOld)->0, rewrite_main: true }
        } else {
            LoadStep::<T>::Missing
        }),
{
    reveal_with_fuel(loaded, 4);
}

/// What a file holds, as far as `parse` makes sense of it.
pub open spec fn parsed<T>(
    text: Option<Seq<char>>,
    parse: spec_fn(Seq<char>) -> Option<T>,
) -> Option<T> {
    match text {
        Some(t) => parse(t),
        None => None,
    }
}

/// What each source holds, as far as `parse` makes sense of it.
pub open spec fn copies<T>(
    file: Disk,
    backup: Disk,
    parse: spec_fn(Seq<char>) -> Option<T>,
) -> spec_fn(Source) -> Option<T> {
    |source: Source|
        match source {
            Source::Main => parsed(file.main, parse),
            Source::MainOld => parsed(file.old, parse),
            Source::Backup => parsed(backup.main, parse),
            Source::BackupOld => parsed(backup.old, parse),
        }
}

/// What was saved is what is loaded: once a write has succeeded, loading gives
/// what was written; and at whatever moment a write is cut short, loading gives
/// what it would have given before, or what was being written; once it has
/// failed, what it would have given before.
pub proof fn what_was_saved_is_loaded<T>(
    run: Seq<Moment>,
    text: Seq<char>,
    backup: Disk,
    parse: spec_fn(Seq<char>) -> Option<T>,
    i: int,
)
    requires
        is_write(run, text),
        is_start(run[0].stage),
        parse(text) is Some,
        0 <= i < run.len(),
    ensures
        ({
            let before = loaded(Source::Main, copies(run[0].disk, backup, parse));
            let now = loaded(Source::Main, copies(run[i].disk, backup, parse));
            let new = LoadStep::Found { value: parse(text)->0, rewrite_main: false };
            &&& now == before || now == new
            &&& run[i].stage == Stage::Written ==> now == new
            &&& run[i].stage == Stage::Failed ==> now == before
        }),
{
    let readable = |t: Seq<char>| parse(t) is Some;
    a_write_loses_nothing(run, text, readable, i);
    first_readable_copy_wins(copies(run[i].disk, backup, parse));
    first_readable_copy_wins(copies(run[0].disk, backup, parse));
}

/// The text to put in the backup, by what the file holds and whether that could
/// be made sense of: the very text, or nothing to be done.
fn backup_text(text: Option<String>, readable: bool) -> (r: Option<String>)
    ensures
        r == (if readable {
            text
        } else {
            None
        }),
{
    if readable {
        text
    } else {
        None
    }
}

/// What to put in the backup of the phrases when the program starts: what the
/// file holds, if it holds phrases. A backup is never replaced by a text that
/// cannot be read.
pub fn backup_phrases(text: Option<String>, parsed: &Option<PhraseData>) -> (r: Option<String>)
    ensures
        r == (if parsed is Some {
            text
        } else {
            None
        }),
{
    backup_text(text, parsed.is_some())
}

/// What to put in the backup of the settings when the program starts, in the
/// same way.
pub fn backup_settings<T>(text: Option<String>, parsed: &Option<T>) -> (r: Option<String>)
    ensures
        r == (if parsed is Some {
            text
        } else {
            None
        }),
{
    backup_text(text, parsed.is_some())
}

} // verus!
