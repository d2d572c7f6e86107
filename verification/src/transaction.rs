//! The journal of one transaction against an install prefix.
//!
//! A transaction decides; its caller acts. For each operation the caller
//! says what it sees at the path, the transaction refuses the operation or
//! records how to undo it, and hands back the effect that the caller must now
//! carry out on disk. A transaction that is not committed is rolled back: it
//! hands back its records, last first, and the caller undoes each.

use crate::errors::{Error, ErrorView};
use vstd::prelude::*;
use vstd::string::*;

verus! {

/// What stands at a path of the prefix.
#[derive(Debug, Clone, Copy, PartialEq, Eq, Structural)]
pub enum PathState {
    Absent,
    File,
    Directory,
}

/// One operation that a transaction can stage. Paths are relative to the
/// prefix. The operations that create or remove are made on behalf of a
/// component; `ModifyFile` is for metadata files that components share.
#[derive(Debug)]
pub enum Operation {
    /// Create a file whose content the caller writes afterwards.
    AddFile { component: String, path: String },
    /// Create a file as a copy of the file at `src`.
    CopyFile { component: String, path: String, src: String },
    /// Create a directory as a copy of the tree at `src`.
    CopyDir { component: String, path: String, src: String },
    /// Create a file with the given content.
    WriteFile { component: String, path: String, content: String },
    /// Remove a file.
    RemoveFile { component: String, path: String },
    /// Remove a directory and all that it holds.
    RemoveDir { component: String, path: String },
    /// Announce that the caller is about to overwrite a file.
    ModifyFile { path: String },
}

/// The mathematical value of an [`Operation`].
pub enum OperationView {
    AddFile { component: Seq<char>, path: Seq<char> },
    CopyFile { component: Seq<char>, path: Seq<char>, src: Seq<char> },
    CopyDir { component: Seq<char>, path: Seq<char>, src: Seq<char> },
    WriteFile { component: Seq<char>, path: Seq<char>, content: Seq<char> },
    RemoveFile { component: Seq<char>, path: Seq<char> },
    RemoveDir { component: Seq<char>, path: Seq<char> },
    ModifyFile { path: Seq<char> },
}

impl View for Operation {
    type V = OperationView;

    open spec fn view(&self) -> OperationView {
        match *self {
            Operation::AddFile { component, path } => OperationView::AddFile {
                component: component@,
                path: path@,
            },
            Operation::CopyFile { component, path, src } => OperationView::CopyFile {
                component: component@,
                path: path@,
                src: src@,
            },
            Operation::CopyDir { component, path, src } => OperationView::CopyDir {
                component: component@,
                path: path@,
                src: src@,
            },
            Operation::WriteFile { component, path, content } => OperationView::WriteFile {
                component: component@,
                path: path@,
                content: content@,
            },
            Operation::RemoveFile { component, path } => OperationView::RemoveFile {
                component: component@,
                path: path@,
            },
            Operation::RemoveDir { component, path } => OperationView::RemoveDir {
                component: component@,
                path: path@,
            },
            Operation::ModifyFile { path } => OperationView::ModifyFile { path: path@ },
        }
    }
}

impl DeepView for Operation {
    type V = OperationView;

    open spec fn deep_view(&self) -> OperationView {
        self@
    }
}

impl OperationView {
    /// The path that the operation is about.
    pub open spec fn path(self) -> Seq<char> {
        match self {
            OperationView::AddFile { path, .. } => path,
            OperationView::CopyFile { path, .. } => path,
            OperationView::CopyDir { path, .. } => path,
            OperationView::WriteFile { path, .. } => path,
            OperationView::RemoveFile { path, .. } => path,
            OperationView::RemoveDir { path, .. } => path,
            OperationView::ModifyFile { path } => path,
        }
    }
}

impl Operation {
    /// The path that the operation is about: the one whose state the caller
    /// reports when it stages the operation.
    pub fn path(&self) -> (path: &String)
        ensures
            path@ == self@.path(),
    {
        match self {
            Operation::AddFile { path, .. } => path,
            Operation::CopyFile { path, .. } => path,
            Operation::CopyDir { path, .. } => path,
            Operation::WriteFile { path, .. } => path,
            Operation::RemoveFile { path, .. } => path,
            Operation::RemoveDir { path, .. } => path,
            Operation::ModifyFile { path } => path,
        }
    }
}

impl Clone for Operation {
    fn clone(&self) -> (copy: Operation)
        ensures
            copy@ == self@,
    {
        match self {
            Operation::AddFile { component, path } => Operation::AddFile {
                component: component.clone(),
                path: path.clone(),
            },
            Operation::CopyFile { component, path, src } => Operation::CopyFile {
                component: component.clone(),
                path: path.clone(),
                src: src.clone(),
            },
            Operation::CopyDir { component, path, src } => Operation::CopyDir {
                component: component.clone(),
                path: path.clone(),
                src: src.clone(),
            },
            Operation::WriteFile { component, path, content } => Operation::WriteFile {
                component: component.clone(),
                path: path.clone(),
                content: content.clone(),
            },
            Operation::RemoveFile { component, path } => Operation::RemoveFile {
                component: component.clone(),
                path: path.clone(),
            },
            Operation::RemoveDir { component, path } => Operation::RemoveDir {
                component: component.clone(),
                path: path.clone(),
            },
            Operation::ModifyFile { path } => Operation::ModifyFile { path: path.clone() },
        }
    }
}

/// One step of a plan that the caller runs through a transaction.
#[derive(Debug)]
pub enum Step {
    /// Stage the operation, and carry out its effect.
    Stage { op: Operation },
    /// Overwrite the file at `path`, which the step before put under
    /// modification.
    Write { path: String, content: String },
}

/// The mathematical value of a [`Step`].
pub enum StepView {
    Stage { op: OperationView },
    Write { path: Seq<char>, content: Seq<char> },
}

impl View for Step {
    type V = StepView;

    open spec fn view(&self) -> StepView {
        match *self {
            Step::Stage { op } => StepView::Stage { op: op@ },
            Step::Write { path, content } => StepView::Write { path: path@, content: content@ },
        }
    }
}

impl DeepView for Step {
    type V = StepView;

    open spec fn deep_view(&self) -> StepView {
        self@
    }
}

impl Clone for Step {
    fn clone(&self) -> (copy: Step)
        ensures
            copy@ == self@,
    {
        match self {
            Step::Stage { op } => Step::Stage { op: op.clone() },
            Step::Write { path, content } => Step::Write {
                path: path.clone(),
                content: content.clone(),
            },
        }
    }
}

/// Whether every write of a plan comes right after the step that puts its
/// path under modification.
pub open spec fn writes_announced(steps: Seq<StepView>) -> bool {
    forall|i: int|
        0 <= i < steps.len() && (#[trigger] steps[i]) is Write ==> i > 0 && steps[i - 1] == (
        StepView::Stage { op: OperationView::ModifyFile { path: steps[i]->path } })
}

/// Whether every step of a plan stages an operation.
pub open spec fn all_staged(steps: Seq<StepView>) -> bool {
    forall|i: int| 0 <= i < steps.len() ==> (#[trigger] steps[i]) is Stage
}

/// A plan without writes announces all its writes.
pub proof fn staged_steps_announce(steps: Seq<StepView>)
    requires
        all_staged(steps),
    ensures
        writes_announced(steps),
{
}

/// Two plans that announce their writes do so when one is run after the
/// other.
pub proof fn announced_steps_concat(first: Seq<StepView>, second: Seq<StepView>)
    requires
        writes_announced(first),
        writes_announced(second),
    ensures
        writes_announced(first + second),
{
    let both = first + second;
    assert forall|i: int| 0 <= i < both.len() && (#[trigger] both[i]) is Write implies i > 0
        && both[i - 1] == (StepView::Stage {
        op: OperationView::ModifyFile { path: both[i]->path },
    }) by {
        if i < first.len() {
            assert(both[i] == first[i]);
            assert(both[i - 1] == first[i - 1]);
        } else {
            let k = i - first.len();
            assert(both[i] == second[k]);
            assert(k > 0);
            assert(both[i - 1] == second[k - 1]);
        }
    }
}

/// Puts `step` at the end of `steps`.
pub fn push_step(steps: &mut Vec<Step>, step: Step)
    ensures
        final(steps).deep_view() == old(steps).deep_view().push(step@),
{
    let ghost before = steps.deep_view();
    steps.push(step);
    assert(steps.deep_view() =~= before.push(step@));
}

/// Puts the steps of `more` at the end of `steps`.
pub fn push_steps(steps: &mut Vec<Step>, more: &Vec<Step>)
    ensures
        final(steps).deep_view() == old(steps).deep_view() + more.deep_view(),
{
    let mut i: usize = 0;
    assert(more.deep_view().take(0) =~= Seq::<StepView>::empty());
    assert(steps.deep_view() + Seq::<StepView>::empty() =~= steps.deep_view());
    while i < more.len()
        invariant
            i <= more.len(),
            steps.deep_view() == old(steps).deep_view() + more.deep_view().take(i as int),
        decreases more.len() - i,
    {
        let ghost before = steps.deep_view();
        push_step(steps, more[i].clone());
        assert(more.deep_view().take(i + 1) =~= more.deep_view().take(i as int).push(
            more[i as int]@,
        ));
        assert(steps.deep_view() =~= old(steps).deep_view() + more.deep_view().take(i + 1));
        i += 1;
    }
    assert(more.deep_view().take(more.len() as int) =~= more.deep_view());
}

/// What the caller must carry out on disk once an operation is staged.
/// A backup is a numbered place outside the prefix that belongs to the
/// transaction.
#[derive(Debug)]
pub enum Effect {
    /// Make the missing directories above `path` and create the file, empty.
    CreateFile { path: String },
    /// Make the missing directories above `path` and copy the file at `src`
    /// there.
    CopyFile { path: String, src: String },
    /// Copy the tree at `src` to `path`.
    CopyDir { path: String, src: String },
    /// Make the missing directories above `path` and write the file.
    WriteFile { path: String, content: String },
    /// Move the file at `path` to the backup.
    MoveFileToBackup { path: String, backup: usize },
    /// Move the directory at `path` to the backup.
    MoveDirToBackup { path: String, backup: usize },
    /// Copy the file at `path` to the backup and leave it where it is.
    CopyFileToBackup { path: String, backup: usize },
    /// Make the missing directories above `path`.
    PrepareParent { path: String },
    /// Nothing is left to do.
    Nothing,
}

/// The mathematical value of an [`Effect`].
pub enum EffectView {
    CreateFile { path: Seq<char> },
    CopyFile { path: Seq<char>, src: Seq<char> },
    CopyDir { path: Seq<char>, src: Seq<char> },
    WriteFile { path: Seq<char>, content: Seq<char> },
    MoveFileToBackup { path: Seq<char>, backup: int },
    MoveDirToBackup { path: Seq<char>, backup: int },
    CopyFileToBackup { path: Seq<char>, backup: int },
    PrepareParent { path: Seq<char> },
    Nothing,
}

impl View for Effect {
    type V = EffectView;

    open spec fn view(&self) -> EffectView {
        match *self {
            Effect::CreateFile { path } => EffectView::CreateFile { path: path@ },
            Effect::CopyFile { path, src } => EffectView::CopyFile { path: path@, src: src@ },
            Effect::CopyDir { path, src } => EffectView::CopyDir { path: path@, src: src@ },
            Effect::WriteFile { path, content } => EffectView::WriteFile {
                path: path@,
                content: content@,
            },
            Effect::MoveFileToBackup { path, backup } => EffectView::MoveFileToBackup {
                path: path@,
                backup: backup as int,
            },
            Effect::MoveDirToBackup { path, backup } => EffectView::MoveDirToBackup {
                path: path@,
                backup: backup as int,
            },
            Effect::CopyFileToBackup { path, backup } => EffectView::CopyFileToBackup {
                path: path@,
                backup: backup as int,
            },
            Effect::PrepareParent { path } => EffectView::PrepareParent { path: path@ },
            Effect::Nothing => EffectView::Nothing,
        }
    }
}

/// One record of the journal: what was done to a path, and so how to undo it.
#[derive(Debug)]
pub enum ChangedItem {
    /// A file was created: remove it.
    AddedFile { path: String },
    /// A directory was created: remove it.
    AddedDir { path: String },
    /// A file was moved to the backup: move it back.
    RemovedFile { path: String, backup: usize },
    /// A directory was moved to the backup: move it back.
    RemovedDir { path: String, backup: usize },
    /// A file was put under modification. With a backup, put the backup back
    /// in its place; without, the file did not exist: remove what is there
    /// now, if it is a file.
    ModifiedFile { path: String, saved: Option<usize> },
}

/// The mathematical value of a [`ChangedItem`].
pub enum ChangedItemView {
    AddedFile { path: Seq<char> },
    AddedDir { path: Seq<char> },
    RemovedFile { path: Seq<char>, backup: int },
    RemovedDir { path: Seq<char>, backup: int },
    ModifiedFile { path: Seq<char>, saved: Option<int> },
}

impl View for ChangedItem {
    type V = ChangedItemView;

    open spec fn view(&self) -> ChangedItemView {
        match *self {
            ChangedItem::AddedFile { path } => ChangedItemView::AddedFile { path: path@ },
            ChangedItem::AddedDir { path } => ChangedItemView::AddedDir { path: path@ },
            ChangedItem::RemovedFile { path, backup } => ChangedItemView::RemovedFile {
                path: path@,
                backup: backup as int,
            },
            ChangedItem::RemovedDir { path, backup } => ChangedItemView::RemovedDir {
                path: path@,
                backup: backup as int,
            },
            ChangedItem::ModifiedFile { path, saved } => ChangedItemView::ModifiedFile {
                path: path@,
                saved: match saved {
                    Some(b) => Some(b as int),
                    None => None,
                },
            },
        }
    }
}

impl DeepView for ChangedItem {
    type V = ChangedItemView;

    open spec fn deep_view(&self) -> ChangedItemView {
        self@
    }
}

impl ChangedItemView {
    /// The path that the record is about.
    pub open spec fn path(self) -> Seq<char> {
        match self {
            ChangedItemView::AddedFile { path } => path,
            ChangedItemView::AddedDir { path } => path,
            ChangedItemView::RemovedFile { path, .. } => path,
            ChangedItemView::RemovedDir { path, .. } => path,
            ChangedItemView::ModifiedFile { path, .. } => path,
        }
    }

    /// The backup that the record names, if it names one.
    pub open spec fn backup(self) -> Option<int> {
        match self {
            ChangedItemView::AddedFile { .. } => None,
            ChangedItemView::AddedDir { .. } => None,
            ChangedItemView::RemovedFile { backup, .. } => Some(backup),
            ChangedItemView::RemovedDir { backup, .. } => Some(backup),
            ChangedItemView::ModifiedFile { saved, .. } => saved,
        }
    }
}

impl Clone for ChangedItem {
    fn clone(&self) -> (copy: ChangedItem)
        ensures
            copy@ == self@,
    {
        match self {
            ChangedItem::AddedFile { path } => ChangedItem::AddedFile { path: path.clone() },
            ChangedItem::AddedDir { path } => ChangedItem::AddedDir { path: path.clone() },
            ChangedItem::RemovedFile { path, backup } => ChangedItem::RemovedFile {
                path: path.clone(),
                backup: *backup,
            },
            ChangedItem::RemovedDir { path, backup } => ChangedItem::RemovedDir {
                path: path.clone(),
                backup: *backup,
            },
            ChangedItem::ModifiedFile { path, saved } => ChangedItem::ModifiedFile {
                path: path.clone(),
                saved: *saved,
            },
        }
    }
}

/// Whether the journal already holds a record that `path` was put under
/// modification.
pub open spec fn modified_before(journal: Seq<ChangedItemView>, path: Seq<char>) -> bool {
    exists|i: int|
        0 <= i < journal.len() && (#[trigger] journal[i]) is ModifiedFile && journal[i].path()
            == path
}

/// The outcome of an operation that creates `path`: refused with a conflict
/// when anything stands there, else recorded as `item` with `effect` to carry
/// out.
pub open spec fn staged_creation(
    journal: Seq<ChangedItemView>,
    component: Seq<char>,
    path: Seq<char>,
    seen: PathState,
    item: ChangedItemView,
    effect: EffectView,
) -> (Seq<ChangedItemView>, Result<EffectView, ErrorView>) {
    if seen == PathState::Absent {
        (journal.push(item), Ok(effect))
    } else {
        (journal, Err(ErrorView::ComponentConflict { name: component, path }))
    }
}

/// The outcome of an operation that removes `path`: refused with `missing`
/// when nothing stands there, else recorded as `item` with `effect` to carry
/// out.
pub open spec fn staged_removal(
    journal: Seq<ChangedItemView>,
    seen: PathState,
    missing: ErrorView,
    item: ChangedItemView,
    effect: EffectView,
) -> (Seq<ChangedItemView>, Result<EffectView, ErrorView>) {
    if seen == PathState::Absent {
        (journal, Err(missing))
    } else {
        (journal.push(item), Ok(effect))
    }
}

/// What a transaction with the given journal decides when `op` is staged and
/// the caller has seen `seen` at the operation's path: the journal afterwards,
/// and the effect to carry out or the reason for the refusal.
///
/// - An operation that creates a path is refused with `ComponentConflict`
///   when anything stands there. Else the path is recorded as added.
/// - An operation that removes a path is refused with `ComponentMissingFile`
///   or `ComponentMissingDir` when nothing stands there. Else the path is
///   moved to a backup of its own, and recorded with it.
/// - `ModifyFile` is never refused. The first time for a path, a file there
///   is copied to a backup of its own and recorded with it; where no file
///   stands, the path is recorded without a backup. Any later time nothing
///   is recorded and nothing is left to do, so that the backup made first
///   stays the one that counts.
///
/// The backup of a record is numbered by the record's place in the journal.
pub open spec fn staged(journal: Seq<ChangedItemView>, op: OperationView, seen: PathState) -> (
    Seq<ChangedItemView>,
    Result<EffectView, ErrorView>,
) {
    let backup = journal.len() as int;
    match op {
        OperationView::AddFile { component, path } => staged_creation(
            journal,
            component,
            path,
            seen,
            ChangedItemView::AddedFile { path },
            EffectView::CreateFile { path },
        ),
        OperationView::CopyFile { component, path, src } => staged_creation(
            journal,
            component,
            path,
            seen,
            ChangedItemView::AddedFile { path },
            EffectView::CopyFile { path, src },
        ),
        OperationView::CopyDir { component, path, src } => staged_creation(
            journal,
            component,
            path,
            seen,
            ChangedItemView::AddedDir { path },
            EffectView::CopyDir { path, src },
        ),
        OperationView::WriteFile { component, path, content } => staged_creation(
            journal,
            component,
            path,
            seen,
            ChangedItemView::AddedFile { path },
            EffectView::WriteFile { path, content },
        ),
        OperationView::RemoveFile { component, path } => staged_removal(
            journal,
            seen,
            ErrorView::ComponentMissingFile { name: component, path },
            ChangedItemView::RemovedFile { path, backup },
            EffectView::MoveFileToBackup { path, backup },
        ),
        OperationView::RemoveDir { component, path } => staged_removal(
            journal,
            seen,
            ErrorView::ComponentMissingDir { name: component, path },
            ChangedItemView::RemovedDir { path, backup },
            EffectView::MoveDirToBackup { path, backup },
        ),
        OperationView::ModifyFile { path } => {
            if modified_before(journal, path) {
                (journal, Ok(EffectView::Nothing))
            } else if seen == PathState::File {
                (
                    journal.push(ChangedItemView::ModifiedFile { path, saved: Some(backup) }),
                    Ok(EffectView::CopyFileToBackup { path, backup }),
                )
            } else {
                (
                    journal.push(ChangedItemView::ModifiedFile { path, saved: None }),
                    Ok(EffectView::PrepareParent { path }),
                )
            }
        },
    }
}

/// The value of what a staging call returns.
pub open spec fn outcome(res: Result<Effect, Error>) -> Result<EffectView, ErrorView> {
    match res {
        Ok(effect) => Ok(effect@),
        Err(e) => Err(e@),
    }
}

/// The backups that a journal names, in the order of its records.
pub open spec fn backups_of(journal: Seq<ChangedItemView>) -> Seq<int>
    decreases journal.len(),
{
    if journal.len() == 0 {
        Seq::empty()
    } else {
        match journal.last().backup() {
            Some(b) => backups_of(journal.drop_last()).push(b),
            None => backups_of(journal.drop_last()),
        }
    }
}

/// The journal of the operations staged against a prefix since the
/// transaction began. Its value is the sequence of its records, oldest first.
#[derive(Debug)]
pub struct Transaction {
    changes: Vec<ChangedItem>,
}

impl View for Transaction {
    type V = Seq<ChangedItemView>;

    closed spec fn view(&self) -> Seq<ChangedItemView> {
        self.changes.deep_view()
    }
}

impl Transaction {
    /// A transaction with nothing staged.
    pub fn new() -> (tx: Transaction)
        ensures
            tx@ == Seq::<ChangedItemView>::empty(),
    {
        let tx = Transaction { changes: Vec::new() };
        assert(tx.changes.deep_view() =~= Seq::<ChangedItemView>::empty());
        tx
    }

    fn change(&mut self, item: ChangedItem)
        ensures
            final(self)@ == old(self)@.push(item@),
    {
        let ghost before = self.changes.deep_view();
        self.changes.push(item);
        assert(self.changes.deep_view() =~= before.push(item@));
    }

    fn has_modified(&self, path: &String) -> (found: bool)
        ensures
            found == modified_before(self@, path@),
    {
        let mut i: usize = 0;
        while i < self.changes.len()
            invariant
                i <= self.changes.len(),
                forall|j: int|
                    0 <= j < i ==> !((#[trigger] self@[j]) is ModifiedFile && self@[j].path()
                        == path@),
            decreases self.changes.len() - i,
        {
            assert(self@[i as int] == self.changes[i as int]@);
            match &self.changes[i] {
                ChangedItem::ModifiedFile { path: p, .. } => {
                    if *p == *path {
                        return true;
                    }
                },
                _ => {},
            }
            i += 1;
        }
        false
    }

    /// Stages the creation of a file at `path` that the caller fills
    /// afterwards. Refused with `ComponentConflict` when anything stands at
    /// `path`.
    pub fn add_file(&mut self, component: &str, path: String, seen: PathState) -> (res: Result<
        Effect,
        Error,
    >)
        ensures
            (final(self)@, outcome(res)) == staged(
                old(self)@,
                OperationView::AddFile { component: component@, path: path@ },
                seen,
            ),
    {
        if seen != PathState::Absent {
            return Err(Error::ComponentConflict { name: component.to_owned(), path });
        }
        self.change(ChangedItem::AddedFile { path: path.clone() });
        Ok(Effect::CreateFile { path })
    }

    /// Stages the creation of a file at `path` as a copy of the file at
    /// `src`. Refused with `ComponentConflict` when anything stands at `path`.
    pub fn copy_file(&mut self, component: &str, path: String, src: &str, seen: PathState) -> (res:
        Result<Effect, Error>)
        ensures
            (final(self)@, outcome(res)) == staged(
                old(self)@,
                OperationView::CopyFile { component: component@, path: path@, src: src@ },
                seen,
            ),
    {
        if seen != PathState::Absent {
            return Err(Error::ComponentConflict { name: component.to_owned(), path });
        }
        self.change(ChangedItem::AddedFile { path: path.clone() });
        Ok(Effect::CopyFile { path, src: src.to_owned() })
    }

    /// Stages the creation of a directory at `path` as a copy of the tree at
    /// `src`. Refused with `ComponentConflict` when anything stands at `path`.
    pub fn copy_dir(&mut self, component: &str, path: String, src: &str, seen: PathState) -> (res:
        Result<Effect, Error>)
        ensures
            (final(self)@, outcome(res)) == staged(
                old(self)@,
                OperationView::CopyDir { component: component@, path: path@, src: src@ },
                seen,
            ),
    {
        if seen != PathState::Absent {
            return Err(Error::ComponentConflict { name: component.to_owned(), path });
        }
        self.change(ChangedItem::AddedDir { path: path.clone() });
        Ok(Effect::CopyDir { path, src: src.to_owned() })
    }

    /// Stages the creation of a file at `path` with the given content.
    /// Refused with `ComponentConflict` when anything stands at `path`.
    pub fn write_file(
        &mut self,
        component: &str,
        path: String,
        content: String,
        seen: PathState,
    ) -> (res: Result<Effect, Error>)
        ensures
            (final(self)@, outcome(res)) == staged(
                old(self)@,
                OperationView::WriteFile { component: component@, path: path@, content: content@ },
                seen,
            ),
    {
        if seen != PathState::Absent {
            return Err(Error::ComponentConflict { name: component.to_owned(), path });
        }
        self.change(ChangedItem::AddedFile { path: path.clone() });
        Ok(Effect::WriteFile { path, content })
    }

    /// Stages the removal of the file at `path`. Refused with
    /// `ComponentMissingFile` when nothing stands there.
    pub fn remove_file(&mut self, component: &str, path: String, seen: PathState) -> (res: Result<
        Effect,
        Error,
    >)
        ensures
            (final(self)@, outcome(res)) == staged(
                old(self)@,
                OperationView::RemoveFile { component: component@, path: path@ },
                seen,
            ),
    {
        if seen == PathState::Absent {
            return Err(Error::ComponentMissingFile { name: component.to_owned(), path });
        }
        let backup = self.changes.len();
        self.change(ChangedItem::RemovedFile { path: path.clone(), backup });
        Ok(Effect::MoveFileToBackup { path, backup })
    }

    /// Stages the removal of the directory at `path`. Refused with
    /// `ComponentMissingDir` when nothing stands there.
    pub fn remove_dir(&mut self, component: &str, path: String, seen: PathState) -> (res: Result<
        Effect,
        Error,
    >)
        ensures
            (final(self)@, outcome(res)) == staged(
                old(self)@,
                OperationView::RemoveDir { component: component@, path: path@ },
                seen,
            ),
    {
        if seen == PathState::Absent {
            return Err(Error::ComponentMissingDir { name: component.to_owned(), path });
        }
        let backup = self.changes.len();
        self.change(ChangedItem::RemovedDir { path: path.clone(), backup });
        Ok(Effect::MoveDirToBackup { path, backup })
    }

    /// Announces that the caller is about to overwrite the file at `path`.
    /// Never refused. Only the first announcement for a path makes a backup.
    pub fn modify_file(&mut self, path: String, seen: PathState) -> (res: Result<Effect, Error>)
        ensures
            (final(self)@, outcome(res)) == staged(
                old(self)@,
                OperationView::ModifyFile { path: path@ },
                seen,
            ),
    {
        if self.has_modified(&path) {
            return Ok(Effect::Nothing);
        }
        if seen == PathState::File {
            let backup = self.changes.len();
            self.change(ChangedItem::ModifiedFile { path: path.clone(), saved: Some(backup) });
            Ok(Effect::CopyFileToBackup { path, backup })
        } else {
            self.change(ChangedItem::ModifiedFile { path: path.clone(), saved: None });
            Ok(Effect::PrepareParent { path })
        }
    }

    /// Stages `op`, of whose path the caller has seen `seen`: see [`staged`].
    pub fn stage(&mut self, op: &Operation, seen: PathState) -> (res: Result<Effect, Error>)
        ensures
            (final(self)@, outcome(res)) == staged(old(self)@, op@, seen),
    {
        match op {
            Operation::AddFile { component, path } => self.add_file(
                component.as_str(),
                path.clone(),
                seen,
            ),
            Operation::CopyFile { component, path, src } => self.copy_file(
                component.as_str(),
                path.clone(),
                src.as_str(),
                seen,
            ),
            Operation::CopyDir { component, path, src } => self.copy_dir(
                component.as_str(),
                path.clone(),
                src.as_str(),
                seen,
            ),
            Operation::WriteFile { component, path, content } => self.write_file(
                component.as_str(),
                path.clone(),
                content.clone(),
                seen,
            ),
            Operation::RemoveFile { component, path } => self.remove_file(
                component.as_str(),
                path.clone(),
                seen,
            ),
            Operation::RemoveDir { component, path } => self.remove_dir(
                component.as_str(),
                path.clone(),
                seen,
            ),
            Operation::ModifyFile { path } => self.modify_file(path.clone(), seen),
        }
    }

    /// Ends the transaction and keeps what was done. Hands back the backups
    /// that the journal names, which are of no use any more.
    pub fn commit(self) -> (backups: Vec<usize>)
        ensures
            backups@.map_values(|b: usize| b as int) == backups_of(self@),
    {
        let mut backups: Vec<usize> = Vec::new();
        let mut i: usize = 0;
        assert(self@.take(0) =~= Seq::<ChangedItemView>::empty());
        while i < self.changes.len()
            invariant
                i <= self.changes.len(),
                backups@.map_values(|b: usize| b as int) == backups_of(self@.take(i as int)),
            decreases self.changes.len() - i,
        {
            let ghost before = backups@.map_values(|b: usize| b as int);
            proof {
                assert(self@.take(i + 1).drop_last() =~= self@.take(i as int));
                assert(self@.take(i + 1).last() == self.changes[i as int]@);
            }
            match &self.changes[i] {
                ChangedItem::RemovedFile { backup, .. } => {
                    backups.push(*backup);
                    assert(backups@.map_values(|b: usize| b as int) =~= before.push(*backup as int));
                },
                ChangedItem::RemovedDir { backup, .. } => {
                    backups.push(*backup);
                    assert(backups@.map_values(|b: usize| b as int) =~= before.push(*backup as int));
                },
                ChangedItem::ModifiedFile { saved: Some(backup), .. } => {
                    backups.push(*backup);
                    assert(backups@.map_values(|b: usize| b as int) =~= before.push(*backup as int));
                },
                _ => {},
            }
            i += 1;
        }
        assert(self@.take(self.changes.len() as int) =~= self@);
        backups
    }

    /// Ends the transaction and gives up what was done. Hands back the
    /// records of the journal, the last one first: the caller undoes each in
    /// this order, and goes on to the next where one cannot be undone.
    pub fn rollback(self) -> (undo: Vec<ChangedItem>)
        ensures
            undo.deep_view() == self@.reverse(),
    {
        let mut undo: Vec<ChangedItem> = Vec::new();
        let n = self.changes.len();
        let mut i: usize = 0;
        while i < n
            invariant
                i <= n,
                n == self.changes.len(),
                undo.len() == i,
                forall|j: int| 0 <= j < i ==> undo[j]@ == self.changes[n - 1 - j]@,
            decreases n - i,
        {
            undo.push(self.changes[n - 1 - i].clone());
            i += 1;
        }
        assert(undo.deep_view() =~= self@.reverse());
        undo
    }
}

} // verus!
