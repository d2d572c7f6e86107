//! A model of the prefix on disk, and what rollback restores.
//!
//! The prefix is taken as a map from the relative paths that operations name
//! to what stands there: a file with its bytes, or a directory with all that
//! it holds, as one value. Directories that exist only to hold such entries
//! are not part of the model, and that one path may lie inside the directory
//! at another is not modelled. The backups of a transaction are a second map,
//! from their numbers.

use crate::errors::ErrorView;
use crate::transaction::{
    staged, writes_announced, ChangedItemView, EffectView, OperationView, PathState, StepView,
};
use vstd::prelude::*;
use vstd::utf8::encode_utf8;

verus! {

/// What stands at a path.
pub enum Node {
    File { content: Seq<u8> },
    Dir { tree: Map<Seq<char>, Seq<u8>> },
}

/// The prefix and the backups of one transaction.
pub struct Disk {
    pub prefix: Map<Seq<char>, Node>,
    pub backups: Map<int, Node>,
}

/// What a caller sees at `path`.
pub open spec fn seen_at(disk: Disk, path: Seq<char>) -> PathState {
    if !disk.prefix.contains_key(path) {
        PathState::Absent
    } else if disk.prefix[path] is File {
        PathState::File
    } else {
        PathState::Directory
    }
}

/// `disk` with `node` at `path`.
pub open spec fn put(disk: Disk, path: Seq<char>, node: Node) -> Disk {
    Disk { prefix: disk.prefix.insert(path, node), backups: disk.backups }
}

/// `disk` with nothing at `path`.
pub open spec fn cleared(disk: Disk, path: Seq<char>) -> Disk {
    Disk { prefix: disk.prefix.remove(path), backups: disk.backups }
}

/// Whether `after` is `before` with `effect` carried out.
pub open spec fn carried_out(effect: EffectView, before: Disk, after: Disk) -> bool {
    match effect {
        EffectView::CreateFile { path } => after.prefix.contains_key(path) && after.prefix[path]
            is File && after == put(before, path, after.prefix[path]),
        EffectView::CopyFile { path, .. } => after.prefix.contains_key(path) && after.prefix[path]
            is File && after == put(before, path, after.prefix[path]),
        EffectView::CopyDir { path, .. } => after.prefix.contains_key(path) && after.prefix[path]
            is Dir && after == put(before, path, after.prefix[path]),
        EffectView::WriteFile { path, content } => after == put(
            before,
            path,
            Node::File { content: encode_utf8(content) },
        ),
        EffectView::MoveFileToBackup { path, backup } => after == (Disk {
            prefix: before.prefix.remove(path),
            backups: before.backups.insert(backup, before.prefix[path]),
        }),
        EffectView::MoveDirToBackup { path, backup } => after == (Disk {
            prefix: before.prefix.remove(path),
            backups: before.backups.insert(backup, before.prefix[path]),
        }),
        EffectView::CopyFileToBackup { path, backup } => after == (Disk {
            prefix: before.prefix,
            backups: before.backups.insert(backup, before.prefix[path]),
        }),
        EffectView::PrepareParent { .. } => after == before,
        EffectView::Nothing => after == before,
    }
}

/// `disk` with the backup put back at `path`. Without the backup there is
/// nothing to put back, and the disk stays as it is.
pub open spec fn restored(disk: Disk, path: Seq<char>, backup: int) -> Disk {
    if disk.backups.contains_key(backup) {
        put(disk, path, disk.backups[backup])
    } else {
        disk
    }
}

/// `disk` with one record of a journal undone.
pub open spec fn undone(item: ChangedItemView, disk: Disk) -> Disk {
    match item {
        ChangedItemView::AddedFile { path } => cleared(disk, path),
        ChangedItemView::AddedDir { path } => cleared(disk, path),
        ChangedItemView::RemovedFile { path, backup } => restored(disk, path, backup),
        ChangedItemView::RemovedDir { path, backup } => restored(disk, path, backup),
        ChangedItemView::ModifiedFile { path, saved: Some(backup) } => restored(
            disk,
            path,
            backup,
        ),
        ChangedItemView::ModifiedFile { path, saved: None } => if seen_at(disk, path)
            == PathState::File {
            cleared(disk, path)
        } else {
            disk
        },
    }
}

/// `disk` with the records of `undo` undone one after another, the first one
/// first. `undo` is what a rollback hands back: the journal, last record
/// first.
pub open spec fn rolled_back(undo: Seq<ChangedItemView>, disk: Disk) -> Disk
    decreases undo.len(),
{
    if undo.len() == 0 {
        disk
    } else {
        rolled_back(undo.drop_first(), undone(undo[0], disk))
    }
}

/// One thing that happens to the disk while a transaction is open.
pub enum Happening {
    /// The caller staged `op`, having seen `seen` at its path, and carried out
    /// the effect unless the operation was refused.
    Staged { op: OperationView, seen: PathState },
    /// The caller wrote a file at a path that the journal has a record of.
    Written { path: Seq<char>, content: Seq<u8> },
}

/// Whether the journal has a record about `path`.
pub open spec fn recorded(journal: Seq<ChangedItemView>, path: Seq<char>) -> bool {
    exists|i: int| 0 <= i < journal.len() && (#[trigger] journal[i]).path() == path
}

/// The journal once `what` has happened.
pub open spec fn journal_after(journal: Seq<ChangedItemView>, what: Happening) -> Seq<
    ChangedItemView,
> {
    match what {
        Happening::Staged { op, seen } => staged(journal, op, seen).0,
        Happening::Written { .. } => journal,
    }
}

/// Whether `what` can happen to `before` under the given journal, and leaves
/// `after`.
pub open spec fn happened(
    journal: Seq<ChangedItemView>,
    what: Happening,
    before: Disk,
    after: Disk,
) -> bool {
    match what {
        Happening::Staged { op, seen } => seen == seen_at(before, op.path()) && match staged(
            journal,
            op,
            seen,
        ).1 {
            Ok(effect) => carried_out(effect, before, after),
            Err(_) => after == before,
        },
        Happening::Written { path, content } => recorded(journal, path) && seen_at(before, path)
            != PathState::Directory && after == put(before, path, Node::File { content }),
    }
}

/// A happening together with the disk that it leaves.
pub struct Moment {
    pub what: Happening,
    pub after: Disk,
}

/// The journal of a transaction after `history`.
pub open spec fn journal_of(history: Seq<Moment>) -> Seq<ChangedItemView>
    decreases history.len(),
{
    if history.len() == 0 {
        Seq::empty()
    } else {
        journal_after(journal_of(history.drop_last()), history.last().what)
    }
}

/// The disk after `history`, which began on `start`.
pub open spec fn disk_after(start: Disk, history: Seq<Moment>) -> Disk {
    if history.len() == 0 {
        start
    } else {
        history.last().after
    }
}

/// Whether `history` is the course of one transaction that began on `start`
/// with nothing staged: each moment happened to the disk that the moment
/// before left, under the journal as it was then.
pub open spec fn faithful(start: Disk, history: Seq<Moment>) -> bool
    decreases history.len(),
{
    history.len() > 0 ==> {
        &&& faithful(start, history.drop_last())
        &&& happened(
            journal_of(history.drop_last()),
            history.last().what,
            disk_after(start, history.drop_last()),
            history.last().after,
        )
    }
}

/// Each record that names a backup names the one numbered by its own place.
pub open spec fn backups_by_place(journal: Seq<ChangedItemView>) -> bool {
    forall|i: int|
        0 <= i < journal.len() && (#[trigger] journal[i]).backup() is Some ==> journal[i].backup()
            == Some(i)
}

/// The backups on disk are those that the journal names.
pub open spec fn backups_kept(journal: Seq<ChangedItemView>, disk: Disk) -> bool {
    &&& forall|b: int| #[trigger] disk.backups.contains_key(b) ==> 0 <= b < journal.len()
    &&& forall|i: int|
        0 <= i < journal.len() && (#[trigger] journal[i]).backup() is Some
            ==> disk.backups.contains_key(i)
}

proof fn rolled_back_last(journal: Seq<ChangedItemView>, item: ChangedItemView, disk: Disk)
    ensures
        rolled_back(journal.push(item).reverse(), disk) == rolled_back(
            journal.reverse(),
            undone(item, disk),
        ),
{
    let undo = journal.push(item).reverse();
    assert(undo[0] == item);
    assert(undo.drop_first() =~= journal.reverse());
}

/// Two disks with the same prefix, and the same backups as far as `undo`
/// names them, roll back to the same prefix.
proof fn rolled_back_same_prefix(undo: Seq<ChangedItemView>, a: Disk, b: Disk)
    requires
        a.prefix == b.prefix,
        forall|i: int|
            0 <= i < undo.len() && (#[trigger] undo[i]).backup() is Some ==> {
                let n = undo[i].backup()->0;
                a.backups.contains_key(n) == b.backups.contains_key(n) && (a.backups.contains_key(
                    n,
                ) ==> a.backups[n] == b.backups[n])
            },
    ensures
        rolled_back(undo, a).prefix == rolled_back(undo, b).prefix,
    decreases undo.len(),
{
    if undo.len() > 0 {
        let first = undo[0];
        let rest = undo.drop_first();
        assert forall|i: int| 0 <= i < rest.len() && (#[trigger] rest[i]).backup() is Some implies {
            let n = rest[i].backup()->0;
            undone(first, a).backups.contains_key(n) == undone(first, b).backups.contains_key(n)
                && (undone(first, a).backups.contains_key(n) ==> undone(first, a).backups[n]
                == undone(first, b).backups[n])
        } by {
            assert(rest[i] == undo[i + 1]);
        }
        rolled_back_same_prefix(rest, undone(first, a), undone(first, b));
    }
}

/// Two disks that differ only in the file at `path` roll back to the same
/// prefix when `undo` has a record about `path` whose backup, if it names
/// one, is there.
proof fn rolled_back_despite_write(undo: Seq<ChangedItemView>, path: Seq<char>, a: Disk, b: Disk)
    requires
        a.backups == b.backups,
        a.prefix.remove(path) == b.prefix.remove(path),
        seen_at(a, path) != PathState::Directory,
        seen_at(b, path) != PathState::Directory,
        exists|i: int|
            0 <= i < undo.len() && (#[trigger] undo[i]).path() == path && (undo[i].backup() is Some
                ==> a.backups.contains_key(undo[i].backup()->0)),
    ensures
        rolled_back(undo, a).prefix == rolled_back(undo, b).prefix,
    decreases undo.len(),
{
    let k = choose|i: int|
        0 <= i < undo.len() && (#[trigger] undo[i]).path() == path && (undo[i].backup() is Some
            ==> a.backups.contains_key(undo[i].backup()->0));
    let first = undo[0];
    let rest = undo.drop_first();
    let a1 = undone(first, a);
    let b1 = undone(first, b);
    if first.path() == path && (first.backup() is Some ==> a.backups.contains_key(
        first.backup()->0,
    )) {
        assert(a1.prefix =~= b1.prefix) by {
            assert(a.prefix.remove(path).insert(path, a.prefix[path]).remove(path)
                =~= a.prefix.remove(path));
            match first {
                ChangedItemView::AddedFile { .. } => {},
                ChangedItemView::AddedDir { .. } => {},
                ChangedItemView::RemovedFile { backup, .. } => {
                    assert(a.prefix.insert(path, a.backups[backup]) =~= a.prefix.remove(
                        path,
                    ).insert(path, a.backups[backup]));
                    assert(b.prefix.insert(path, a.backups[backup]) =~= b.prefix.remove(
                        path,
                    ).insert(path, a.backups[backup]));
                },
                ChangedItemView::RemovedDir { backup, .. } => {
                    assert(a.prefix.insert(path, a.backups[backup]) =~= a.prefix.remove(
                        path,
                    ).insert(path, a.backups[backup]));
                    assert(b.prefix.insert(path, a.backups[backup]) =~= b.prefix.remove(
                        path,
                    ).insert(path, a.backups[backup]));
                },
                ChangedItemView::ModifiedFile { saved: Some(backup), .. } => {
                    assert(a.prefix.insert(path, a.backups[backup]) =~= a.prefix.remove(
                        path,
                    ).insert(path, a.backups[backup]));
                    assert(b.prefix.insert(path, a.backups[backup]) =~= b.prefix.remove(
                        path,
                    ).insert(path, a.backups[backup]));
                },
                ChangedItemView::ModifiedFile { saved: None, .. } => {
                    if seen_at(a, path) == PathState::Absent {
                        assert(a.prefix.remove(path) =~= a.prefix);
                    }
                    if seen_at(b, path) == PathState::Absent {
                        assert(b.prefix.remove(path) =~= b.prefix);
                    }
                },
            }
        }
        rolled_back_same_prefix(rest, a1, b1);
    } else {
        assert(k > 0);
        assert(rest[k - 1] == undo[k]);
        assert(a1.backups == b1.backups);
        if first.path() == path {
            assert(a1 == a && b1 == b);
        } else {
            let q = first.path();
            assert(a.prefix.contains_key(q) == b.prefix.contains_key(q)) by {
                assert(a.prefix.remove(path).contains_key(q) == a.prefix.contains_key(q));
                assert(b.prefix.remove(path).contains_key(q) == b.prefix.contains_key(q));
            }
            assert(a.prefix.contains_key(q) ==> a.prefix[q] == b.prefix[q]) by {
                if a.prefix.contains_key(q) {
                    assert(a.prefix.remove(path)[q] == a.prefix[q]);
                    assert(b.prefix.remove(path)[q] == b.prefix[q]);
                }
            }
            assert(a1.prefix.remove(path) =~= b1.prefix.remove(path)) by {
                assert forall|x: Seq<char>| #[trigger]
                    a1.prefix.remove(path).contains_key(x) == b1.prefix.remove(path).contains_key(
                        x,
                    ) && (a1.prefix.remove(path).contains_key(x) ==> a1.prefix.remove(path)[x]
                        == b1.prefix.remove(path)[x]) by {
                    if x != path {
                        assert(a.prefix.remove(path).contains_key(x) == a.prefix.contains_key(x));
                        assert(b.prefix.remove(path).contains_key(x) == b.prefix.contains_key(x));
                        if a.prefix.contains_key(x) {
                            assert(a.prefix.remove(path)[x] == a.prefix[x]);
                            assert(b.prefix.remove(path)[x] == b.prefix[x]);
                        }
                    }
                }
            }
            assert(seen_at(a1, path) == seen_at(a, path));
            assert(seen_at(b1, path) == seen_at(b, path));
        }
        rolled_back_despite_write(rest, path, a1, b1);
    }
}

/// Staging an operation keeps the numbering of the backups.
proof fn staged_keeps_backups_by_place(
    journal: Seq<ChangedItemView>,
    op: OperationView,
    seen: PathState,
)
    requires
        backups_by_place(journal),
    ensures
        backups_by_place(staged(journal, op, seen).0),
{
    let next = staged(journal, op, seen).0;
    assert forall|i: int| 0 <= i < next.len() && (#[trigger] next[i]).backup() is Some implies next[i].backup()
        == Some(i) by {
        if i < journal.len() {
            assert(next[i] == journal[i]);
        }
    }
}

/// One faithful moment keeps what a rollback restores, and keeps the backups
/// in step with the journal.
proof fn moment_keeps_rollback(
    journal: Seq<ChangedItemView>,
    what: Happening,
    before: Disk,
    after: Disk,
)
    requires
        backups_by_place(journal),
        backups_kept(journal, before),
        happened(journal, what, before, after),
    ensures
        backups_by_place(journal_after(journal, what)),
        backups_kept(journal_after(journal, what), after),
        rolled_back(journal_after(journal, what).reverse(), after).prefix == rolled_back(
            journal.reverse(),
            before,
        ).prefix,
{
    match what {
        Happening::Staged { op, seen } => {
            staged_keeps_backups_by_place(journal, op, seen);
            let next = staged(journal, op, seen).0;
            if next != journal {
                let item = next.last();
                assert(next =~= journal.push(item));
                rolled_back_last(journal, item, after);
                let back = undone(item, after);
                let path = op.path();
                assert(back.prefix =~= before.prefix) by {
                    if seen == PathState::Absent {
                        assert(before.prefix.insert(path, after.prefix[path]).remove(path)
                            =~= before.prefix);
                    } else {
                        assert(before.prefix.remove(path).insert(path, before.prefix[path])
                            =~= before.prefix);
                        assert(before.prefix.insert(path, before.prefix[path]) =~= before.prefix);
                    }
                }
                assert forall|i: int|
                    0 <= i < journal.reverse().len() && (#[trigger] journal.reverse()[i]).backup()
                        is Some implies {
                    let n = journal.reverse()[i].backup()->0;
                    back.backups.contains_key(n) == before.backups.contains_key(n) && (
                    back.backups.contains_key(n) ==> back.backups[n] == before.backups[n])
                } by {
                    let at = journal.len() - 1 - i;
                    assert(journal.reverse()[i] == journal[at]);
                    assert(journal[at].backup() == Some(at));
                }
                rolled_back_same_prefix(journal.reverse(), back, before);
                assert forall|i: int|
                    0 <= i < next.len() && (#[trigger] next[i]).backup() is Some implies after.backups.contains_key(
                    i,
                ) by {
                    if i < journal.len() {
                        assert(next[i] == journal[i]);
                    }
                }
            }
        },
        Happening::Written { path, content } => {
            let at = choose|i: int| 0 <= i < journal.len() && (#[trigger] journal[i]).path() == path;
            let undo = journal.reverse();
            let place = journal.len() - 1 - at;
            assert(undo[place] == journal[at]);
            assert(after.prefix.remove(path) =~= before.prefix.remove(path));
            assert(undo[place].path() == path && (undo[place].backup() is Some
                ==> after.backups.contains_key(undo[place].backup()->0)));
            rolled_back_despite_write(undo, path, after, before);
        },
    }
}

/// What holds after every faithful history.
proof fn history_keeps_rollback(start: Disk, history: Seq<Moment>)
    requires
        start.backups == Map::<int, Node>::empty(),
        faithful(start, history),
    ensures
        backups_by_place(journal_of(history)),
        backups_kept(journal_of(history), disk_after(start, history)),
        rolled_back(journal_of(history).reverse(), disk_after(start, history)).prefix
            == start.prefix,
    decreases history.len(),
{
    if history.len() > 0 {
        let earlier = history.drop_last();
        history_keeps_rollback(start, earlier);
        moment_keeps_rollback(
            journal_of(earlier),
            history.last().what,
            disk_after(start, earlier),
            history.last().after,
        );
    } else {
        assert(journal_of(history).reverse() =~= Seq::<ChangedItemView>::empty());
    }
}

/// Whatever a transaction staged, and whatever the caller wrote at paths that
/// it had staged, rolling the transaction back leaves the prefix as it was
/// when the transaction began.
pub proof fn rollback_restores_prefix(start: Disk, history: Seq<Moment>)
    requires
        start.backups == Map::<int, Node>::empty(),
        faithful(start, history),
    ensures
        rolled_back(journal_of(history).reverse(), disk_after(start, history)).prefix
            == start.prefix,
{
    history_keeps_rollback(start, history);
}

/// The same holds when the effect of the operation staged last could not be
/// carried out and the disk was left as it was.
pub proof fn rollback_restores_prefix_after_failure(
    start: Disk,
    history: Seq<Moment>,
    op: OperationView,
    seen: PathState,
)
    requires
        start.backups == Map::<int, Node>::empty(),
        faithful(start, history),
        seen == seen_at(disk_after(start, history), op.path()),
    ensures
        rolled_back(staged(journal_of(history), op, seen).0.reverse(), disk_after(start, history)).prefix
            == start.prefix,
{
    history_keeps_rollback(start, history);
    let journal = journal_of(history);
    let disk = disk_after(start, history);
    let next = staged(journal, op, seen).0;
    if next != journal {
        let item = next.last();
        assert(next =~= journal.push(item));
        rolled_back_last(journal, item, disk);
        assert(undone(item, disk).prefix =~= disk.prefix);
        assert(undone(item, disk) == disk);
    }
}

/// The record that an operation leaves undoes the effect of the operation:
/// a path that was created is removed again, what was removed or put under
/// modification is put back from its backup, and the prefix is as it was
/// before the operation.
pub proof fn record_undoes_effect(
    journal: Seq<ChangedItemView>,
    op: OperationView,
    before: Disk,
    after: Disk,
)
    requires
        !before.backups.contains_key(journal.len() as int),
        staged(journal, op, seen_at(before, op.path())).0 != journal,
        happened(
            journal,
            Happening::Staged { op, seen: seen_at(before, op.path()) },
            before,
            after,
        ),
    ensures
        ({
            let later = staged(journal, op, seen_at(before, op.path())).0;
            &&& later == journal.push(later.last())
            &&& later.last().path() == op.path()
            &&& undone(later.last(), after).prefix == before.prefix
        }),
{
    let seen = seen_at(before, op.path());
    let later = staged(journal, op, seen).0;
    let path = op.path();
    assert(later =~= journal.push(later.last()));
    assert(undone(later.last(), after).prefix =~= before.prefix) by {
        if seen == PathState::Absent {
            assert(before.prefix.insert(path, after.prefix[path]).remove(path) =~= before.prefix);
        } else {
            assert(before.prefix.remove(path).insert(path, before.prefix[path])
                =~= before.prefix);
            assert(before.prefix.insert(path, before.prefix[path]) =~= before.prefix);
        }
    }
}

/// What stands at `path`, if anything does.
pub open spec fn at_path(disk: Disk, path: Seq<char>) -> Option<Node> {
    if disk.prefix.contains_key(path) {
        Some(disk.prefix[path])
    } else {
        None
    }
}

/// `disk` with those records of `undo` undone that could be: the record at
/// place `i` is undone where `done[i]` holds, and passed over where it does
/// not.
pub open spec fn rolled_back_where(undo: Seq<ChangedItemView>, done: Seq<bool>, disk: Disk) -> Disk
    decreases undo.len(),
{
    if undo.len() == 0 || done.len() != undo.len() {
        disk
    } else if done[0] {
        rolled_back_where(undo.drop_first(), done.drop_first(), undone(undo[0], disk))
    } else {
        rolled_back_where(undo.drop_first(), done.drop_first(), disk)
    }
}

/// The records of `undo` that are about `path`, in their order.
pub open spec fn records_about(undo: Seq<ChangedItemView>, path: Seq<char>) -> Seq<ChangedItemView>
    decreases undo.len(),
{
    if undo.len() == 0 {
        Seq::empty()
    } else if undo[0].path() == path {
        seq![undo[0]] + records_about(undo.drop_first(), path)
    } else {
        records_about(undo.drop_first(), path)
    }
}

/// What the records about one path leave at that path depends on what stood
/// there and on the backups, and on nothing else.
proof fn own_records_decide(undo: Seq<ChangedItemView>, path: Seq<char>, a: Disk, b: Disk)
    requires
        forall|i: int| 0 <= i < undo.len() ==> (#[trigger] undo[i]).path() == path,
        a.backups == b.backups,
        at_path(a, path) == at_path(b, path),
    ensures
        at_path(rolled_back(undo, a), path) == at_path(rolled_back(undo, b), path),
    decreases undo.len(),
{
    if undo.len() > 0 {
        let rest = undo.drop_first();
        assert(undo[0].path() == path);
        assert forall|i: int| 0 <= i < rest.len() implies (#[trigger] rest[i]).path() == path by {
            assert(rest[i] == undo[i + 1]);
        }
        own_records_decide(rest, path, undone(undo[0], a), undone(undo[0], b));
    }
}

proof fn records_about_are_about(undo: Seq<ChangedItemView>, path: Seq<char>)
    ensures
        forall|i: int|
            0 <= i < records_about(undo, path).len() ==> (#[trigger] records_about(
                undo,
                path,
            )[i]).path() == path,
    decreases undo.len(),
{
    if undo.len() > 0 {
        records_about_are_about(undo.drop_first(), path);
        let found = records_about(undo, path);
        let fewer = records_about(undo.drop_first(), path);
        assert forall|i: int| 0 <= i < found.len() implies (#[trigger] found[i]).path()
            == path by {
            if undo[0].path() == path {
                if i > 0 {
                    assert(found[i] == fewer[i - 1]);
                }
            } else {
                assert(found[i] == fewer[i]);
            }
        }
    }
}

/// What a rollback leaves at a path is what the records about that path
/// leave there, as long as each of them is undone; whether the records about
/// other paths are undone makes no difference.
proof fn other_records_do_not_matter(
    undo: Seq<ChangedItemView>,
    done: Seq<bool>,
    path: Seq<char>,
    disk: Disk,
)
    requires
        done.len() == undo.len(),
        forall|i: int| 0 <= i < undo.len() && (#[trigger] undo[i]).path() == path ==> done[i],
    ensures
        at_path(rolled_back_where(undo, done, disk), path) == at_path(
            rolled_back(records_about(undo, path), disk),
            path,
        ),
    decreases undo.len(),
{
    if undo.len() > 0 {
        let first = undo[0];
        let rest = undo.drop_first();
        let rest_done = done.drop_first();
        assert forall|i: int| 0 <= i < rest.len() && (#[trigger] rest[i]).path()
            == path implies rest_done[i] by {
            assert(rest[i] == undo[i + 1]);
            assert(rest_done[i] == done[i + 1]);
        }
        let own = records_about(undo, path);
        if first.path() == path {
            assert(done[0]);
            other_records_do_not_matter(rest, rest_done, path, undone(first, disk));
            assert(own[0] == first);
            assert(own.drop_first() =~= records_about(rest, path));
        } else {
            let next = if done[0] {
                undone(first, disk)
            } else {
                disk
            };
            other_records_do_not_matter(rest, rest_done, path, next);
            records_about_are_about(rest, path);
            assert(at_path(next, path) == at_path(disk, path));
            own_records_decide(records_about(rest, path), path, next, disk);
        }
    }
}

/// A rollback restores as much as it can: where some records cannot be
/// undone and are passed over, every path that none of them is about is
/// still left as it was when the transaction began.
pub proof fn rollback_is_best_effort(
    start: Disk,
    history: Seq<Moment>,
    done: Seq<bool>,
    path: Seq<char>,
)
    requires
        start.backups == Map::<int, Node>::empty(),
        faithful(start, history),
        done.len() == journal_of(history).len(),
        forall|i: int|
            0 <= i < done.len() && (#[trigger] journal_of(history).reverse()[i]).path() == path
                ==> done[i],
    ensures
        at_path(
            rolled_back_where(journal_of(history).reverse(), done, disk_after(start, history)),
            path,
        ) == at_path(start, path),
{
    let undo = journal_of(history).reverse();
    let disk = disk_after(start, history);
    let all = Seq::new(undo.len(), |i: int| true);
    history_keeps_rollback(start, history);
    other_records_do_not_matter(undo, done, path, disk);
    other_records_do_not_matter(undo, all, path, disk);
    all_done_is_rolled_back(undo, all, disk);
}

proof fn all_done_is_rolled_back(undo: Seq<ChangedItemView>, done: Seq<bool>, disk: Disk)
    requires
        done.len() == undo.len(),
        forall|i: int| 0 <= i < done.len() ==> #[trigger] done[i],
    ensures
        rolled_back_where(undo, done, disk) == rolled_back(undo, disk),
    decreases undo.len(),
{
    if undo.len() > 0 {
        assert(done[0]);
        assert forall|i: int| 0 <= i < done.drop_first().len() implies #[trigger] done.drop_first()[i] by {
            assert(done.drop_first()[i] == done[i + 1]);
        }
        all_done_is_rolled_back(undo.drop_first(), done.drop_first(), undone(undo[0], disk));
    }
}

/// Once a path is put under modification the journal has a record of it,
/// whether this was the first time or not: so the write that a plan makes
/// right after can happen.
pub proof fn modified_path_is_recorded(
    journal: Seq<ChangedItemView>,
    path: Seq<char>,
    seen: PathState,
)
    ensures
        staged(journal, OperationView::ModifyFile { path }, seen).1 is Ok,
        recorded(staged(journal, OperationView::ModifyFile { path }, seen).0, path),
{
    let next = staged(journal, OperationView::ModifyFile { path }, seen).0;
    if crate::transaction::modified_before(journal, path) {
        let i = choose|i: int|
            0 <= i < journal.len() && (#[trigger] journal[i]) is ModifiedFile && journal[i].path()
                == path;
        assert(next[i].path() == path);
    } else {
        assert(next[next.len() - 1].path() == path);
    }
}

/// Whether `moment` is what one step of a plan comes to, on the disk `before`
/// and under the given journal: an operation is staged with what is seen at
/// its path, is not refused, and its effect is carried out; a write puts a
/// file with the content at the path, where no directory stands.
pub open spec fn step_ran(
    step: StepView,
    journal: Seq<ChangedItemView>,
    before: Disk,
    moment: Moment,
) -> bool {
    match step {
        StepView::Stage { op } => {
            let seen = seen_at(before, op.path());
            &&& moment.what == (Happening::Staged { op, seen })
            &&& staged(journal, op, seen).1 is Ok
            &&& carried_out(staged(journal, op, seen).1->Ok_0, before, moment.after)
        },
        StepView::Write { path, content } => {
            &&& moment.what == (Happening::Written { path, content: encode_utf8(content) })
            &&& seen_at(before, path) != PathState::Directory
            &&& moment.after == put(before, path, Node::File { content: encode_utf8(content) })
        },
    }
}

/// Whether `history` is what running `steps`, one after another, through a
/// transaction with nothing staged comes to on the disk `start`.
pub open spec fn plan_ran(steps: Seq<StepView>, start: Disk, history: Seq<Moment>) -> bool {
    &&& history.len() == steps.len()
    &&& forall|i: int|
        0 <= i < steps.len() ==> step_ran(
            steps[i],
            journal_of(history.take(i)),
            disk_after(start, history.take(i)),
            #[trigger] history[i],
        )
}

/// The run of a plan that announces its writes is the course of one
/// transaction.
pub proof fn plan_run_is_faithful(steps: Seq<StepView>, start: Disk, history: Seq<Moment>)
    requires
        writes_announced(steps),
        plan_ran(steps, start, history),
    ensures
        faithful(start, history),
    decreases history.len(),
{
    if history.len() > 0 {
        let n = history.len() as int;
        let earlier = history.drop_last();
        let fewer = steps.drop_last();
        assert(history.take(n - 1) =~= earlier);
        assert forall|i: int| 0 <= i < fewer.len() implies step_ran(
            fewer[i],
            journal_of(earlier.take(i)),
            disk_after(start, earlier.take(i)),
            #[trigger] earlier[i],
        ) by {
            assert(earlier.take(i) =~= history.take(i));
            assert(earlier[i] == history[i]);
            assert(fewer[i] == steps[i]);
        }
        assert(writes_announced(fewer)) by {
            assert forall|i: int| 0 <= i < fewer.len() && (#[trigger] fewer[i]) is Write implies i
                > 0 && fewer[i - 1] == (StepView::Stage {
                op: OperationView::ModifyFile { path: fewer[i]->path },
            }) by {
                assert(fewer[i] == steps[i]);
                assert(steps[i] is Write);
                assert(fewer[i - 1] == steps[i - 1]);
            }
        }
        plan_run_is_faithful(fewer, start, earlier);
        let journal = journal_of(earlier);
        let before = disk_after(start, earlier);
        assert(step_ran(steps[n - 1], journal, before, history[n - 1]));
        match steps[n - 1] {
            StepView::Stage { .. } => {},
            StepView::Write { path, .. } => {
                assert(steps[n - 1] is Write);
                assert(n - 1 > 0);
                let announced = OperationView::ModifyFile { path };
                assert(steps[n - 2] == (StepView::Stage { op: announced }));
                assert(earlier.take(n - 2) =~= history.take(n - 2));
                assert(earlier.drop_last() =~= history.take(n - 2));
                assert(earlier.last() == history[n - 2]);
                let seen = seen_at(disk_after(start, history.take(n - 2)), path);
                assert(history[n - 2].what == (Happening::Staged { op: announced, seen }));
                modified_path_is_recorded(journal_of(history.take(n - 2)), path, seen);
            },
        }
    }
}

/// A plan that announces its writes can be given up at any step: however far
/// it was run through a transaction, the rollback of the transaction leaves
/// the prefix as it was.
pub proof fn plan_is_rolled_back(
    steps: Seq<StepView>,
    upto: int,
    start: Disk,
    history: Seq<Moment>,
)
    requires
        writes_announced(steps),
        0 <= upto <= steps.len(),
        start.backups == Map::<int, Node>::empty(),
        plan_ran(steps.take(upto), start, history),
    ensures
        rolled_back(journal_of(history).reverse(), disk_after(start, history)).prefix
            == start.prefix,
{
    let run = steps.take(upto);
    assert(writes_announced(run)) by {
        assert forall|i: int| 0 <= i < run.len() && (#[trigger] run[i]) is Write implies i > 0
            && run[i - 1] == (StepView::Stage {
            op: OperationView::ModifyFile { path: run[i]->path },
        }) by {
            assert(run[i] == steps[i]);
            assert(steps[i] is Write);
            assert(run[i - 1] == steps[i - 1]);
        }
    }
    plan_run_is_faithful(run, start, history);
    rollback_restores_prefix(start, history);
}

/// No two claims to one path: once a component has created a path, the
/// creation of the same path is refused with a conflict, whichever component
/// asks for it and whatever it wants to put there.
pub proof fn second_claim_is_refused(
    journal: Seq<ChangedItemView>,
    first: OperationView,
    second: OperationView,
    before: Disk,
    after: Disk,
)
    requires
        first is AddFile || first is CopyFile || first is CopyDir || first is WriteFile,
        second is AddFile || second is CopyFile || second is CopyDir || second is WriteFile,
        second.path() == first.path(),
        happened(
            journal,
            Happening::Staged { op: first, seen: seen_at(before, first.path()) },
            before,
            after,
        ),
        staged(journal, first, seen_at(before, first.path())).1 is Ok,
    ensures
        ({
            let later = staged(journal, first, seen_at(before, first.path())).0;
            &&& staged(later, second, seen_at(after, second.path())).0 == later
            &&& staged(later, second, seen_at(after, second.path())).1 matches Err(
                ErrorView::ComponentConflict { path, .. },
            ) && path == first.path()
        }),
{
}

/// A file that is put under modification twice, and overwritten after each
/// time, is rolled back to what it held before the first time.
pub proof fn first_backup_is_restored(
    start: Disk,
    path: Seq<char>,
    pristine: Seq<u8>,
    first: Seq<u8>,
    second: Seq<u8>,
)
    requires
        start.backups == Map::<int, Node>::empty(),
        start.prefix.contains_key(path),
        start.prefix[path] == (Node::File { content: pristine }),
    ensures
        ({
            let modify = OperationView::ModifyFile { path };
            let empty = Seq::<ChangedItemView>::empty();
            let journal = staged(empty, modify, PathState::File).0;
            let backed_up = Disk {
                prefix: start.prefix,
                backups: start.backups.insert(0, start.prefix[path]),
            };
            let once = put(backed_up, path, Node::File { content: first });
            let twice = put(once, path, Node::File { content: second });
            &&& staged(empty, modify, PathState::File).1 == Ok::<EffectView, ErrorView>(
                EffectView::CopyFileToBackup { path, backup: 0 },
            )
            &&& staged(journal, modify, seen_at(once, path)) == (
                journal,
                Ok::<EffectView, ErrorView>(EffectView::Nothing),
            )
            &&& rolled_back(journal.reverse(), twice).prefix == start.prefix
            &&& rolled_back(journal.reverse(), twice).prefix[path] == (Node::File {
                content: pristine,
            })
        }),
{
    let modify = OperationView::ModifyFile { path };
    let empty = Seq::<ChangedItemView>::empty();
    let item = ChangedItemView::ModifiedFile { path, saved: Some(0) };
    let journal = staged(empty, modify, PathState::File).0;
    assert(!crate::transaction::modified_before(empty, path));
    assert(journal =~= seq![item]);
    assert(journal[0] is ModifiedFile && journal[0].path() == path);
    assert(crate::transaction::modified_before(journal, path));
    let backed_up = Disk {
        prefix: start.prefix,
        backups: start.backups.insert(0, start.prefix[path]),
    };
    let once = put(backed_up, path, Node::File { content: first });
    let twice = put(once, path, Node::File { content: second });
    let undo = journal.reverse();
    assert(undo =~= seq![item]);
    assert(undo.drop_first() =~= empty);
    assert(twice.backups.contains_key(0));
    assert(twice.backups[0] == start.prefix[path]);
    assert(undone(item, twice).prefix =~= start.prefix);
    assert(rolled_back(undo, twice) == rolled_back(undo.drop_first(), undone(undo[0], twice)));
    assert(rolled_back(undo.drop_first(), undone(item, twice)) == undone(item, twice));
    assert(staged(empty, modify, PathState::File).1 == Ok::<EffectView, ErrorView>(
        EffectView::CopyFileToBackup { path, backup: 0 },
    ));
    assert(staged(journal, modify, seen_at(once, path)) == (
        journal,
        Ok::<EffectView, ErrorView>(EffectView::Nothing),
    ));
}

} // verus!
