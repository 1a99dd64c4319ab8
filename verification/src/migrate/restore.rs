//! What a rewrite does to the file system, and that it can be taken back.
use vstd::prelude::*;

use crate::inventory::expanded;
use crate::migrate::rewrite::{
    aside_of, backup_of, config_plan, symlink_plan, undo_plan, unedit_plan,
};
use crate::migrate::steps::{Answer, Op, Plan};
use crate::migrate::types::{BackupView, RewriteView};
use crate::tools::FieldView;

verus! {

/// What lies at a path.
pub enum Thing {
    /// A directory, with the files in it.
    Tree(Map<Seq<char>, Seq<char>>),
    /// A file.
    File(Seq<char>),
    /// A symlink.
    Link(Seq<char>),
}

/// A file system, as far as a rewrite is concerned with it: what lies in a
/// directory belongs to the directory. `edited` says what becomes of a text
/// when a field in it is rewritten.
pub struct Disk {
    pub things: Map<Seq<char>, Thing>,
    pub edited: spec_fn(Op, Seq<char>) -> Seq<char>,
}

impl Disk {
    /// There is something at the path, following a symlink.
    pub open spec fn there(self, path: Seq<char>) -> bool {
        self.things.contains_key(path) && match self.things[path] {
            Thing::Link(target) => self.things.contains_key(target),
            _ => true,
        }
    }

    /// The answer tells the truth about an operation. A directory is never
    /// renamed to where something lies that is not one.
    pub open spec fn tells(self, op: Op, a: Answer) -> bool {
        match op {
            Op::Exists { path } => (a == Answer::Yes) == self.there(path),
            Op::Present { path } => (a == Answer::Yes) == self.things.contains_key(path),
            Op::Rename { from, to } => a.fine() ==> self.things.contains_key(from) && (
            self.things[from] is Tree && self.things.contains_key(to) ==> self.things[to] is Tree),
            Op::CopyFile { from, .. } => a.fine() ==> self.things.contains_key(from)
                && self.things[from] is File,
            Op::RewriteField { path, .. } => a == Answer::Yes ==> self.things.contains_key(path)
                && self.things[path] is File,
            _ => true,
        }
    }

    /// The file system after an operation; one that failed has changed nothing.
    pub open spec fn with(self, op: Op, a: Answer) -> Disk {
        if !a.fine() {
            self
        } else {
            Disk {
                things: match op {
                    Op::Rename { from, to } => self.things.remove(from).insert(
                        to,
                        self.things[from],
                    ),
                    Op::Symlink { target, link } => self.things.insert(link, Thing::Link(target)),
                    Op::CopyFile { from, to } => self.things.insert(to, self.things[from]),
                    Op::RemoveFile { path } => self.things.remove(path),
                    Op::RemoveTree { path } => self.things.remove(path),
                    Op::RewriteField { path, .. } => if a == Answer::Yes {
                        self.things.insert(
                            path,
                            Thing::File((self.edited)(op, self.things[path]->File_0)),
                        )
                    } else {
                        self.things
                    },
                    _ => self.things,
                },
                ..self
            }
        }
    }
}

/// The answers to a procedure, each true of the file system as it was then.
pub open spec fn told<V>(
    plan: spec_fn(Seq<Answer>) -> Plan<V>,
    disk: Disk,
    seen: Seq<Answer>,
) -> bool
    decreases seen.len(),
{
    seen.len() == 0 || {
        let before = seen.drop_last();
        &&& told(plan, disk, before)
        &&& plan(before) matches Plan::Ask(op) && disk_then(plan, disk, before).tells(
            op,
            seen.last(),
        )
    }
}

/// The file system after the operations that were answered.
pub open spec fn disk_then<V>(
    plan: spec_fn(Seq<Answer>) -> Plan<V>,
    disk: Disk,
    seen: Seq<Answer>,
) -> Disk
    decreases seen.len(),
{
    if seen.len() == 0 {
        disk
    } else {
        let before = seen.drop_last();
        match plan(before) {
            Plan::Ask(op) => disk_then(plan, disk, before).with(op, seen.last()),
            _ => disk_then(plan, disk, before),
        }
    }
}

/// The installation of a symlink, as a procedure.
pub open spec fn linking(canonical: Seq<char>, target: Seq<char>, stamp: u64) -> spec_fn(
    Seq<Answer>,
) -> Plan<RewriteView> {
    |seen: Seq<Answer>| symlink_plan(canonical, target, stamp, seen)
}

/// The undo of a rewrite, as a procedure.
pub open spec fn undoing(outcome: RewriteView) -> spec_fn(Seq<Answer>) -> Plan<()> {
    |seen: Seq<Answer>| undo_plan(outcome, seen)
}

/// The editing of config files, as a procedure.
pub open spec fn editing(
    files: Seq<FieldView>,
    home: Option<Seq<char>>,
    src: Seq<char>,
    dst: Seq<char>,
    stamp: u64,
    backups: Seq<BackupView>,
) -> spec_fn(Seq<Answer>) -> Plan<RewriteView> {
    |seen: Seq<Answer>| config_plan(files, home, src, dst, stamp, backups, seen)
}

pub(crate) proof fn lemma_prefixes(seen: Seq<Answer>)
    ensures
        forall|i: int| 0 <= i < seen.len() ==> #[trigger] seen.take(i + 1).drop_last()
            == seen.take(i),
        seen.take(seen.len() as int) == seen,
        seen.take(0) == Seq::<Answer>::empty(),
{
    assert forall|i: int| 0 <= i < seen.len() implies #[trigger] seen.take(i + 1).drop_last()
        == seen.take(i) by {
        assert(seen.take(i + 1).drop_last() =~= seen.take(i));
    }
    assert(seen.take(seen.len() as int) =~= seen);
    assert(seen.take(0) =~= Seq::<Answer>::empty());
}

/// One more answer.
pub(crate) proof fn lemma_one_more<V>(
    plan: spec_fn(Seq<Answer>) -> Plan<V>,
    disk: Disk,
    seen: Seq<Answer>,
    i: int,
)
    requires
        0 <= i < seen.len(),
        told(plan, disk, seen.take(i + 1)),
    ensures
        told(plan, disk, seen.take(i)),
        plan(seen.take(i)) matches Plan::Ask(op) && disk_then(plan, disk, seen.take(i)).tells(
            op,
            seen[i],
        ) && disk_then(plan, disk, seen.take(i + 1)) == disk_then(plan, disk, seen.take(i)).with(
            op,
            seen[i],
        ),
{
    assert(seen.take(i + 1).drop_last() =~= seen.take(i));
    assert(seen.take(i + 1).last() == seen[i]);
}

pub(crate) proof fn lemma_told_before<V>(
    plan: spec_fn(Seq<Answer>) -> Plan<V>,
    disk: Disk,
    seen: Seq<Answer>,
    i: int,
)
    requires
        0 <= i <= seen.len(),
        told(plan, disk, seen),
    ensures
        told(plan, disk, seen.take(i)),
    decreases seen.len() - i,
{
    if i < seen.len() {
        lemma_told_before(plan, disk, seen, i + 1);
        lemma_one_more(plan, disk, seen, i);
    } else {
        assert(seen.take(i) =~= seen);
    }
}

/// A symlink that was installed is all that has changed, but for the directory
/// that is now kept aside.
pub proof fn lemma_symlink_is_installed(
    canonical: Seq<char>,
    target: Seq<char>,
    stamp: u64,
    disk: Disk,
    seen: Seq<Answer>,
)
    requires
        told(linking(canonical, target, stamp), disk, seen),
        symlink_plan(canonical, target, stamp, seen) is Give,
    ensures
        disk.there(canonical),
        disk.things[canonical] is Tree ==> !disk.things.contains_key(aside_of(canonical, stamp)),
        disk_then(linking(canonical, target, stamp), disk, seen) == (Disk {
            things: disk.things.remove(canonical).insert(
                aside_of(canonical, stamp),
                disk.things[canonical],
            ).insert(canonical, Thing::Link(target)),
            ..disk
        }),
{
    let plan = linking(canonical, target, stamp);
    assert(seen.len() == 5) by {
        if seen.len() > 5 {
            lemma_told_before(plan, disk, seen, 6);
            lemma_one_more(plan, disk, seen, 5);
            assert(forall|i: int| 0 <= i < 5 ==> seen.take(5)[i] == seen[i]);
        }
    }
    lemma_prefixes(seen);
    assert(forall|n: int, i: int| 0 <= i < n <= 5 ==> #[trigger] seen.take(n)[i] == seen[i]);
    lemma_one_more(plan, disk, seen, 4);
    lemma_one_more(plan, disk, seen, 3);
    lemma_one_more(plan, disk, seen, 2);
    lemma_one_more(plan, disk, seen, 1);
    lemma_one_more(plan, disk, seen, 0);
    assert(disk_then(plan, disk, seen.take(0)) == disk);
    assert(disk_then(plan, disk, seen.take(3)) == disk);
}

/// Taking back a symlink leaves the file system as it was before the symlink
/// was installed, where that was a directory, or nothing lay at the place where
/// it was kept.
pub proof fn lemma_symlink_is_undone(
    canonical: Seq<char>,
    target: Seq<char>,
    stamp: u64,
    disk: Disk,
    seen: Seq<Answer>,
    undo_seen: Seq<Answer>,
)
    requires
        told(linking(canonical, target, stamp), disk, seen),
        symlink_plan(canonical, target, stamp, seen) is Give,
        disk.things[canonical] is Tree || !disk.things.contains_key(aside_of(canonical, stamp)),
        ({
            let outcome = symlink_plan(canonical, target, stamp, seen)->Give_0;
            let linked = disk_then(linking(canonical, target, stamp), disk, seen);
            told(undoing(outcome), linked, undo_seen) && undo_plan(outcome, undo_seen) is Give
        }),
    ensures
        ({
            let outcome = symlink_plan(canonical, target, stamp, seen)->Give_0;
            let linked = disk_then(linking(canonical, target, stamp), disk, seen);
            disk_then(undoing(outcome), linked, undo_seen) == disk
        }),
{
    lemma_symlink_is_installed(canonical, target, stamp, disk, seen);
    let outcome = symlink_plan(canonical, target, stamp, seen)->Give_0;
    let linked = disk_then(linking(canonical, target, stamp), disk, seen);
    let aside = aside_of(canonical, stamp);
    let plan = undoing(outcome);
    let n = undo_seen.len() as int;
    lemma_prefixes(undo_seen);
    assert(canonical != aside);
    assert(n == 3 || n == 5) by {
        lemma_undo_length(canonical, aside, target, linked, undo_seen);
    }
    assert(forall|m: int, i: int| 0 <= i < m <= n ==> #[trigger] undo_seen.take(m)[i]
        == undo_seen[i]);
    lemma_told_before(plan, linked, undo_seen, 1);
    lemma_one_more(plan, linked, undo_seen, 0);
    lemma_told_before(plan, linked, undo_seen, 2);
    lemma_one_more(plan, linked, undo_seen, 1);
    lemma_told_before(plan, linked, undo_seen, 3);
    lemma_one_more(plan, linked, undo_seen, 2);
    if n == 5 {
        lemma_told_before(plan, linked, undo_seen, 4);
        lemma_one_more(plan, linked, undo_seen, 3);
        lemma_one_more(plan, linked, undo_seen, 4);
    }
    assert(disk_then(plan, linked, undo_seen).things =~= disk.things);
}

/// The undo of a symlink that is there takes three steps, or five.
proof fn lemma_undo_length(
    canonical: Seq<char>,
    aside: Seq<char>,
    target: Seq<char>,
    disk: Disk,
    seen: Seq<Answer>,
)
    requires
        disk.things.contains_key(canonical),
        ({
            let outcome = RewriteView::SymlinkInstalled {
                canonical,
                target,
                moved_aside: Some(aside),
            };
            told(undoing(outcome), disk, seen) && undo_plan(outcome, seen) is Give
        }),
    ensures
        seen.len() == 3 || seen.len() == 5,
        seen[0] == Answer::Yes,
        seen.len() == 3 <==> seen[1].fine(),
{
    let outcome = RewriteView::SymlinkInstalled { canonical, target, moved_aside: Some(aside) };
    let plan = undoing(outcome);
    lemma_prefixes(seen);
    assert(seen.len() >= 1);
    lemma_told_before(plan, disk, seen, 1);
    lemma_one_more(plan, disk, seen, 0);
    assert(seen[0] == Answer::Yes);
    assert(seen.len() >= 3);
    assert(forall|m: int, i: int| 0 <= i < m <= seen.len() ==> #[trigger] seen.take(m)[i]
        == seen[i]);
    if seen[1].fine() {
        if seen.len() > 3 {
            lemma_told_before(plan, disk, seen, 4);
            lemma_one_more(plan, disk, seen, 3);
            assert(seen.take(3)[0] == seen[0] && seen.take(3)[1] == seen[1] && seen.take(3)[2]
                == seen[2]);
        }
    } else if seen.len() > 5 {
        lemma_told_before(plan, disk, seen, 6);
        lemma_one_more(plan, disk, seen, 5);
        assert(seen.take(5)[0] == seen[0] && seen.take(5)[1] == seen[1] && seen.take(5)[2]
            == seen[2] && seen.take(5)[3] == seen[3] && seen.take(5)[4] == seen[4]);
    }
}

/// A procedure goes on from where it stands.
proof fn lemma_go_on<V>(
    plan: spec_fn(Seq<Answer>) -> Plan<V>,
    rest: spec_fn(Seq<Answer>) -> Plan<V>,
    disk: Disk,
    a: Seq<Answer>,
    b: Seq<Answer>,
)
    requires
        told(plan, disk, a + b),
        forall|s: Seq<Answer>| #[trigger] rest(s) == plan(a + s),
    ensures
        told(plan, disk, a),
        told(rest, disk_then(plan, disk, a), b),
        disk_then(plan, disk, a + b) == disk_then(rest, disk_then(plan, disk, a), b),
    decreases b.len(),
{
    if b.len() == 0 {
        assert(a + b =~= a);
    } else {
        assert((a + b).drop_last() =~= a + b.drop_last());
        assert((a + b).last() == b.last());
        lemma_go_on(plan, rest, disk, a, b.drop_last());
        assert(rest(b.drop_last()) == plan(a + b.drop_last()));
    }
}

/// The copies that are made of config files.
pub open spec fn copies(files: Seq<FieldView>, home: Option<Seq<char>>, stamp: u64) -> Seq<
    BackupView,
> {
    Seq::new(
        files.len(),
        |i: int|
            BackupView {
                original: expanded(home, files[i].file),
                backup: backup_of(expanded(home, files[i].file), stamp),
            },
    )
}

/// No config file lies where a copy is put, and no dangling symlink does.
pub open spec fn set_apart(disk: Disk, c: Seq<BackupView>) -> bool {
    &&& forall|i: int, j: int|
        0 <= i < c.len() && 0 <= j < c.len() ==> (#[trigger] c[i]).original != (
        #[trigger] c[j]).backup
    &&& forall|i: int|
        0 <= i < c.len() && disk.things.contains_key((#[trigger] c[i]).backup) ==> disk.there(
            c[i].backup,
        )
}

/// The names do not meet.
pub(crate) open spec fn distinct(c: Seq<BackupView>) -> bool {
    &&& forall|i: int, j: int|
        0 <= i < c.len() && 0 <= j < c.len() ==> (#[trigger] c[i]).original != (
        #[trigger] c[j]).backup
    &&& forall|i: int, j: int|
        0 <= i < j < c.len() ==> (#[trigger] c[i]).original != (#[trigger] c[j]).original
    &&& forall|i: int, j: int|
        0 <= i < j < c.len() ==> (#[trigger] c[i]).backup != (#[trigger] c[j]).backup
}

/// The path has nothing to do with the copies.
pub open spec fn aloof(p: Seq<char>, c: Seq<BackupView>) -> bool {
    forall|i: int| 0 <= i < c.len() ==> (#[trigger] c[i]).original != p && c[i].backup != p
}

/// What the one file system has, the other has as well.
pub(crate) open spec fn agree(a: Disk, b: Disk, p: Seq<char>) -> bool {
    a.things.contains_key(p) == b.things.contains_key(p) && (a.things.contains_key(p)
        ==> a.things[p] == b.things[p])
}

/// Each copy holds what its original held, and all else is as it was.
pub(crate) open spec fn kept(was: Disk, now: Disk, c: Seq<BackupView>) -> bool {
    &&& distinct(c)
    &&& was.edited == now.edited
    &&& forall|i: int|
        0 <= i < c.len() ==> was.things.contains_key((#[trigger] c[i]).original)
            && was.things[c[i].original] is File
    &&& forall|i: int|
        0 <= i < c.len() ==> now.things.contains_key((#[trigger] c[i]).backup)
            && now.things[c[i].backup] == was.things[c[i].original]
    &&& forall|i: int| 0 <= i < c.len() ==> now.things.contains_key((#[trigger] c[i]).original)
    &&& forall|i: int| 0 <= i < c.len() ==> !was.things.contains_key((#[trigger] c[i]).backup)
    &&& forall|p: Seq<char>| #[trigger] aloof(p, c) ==> agree(was, now, p)
}

spec fn as_file(text: Seq<char>) -> Thing {
    Thing::File(text)
}

/// One file is copied and edited.
proof fn lemma_one_file(
    files: Seq<FieldView>,
    home: Option<Seq<char>>,
    src: Seq<char>,
    dst: Seq<char>,
    stamp: u64,
    backups: Seq<BackupView>,
    disk: Disk,
    seen: Seq<Answer>,
)
    requires
        files.len() > 0,
        told(editing(files, home, src, dst, stamp, backups), disk, seen),
        config_plan(files, home, src, dst, stamp, backups, seen) is Give,
    ensures
        seen.len() >= 4,
        seen[0] == Answer::Yes,
        seen[1] != Answer::Yes,
        seen[2].fine(),
        seen[3] == Answer::Yes,
        ({
            let b = copies(files, home, stamp)[0];
            let then = disk_then(
                editing(files, home, src, dst, stamp, backups),
                disk,
                seen.take(4),
            );
            &&& !disk.there(b.backup)
            &&& disk.things.contains_key(b.original)
            &&& disk.things[b.original] is File
            &&& then.edited == disk.edited
            &&& exists|text: Seq<char>|
                then.things == disk.things.insert(b.backup, disk.things[b.original]).insert(
                    b.original,
                    #[trigger] as_file(text),
                )
        }),
{
    let plan = editing(files, home, src, dst, stamp, backups);
    let f = files[0];
    let path = expanded(home, f.file);
    let b = copies(files, home, stamp)[0];
    assert(seen.len() >= 4 && seen[0] == Answer::Yes && seen[1] != Answer::Yes && seen[2].fine()
        && seen[3] == Answer::Yes);
    lemma_prefixes(seen);
    assert(forall|m: int, i: int| 0 <= i < m <= 4 ==> #[trigger] seen.take(m)[i] == seen[i]);
    lemma_told_before(plan, disk, seen, 4);
    lemma_one_more(plan, disk, seen, 3);
    lemma_one_more(plan, disk, seen, 2);
    lemma_one_more(plan, disk, seen, 1);
    lemma_one_more(plan, disk, seen, 0);
    assert(disk_then(plan, disk, seen.take(0)) == disk);
    assert(disk_then(plan, disk, seen.take(2)) == disk);
    let copied = disk_then(plan, disk, seen.take(3));
    assert(copied.things == disk.things.insert(b.backup, disk.things[path]));
    let op = Op::RewriteField { path, field: f.field, format: f.format, old: src, new: dst };
    let text = (disk.edited)(op, copied.things[path]->File_0);
    assert(disk_then(plan, disk, seen.take(4)).things == copied.things.insert(
        path,
        as_file(text),
    ));
}

pub(crate) proof fn lemma_files_are_edited(
    files: Seq<FieldView>,
    home: Option<Seq<char>>,
    src: Seq<char>,
    dst: Seq<char>,
    stamp: u64,
    backups: Seq<BackupView>,
    disk: Disk,
    seen: Seq<Answer>,
)
    requires
        set_apart(disk, copies(files, home, stamp)),
        told(editing(files, home, src, dst, stamp, backups), disk, seen),
        config_plan(files, home, src, dst, stamp, backups, seen) is Give,
    ensures
        config_plan(files, home, src, dst, stamp, backups, seen)->Give_0 == (
        RewriteView::ConfigEdited { backups: backups + copies(files, home, stamp) }),
        kept(
            disk,
            disk_then(editing(files, home, src, dst, stamp, backups), disk, seen),
            copies(files, home, stamp),
        ),
    decreases files.len(),
{
    let plan = editing(files, home, src, dst, stamp, backups);
    let all = copies(files, home, stamp);
    if files.len() == 0 {
        assert(backups + all =~= backups);
        if seen.len() > 0 {
            lemma_told_before(plan, disk, seen, 1);
            lemma_one_more(plan, disk, seen, 0);
            assert(false);
        }
        assert forall|p: Seq<char>| #[trigger] aloof(p, all) implies agree(disk, disk, p) by {}
    } else {
        lemma_one_file(files, home, src, dst, stamp, backups, disk, seen);
        let b = all[0];
        let more = backups.push(b);
        let rest = files.skip(1);
        let others = copies(rest, home, stamp);
        assert(forall|i: int| 0 <= i < others.len() ==> #[trigger] others[i] == all[i + 1]);
        let a = seen.take(4);
        let z = seen.skip(4);
        let later = editing(rest, home, src, dst, stamp, more);
        assert(a + z =~= seen);
        assert forall|s: Seq<Answer>| #[trigger] later(s) == plan(a + s) by {
            assert((a + s).skip(4) =~= s);
            assert((a + s)[0] == seen[0] && (a + s)[1] == seen[1] && (a + s)[2] == seen[2] && (a
                + s)[3] == seen[3]);
        }
        lemma_go_on(plan, later, disk, a, z);
        let mid = disk_then(plan, disk, a);
        assert(later(z) == plan(a + z));
        assert(set_apart(mid, others)) by {
            assert forall|i: int|
                0 <= i < others.len() && mid.things.contains_key(
                    (#[trigger] others[i]).backup,
                ) implies mid.there(others[i].backup) by {
                assert(others[i] == all[i + 1]);
                assert(all[0].original != all[i + 1].backup);
                if others[i].backup != b.backup {
                    assert(disk.things.contains_key(all[i + 1].backup));
                    assert(disk.there(all[i + 1].backup));
                }
            }
            assert forall|i: int, j: int|
                0 <= i < others.len() && 0 <= j < others.len() implies (
            #[trigger] others[i]).original != (#[trigger] others[j]).backup by {
                assert(all[i + 1].original != all[j + 1].backup);
            }
        }
        lemma_files_are_edited(rest, home, src, dst, stamp, more, mid, z);
        assert(more + others =~= backups + all);
        let end = disk_then(later, mid, z);
        assert(others =~= all.skip(1));
        lemma_kept_together(disk, mid, end, all, others);
    }
}

/// What holds of the first file and of the others holds of all of them.
proof fn lemma_kept_together(
    disk: Disk,
    mid: Disk,
    end: Disk,
    all: Seq<BackupView>,
    others: Seq<BackupView>,
)
    requires
        all.len() > 0,
        others == all.skip(1),
        kept(mid, end, others),
        forall|i: int, j: int|
            0 <= i < all.len() && 0 <= j < all.len() ==> (#[trigger] all[i]).original != (
            #[trigger] all[j]).backup,
        forall|i: int, j: int|
            0 <= i < all.len() && 0 <= j < all.len() && (#[trigger] all[i]).original == (
            #[trigger] all[j]).original ==> all[i].backup == all[j].backup,
        !disk.things.contains_key(all[0].backup),
        disk.things.contains_key(all[0].original),
        disk.things[all[0].original] is File,
        mid.edited == disk.edited,
        exists|text: Seq<char>|
            mid.things == disk.things.insert(
                all[0].backup,
                disk.things[all[0].original],
            ).insert(all[0].original, #[trigger] as_file(text)),
    ensures
        kept(disk, end, all),
{
    let b = all[0];
    assert(forall|i: int| 0 <= i < others.len() ==> #[trigger] others[i] == all[i + 1]);
    assert forall|j: int| 0 < j < all.len() implies (#[trigger] all[j]).backup != b.backup
        && all[j].original != b.original by {
        assert(others[j - 1] == all[j]);
        assert(!mid.things.contains_key(others[j - 1].backup));
        assert(mid.things.contains_key(b.backup));
    }
    assert(distinct(all)) by {
        assert forall|i: int, j: int| 0 <= i < j < all.len() implies (
        #[trigger] all[i]).original != (#[trigger] all[j]).original by {
            if i > 0 {
                assert(others[i - 1].original != others[j - 1].original);
            }
        }
        assert forall|i: int, j: int| 0 <= i < j < all.len() implies (#[trigger] all[i]).backup
            != (#[trigger] all[j]).backup by {
            if i > 0 {
                assert(others[i - 1].backup != others[j - 1].backup);
            }
        }
    }
    assert(aloof(b.backup, others)) by {
        assert forall|i: int| 0 <= i < others.len() implies (#[trigger] others[i]).original
            != b.backup && others[i].backup != b.backup by {
            assert(others[i] == all[i + 1]);
            assert(all[i + 1].original != all[0].backup);
        }
    }
    assert(aloof(b.original, others)) by {
        assert forall|i: int| 0 <= i < others.len() implies (#[trigger] others[i]).original
            != b.original && others[i].backup != b.original by {
            assert(others[i] == all[i + 1]);
            assert(all[0].original != all[i + 1].backup);
        }
    }
    assert(agree(mid, end, b.backup));
    assert(agree(mid, end, b.original));
    assert forall|i: int| 0 <= i < all.len() implies disk.things.contains_key(
        (#[trigger] all[i]).original,
    ) && disk.things[all[i].original] is File && end.things.contains_key(all[i].backup)
        && end.things[all[i].backup] == disk.things[all[i].original] && end.things.contains_key(
        all[i].original,
    ) && !disk.things.contains_key(all[i].backup) by {
        if i > 0 {
            assert(others[i - 1] == all[i]);
            assert(mid.things.contains_key(others[i - 1].original));
            assert(end.things.contains_key(others[i - 1].backup));
            assert(end.things.contains_key(others[i - 1].original));
            assert(!mid.things.contains_key(others[i - 1].backup));
            assert(all[i].original != all[0].backup);
        }
    }
    assert forall|p: Seq<char>| #[trigger] aloof(p, all) implies agree(disk, end, p) by {
        assert(all[0].original != p && all[0].backup != p);
        assert(aloof(p, others)) by {
            assert forall|i: int| 0 <= i < others.len() implies (#[trigger] others[i]).original
                != p && others[i].backup != p by {
                assert(others[i] == all[i + 1]);
            }
        }
        assert(agree(mid, end, p));
    }
}

pub(crate) proof fn lemma_files_are_restored(was: Disk, now: Disk, c: Seq<BackupView>, seen: Seq<Answer>)
    requires
        kept(was, now, c),
        told(|s: Seq<Answer>| unedit_plan(c, s), now, seen),
        unedit_plan(c, seen) is Give,
    ensures
        disk_then(|s: Seq<Answer>| unedit_plan(c, s), now, seen) == was,
    decreases c.len(),
{
    let plan = |s: Seq<Answer>| unedit_plan(c, s);
    lemma_prefixes(seen);
    if c.len() == 0 {
        if seen.len() > 0 {
            lemma_told_before(plan, now, seen, 1);
            lemma_one_more(plan, now, seen, 0);
            assert(false);
        }
        assert forall|p: Seq<char>| #[trigger] was.things.contains_key(p)
            == now.things.contains_key(p) by {
            assert(aloof(p, c));
        }
        assert forall|p: Seq<char>| #[trigger] was.things.contains_key(p) implies was.things[p]
            == now.things[p] by {
            assert(aloof(p, c));
        }
        assert(was.things =~= now.things);
    } else {
        let b = c[0];
        let rest = c.skip(1);
        assert(seen.len() > 0);
        lemma_told_before(plan, now, seen, 1);
        lemma_one_more(plan, now, seen, 0);
        assert(now.there(b.backup));
        assert(seen[0] == Answer::Yes);
        assert(seen.len() > 1 && seen[1].fine());
        let a = seen.take(2);
        let z = seen.skip(2);
        assert(a[0] == seen[0] && a[1] == seen[1]);
        lemma_told_before(plan, now, seen, 2);
        lemma_one_more(plan, now, seen, 1);
        assert(seen.take(1)[0] == seen[0]);
        let mid = disk_then(plan, now, a);
        assert(mid.things == now.things.remove(b.backup).insert(
            b.original,
            now.things[b.backup],
        ));
        let later = |s: Seq<Answer>| unedit_plan(rest, s);
        assert(a + z =~= seen);
        assert forall|s: Seq<Answer>| #[trigger] later(s) == plan(a + s) by {
            assert((a + s).skip(2) =~= s);
            assert((a + s)[0] == seen[0] && (a + s)[1] == seen[1]);
        }
        lemma_go_on(plan, later, now, a, z);
        assert(later(z) == plan(a + z));
        lemma_one_restored(was, now, mid, c, rest);
        lemma_files_are_restored(was, mid, rest, z);
    }
}

/// After one copy was put back, the others still hold what theirs held.
proof fn lemma_one_restored(
    was: Disk,
    now: Disk,
    mid: Disk,
    c: Seq<BackupView>,
    rest: Seq<BackupView>,
)
    requires
        c.len() > 0,
        rest == c.skip(1),
        kept(was, now, c),
        mid.edited == now.edited,
        mid.things == now.things.remove(c[0].backup).insert(
            c[0].original,
            now.things[c[0].backup],
        ),
    ensures
        kept(was, mid, rest),
{
    let b = c[0];
    assert(forall|i: int| 0 <= i < rest.len() ==> #[trigger] rest[i] == c[i + 1]);
    assert(distinct(rest)) by {
        assert forall|i: int, j: int| 0 <= i < rest.len() && 0 <= j < rest.len() implies (
        #[trigger] rest[i]).original != (#[trigger] rest[j]).backup by {
            assert(c[i + 1].original != c[j + 1].backup);
        }
        assert forall|i: int, j: int| 0 <= i < j < rest.len() implies (
        #[trigger] rest[i]).original != (#[trigger] rest[j]).original by {
            assert(c[i + 1].original != c[j + 1].original);
        }
        assert forall|i: int, j: int| 0 <= i < j < rest.len() implies (#[trigger] rest[i]).backup
            != (#[trigger] rest[j]).backup by {
            assert(c[i + 1].backup != c[j + 1].backup);
        }
    }
    assert forall|i: int| 0 <= i < rest.len() implies was.things.contains_key(
        (#[trigger] rest[i]).original,
    ) && was.things[rest[i].original] is File && mid.things.contains_key(rest[i].backup)
        && mid.things[rest[i].backup] == was.things[rest[i].original] && mid.things.contains_key(
        rest[i].original,
    ) && !was.things.contains_key(rest[i].backup) by {
        assert(rest[i] == c[i + 1]);
        assert(c[0].backup != c[i + 1].backup);
        assert(c[0].original != c[i + 1].backup);
        assert(c[i + 1].original != c[0].backup);
        assert(c[0].original != c[i + 1].original);
    }
    assert forall|p: Seq<char>| #[trigger] aloof(p, rest) implies agree(was, mid, p) by {
        if p == b.original {
            assert(c[0].original != c[0].backup);
        } else if p != b.backup {
            assert(aloof(p, c)) by {
                assert forall|i: int| 0 <= i < c.len() implies (#[trigger] c[i]).original != p
                    && c[i].backup != p by {
                    if i > 0 {
                        assert(rest[i - 1] == c[i]);
                    }
                }
            }
            assert(agree(was, now, p));
        } else {
            assert(c[0].original != c[0].backup);
        }
    }
}

/// Taking back the editing of config files leaves the file system as it was
/// before, where no config file lay at the place of a copy.
pub proof fn lemma_config_is_undone(
    files: Seq<FieldView>,
    home: Option<Seq<char>>,
    src: Seq<char>,
    dst: Seq<char>,
    stamp: u64,
    disk: Disk,
    seen: Seq<Answer>,
    undo_seen: Seq<Answer>,
)
    requires
        set_apart(disk, copies(files, home, stamp)),
        told(editing(files, home, src, dst, stamp, Seq::empty()), disk, seen),
        config_plan(files, home, src, dst, stamp, Seq::empty(), seen) is Give,
        ({
            let outcome = config_plan(files, home, src, dst, stamp, Seq::empty(), seen)->Give_0;
            let edited = disk_then(
                editing(files, home, src, dst, stamp, Seq::empty()),
                disk,
                seen,
            );
            told(undoing(outcome), edited, undo_seen) && undo_plan(outcome, undo_seen) is Give
        }),
    ensures
        ({
            let outcome = config_plan(files, home, src, dst, stamp, Seq::empty(), seen)->Give_0;
            let edited = disk_then(
                editing(files, home, src, dst, stamp, Seq::empty()),
                disk,
                seen,
            );
            disk_then(undoing(outcome), edited, undo_seen) == disk
        }),
{
    let none = Seq::<BackupView>::empty();
    lemma_files_are_edited(files, home, src, dst, stamp, none, disk, seen);
    let c = copies(files, home, stamp);
    assert(none + c =~= c);
    let edited = disk_then(editing(files, home, src, dst, stamp, none), disk, seen);
    let outcome = RewriteView::ConfigEdited { backups: c };
    let plan = |s: Seq<Answer>| unedit_plan(c, s);
    assert(undoing(outcome) =~= plan);
    lemma_files_are_restored(disk, edited, c, undo_seen);
}

} // verus!
