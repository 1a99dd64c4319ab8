//! Pointing a tool at its new data directory, and taking that back.
use vstd::prelude::*;

use crate::inventory::{expand_home, expanded};
use crate::migrate::steps::{Answer, Op, Plan, Reply, Request, Step};
use crate::migrate::types::{
    BackupView, ConfigBackup, ErrorView, MigrateError, RetainOutcome, RetainedView,
    RewriteOutcome, RewriteView, Stage, ValidateOutcome, ValidatedView,
};
use crate::paths::{file_name, last_name, renamed, with_file_name};
use crate::text::{
    copy_all, dec, dec_int, decimal, decimal_signed, join, join_all, opt_view, owned, views,
};
use crate::tools::{FieldView, HomeDirConfigFile, HomeDirValidate, ValidateView};

verus! {

/// The failure of the rewrite stage.
pub open spec fn rewrite_failed(m: Seq<char>) -> ErrorView {
    ErrorView::StageFailed(Stage::Rewrite, m)
}

fn rewrite_error(m: String) -> (e: MigrateError)
    ensures
        e@ == rewrite_failed(m@),
{
    MigrateError::StageFailed(Stage::Rewrite, m)
}

/// The name under which something is kept beside itself.
pub open spec fn sidecar(
    p: Seq<char>,
    default_name: Seq<char>,
    tag: Seq<char>,
    stamp: u64,
) -> Seq<char> {
    let name = match last_name(p) {
        Some(n) => n,
        None => default_name,
    };
    renamed(p, name + tag + dec(stamp as nat))
}

fn sidecar_path(p: &str, default_name: &str, tag: &str, stamp: u64) -> (r: String)
    ensures
        r@ == sidecar(p@, default_name@, tag@, stamp),
{
    let name = match file_name(p) {
        Some(n) => n,
        None => owned(default_name),
    };
    with_file_name(p, &name.concat(tag).concat(&decimal(stamp)))
}

/// Where a migrated directory is kept.
pub open spec fn aside_of(p: Seq<char>, stamp: u64) -> Seq<char> {
    sidecar(p, "data"@, ".migrated-"@, stamp)
}

/// Where the copy of a config file is kept.
pub open spec fn backup_of(p: Seq<char>, stamp: u64) -> Seq<char> {
    sidecar(p, "config"@, ".sessionguard-backup-"@, stamp)
}

/// What the installation of a symlink does after the answers `seen`: the
/// directory is moved aside, and moved back when the symlink fails.
pub open spec fn symlink_plan(
    canonical: Seq<char>,
    target: Seq<char>,
    stamp: u64,
    seen: Seq<Answer>,
) -> Plan<RewriteView> {
    let aside = aside_of(canonical, stamp);
    if seen.len() == 0 {
        Plan::Ask(Op::Exists { path: canonical })
    } else if seen[0] != Answer::Yes {
        Plan::Fail(
            rewrite_failed(
                "canonical path `"@ + canonical + "` doesn't exist; nothing to rewrite"@,
            ),
        )
    } else if seen.len() == 1 {
        Plan::Ask(Op::Exists { path: target })
    } else if seen[1] != Answer::Yes {
        Plan::Fail(
            rewrite_failed(
                "target `"@ + target + "` doesn't exist; copy stage must have run first"@,
            ),
        )
    } else if seen.len() == 2 {
        Plan::Ask(Op::Exists { path: aside })
    } else if seen[2] == Answer::Yes {
        Plan::Fail(
            rewrite_failed(
                "preserved name `"@ + aside
                    + "` already exists; refusing to overwrite. Move it aside manually and retry."@,
            ),
        )
    } else if seen.len() == 3 {
        Plan::Ask(Op::Rename { from: canonical, to: aside })
    } else if !seen[3].fine() {
        Plan::Fail(seen[3].error())
    } else if seen.len() == 4 {
        Plan::Ask(Op::Symlink { target, link: canonical })
    } else if seen[4].fine() {
        Plan::Give(
            RewriteView::SymlinkInstalled { canonical, target, moved_aside: Some(aside) },
        )
    } else if seen.len() == 5 {
        Plan::Ask(Op::Rename { from: aside, to: canonical })
    } else {
        Plan::Fail(
            rewrite_failed(
                "symlink install failed (original restored): "@ + seen[4].complaint(),
            ),
        )
    }
}

/// The next step of installing a symlink at `canonical` that points at `target`.
pub fn rewrite_via_symlink(canonical: &str, target: &str, stamp: u64, seen: &Vec<Reply>) -> (r:
    Step<RewriteOutcome>)
    ensures
        r@ == symlink_plan(canonical@, target@, stamp, views(seen@)),
{
    let ghost s = views(seen@);
    assert(forall|i: int| 0 <= i < seen@.len() ==> #[trigger] s[i] == seen@[i]@);
    let aside = sidecar_path(canonical, "data", ".migrated-", stamp);
    if seen.len() == 0 {
        return Step::Ask(Request::Exists { path: owned(canonical) });
    }
    if !seen[0].yes() {
        return Step::Fail(
            rewrite_error(
                owned("canonical path `").concat(canonical).concat(
                    "` doesn't exist; nothing to rewrite",
                ),
            ),
        );
    }
    if seen.len() == 1 {
        return Step::Ask(Request::Exists { path: owned(target) });
    }
    if !seen[1].yes() {
        return Step::Fail(
            rewrite_error(
                owned("target `").concat(target).concat(
                    "` doesn't exist; copy stage must have run first",
                ),
            ),
        );
    }
    if seen.len() == 2 {
        return Step::Ask(Request::Exists { path: aside });
    }
    if seen[2].yes() {
        return Step::Fail(
            rewrite_error(
                owned("preserved name `").concat(&aside).concat(
                    "` already exists; refusing to overwrite. Move it aside manually and retry.",
                ),
            ),
        );
    }
    if seen.len() == 3 {
        return Step::Ask(Request::Rename { from: owned(canonical), to: aside });
    }
    if !seen[3].ok() {
        return Step::Fail(seen[3].into_error());
    }
    if seen.len() == 4 {
        return Step::Ask(Request::Symlink { target: owned(target), link: owned(canonical) });
    }
    if seen[4].ok() {
        return Step::Give(
            RewriteOutcome::SymlinkInstalled {
                canonical: owned(canonical),
                target: owned(target),
                moved_aside: Some(aside),
            },
        );
    }
    if seen.len() == 5 {
        return Step::Ask(Request::Rename { from: aside, to: owned(canonical) });
    }
    Step::Fail(
        rewrite_error(
            owned("symlink install failed (original restored): ").concat(&seen[4].why()),
        ),
    )
}

/// When the symlink cannot be installed, the directory is put back where it
/// was before the failure is reported.
pub proof fn lemma_symlink_failure_restores(
    canonical: Seq<char>,
    target: Seq<char>,
    stamp: u64,
    seen: Seq<Answer>,
)
    requires
        symlink_plan(canonical, target, stamp, seen) is Fail,
        seen.len() >= 4,
        symlink_plan(canonical, target, stamp, seen.take(3)) == Plan::<RewriteView>::Ask(
            Op::Rename { from: canonical, to: aside_of(canonical, stamp) },
        ),
        seen[3].fine(),
    ensures
        seen.len() >= 6,
        symlink_plan(canonical, target, stamp, seen.take(5)) == Plan::<RewriteView>::Ask(
            Op::Rename { from: aside_of(canonical, stamp), to: canonical },
        ),
{
    assert(seen.take(3)[0] == seen[0] && seen.take(3)[1] == seen[1] && seen.take(3)[2] == seen[2]);
    if seen.len() >= 5 {
        assert(forall|i: int| 0 <= i < 5 ==> #[trigger] seen.take(5)[i] == seen[i]);
    }
}

/// What puts config files back after a failure: every backup is renamed over
/// its original, in order and whatever comes of it, and the failure is reported.
pub open spec fn restore_plan(
    backups: Seq<BackupView>,
    seen: Seq<Answer>,
    error: ErrorView,
) -> Plan<RewriteView> {
    if seen.len() < backups.len() {
        let b = backups[seen.len() as int];
        Plan::Ask(Op::Rename { from: b.backup, to: b.original })
    } else {
        Plan::Fail(error)
    }
}

fn restore_config_backups(
    backups: Vec<ConfigBackup>,
    seen: &Vec<Reply>,
    from: usize,
    error: MigrateError,
) -> (r: Step<RewriteOutcome>)
    requires
        from <= seen@.len(),
    ensures
        r@ == restore_plan(views(backups@), views(seen@).skip(from as int), error@),
{
    let done: usize = seen.len() - from;
    if done < backups.len() {
        let b = &backups[done];
        assert(views(backups@)[done as int] == backups@[done as int]@);
        Step::Ask(Request::Rename { from: b.backup.clone(), to: b.original.clone() })
    } else {
        Step::Fail(error)
    }
}

/// What the editing of config files does after the answers `seen`. Each file
/// is copied before it is edited; a failure puts back every file edited so far.
pub open spec fn config_plan(
    files: Seq<FieldView>,
    home: Option<Seq<char>>,
    src: Seq<char>,
    dst: Seq<char>,
    stamp: u64,
    backups: Seq<BackupView>,
    seen: Seq<Answer>,
) -> Plan<RewriteView>
    decreases files.len(),
{
    if files.len() == 0 {
        Plan::Give(RewriteView::ConfigEdited { backups })
    } else {
        let f = files[0];
        let path = expanded(home, f.file);
        let backup = backup_of(path, stamp);
        let more = backups.push(BackupView { original: path, backup });
        if seen.len() == 0 {
            Plan::Ask(Op::Exists { path })
        } else if seen[0] != Answer::Yes {
            restore_plan(backups, seen.skip(1), rewrite_failed(missing_text(path)))
        } else if seen.len() == 1 {
            Plan::Ask(Op::Exists { path: backup })
        } else if seen[1] == Answer::Yes {
            restore_plan(backups, seen.skip(2), rewrite_failed(taken_text(backup)))
        } else if seen.len() == 2 {
            Plan::Ask(Op::CopyFile { from: path, to: backup })
        } else if !seen[2].fine() {
            restore_plan(
                backups,
                seen.skip(3),
                rewrite_failed(uncopied_text(path, backup, seen[2].complaint())),
            )
        } else if seen.len() == 3 {
            Plan::Ask(
                Op::RewriteField { path, field: f.field, format: f.format, old: src, new: dst },
            )
        } else if seen[3] == Answer::Yes {
            config_plan(files.skip(1), home, src, dst, stamp, more, seen.skip(4))
        } else if seen[3] == Answer::No {
            restore_plan(more, seen.skip(4), rewrite_failed(unchanged_text(path, f.field, src)))
        } else {
            restore_plan(
                more,
                seen.skip(4),
                rewrite_failed(unedited_text(path, f, seen[3].complaint())),
            )
        }
    }
}

pub open spec fn missing_text(path: Seq<char>) -> Seq<char> {
    "config file `"@ + path
        + "` does not exist; cannot rewrite data-dir reference for discovery=Config"@
}

pub open spec fn taken_text(backup: Seq<char>) -> Seq<char> {
    "backup path `"@ + backup
        + "` already exists; refusing to clobber. Move it aside manually and retry."@
}

pub open spec fn uncopied_text(path: Seq<char>, backup: Seq<char>, why: Seq<char>) -> Seq<char> {
    "failed to back up `"@ + path + "` → `"@ + backup + "`: "@ + why
}

pub open spec fn unchanged_text(path: Seq<char>, field: Seq<char>, src: Seq<char>) -> Seq<char> {
    "config file `"@ + path + "` field `"@ + field + "` did not contain `"@ + src
        + "`; check the home_dir_layout config_files declaration"@
}

pub open spec fn unedited_text(path: Seq<char>, f: FieldView, why: Seq<char>) -> Seq<char> {
    "config rewrite failed on `"@ + path + "` (field `"@ + f.field + "`, format `"@ + f.format
        + "`): "@ + why
}

/// What a rewrite of config files does after the answers `seen`.
pub open spec fn edit_plan(
    files: Seq<FieldView>,
    home: Option<Seq<char>>,
    src: Seq<char>,
    dst: Seq<char>,
    stamp: u64,
    seen: Seq<Answer>,
) -> Plan<RewriteView> {
    if files.len() == 0 {
        Plan::Fail(rewrite_failed("discovery = Config but no config_files declared"@))
    } else {
        config_plan(files, home, src, dst, stamp, Seq::empty(), seen)
    }
}

/// The next step of editing the config files that name the data directory.
pub fn rewrite_via_config(
    files: &Vec<HomeDirConfigFile>,
    home: &Option<String>,
    src: &str,
    dst: &str,
    stamp: u64,
    seen: &Vec<Reply>,
) -> (r: Step<RewriteOutcome>)
    ensures
        r@ == edit_plan(views(files@), opt_view(*home), src@, dst@, stamp, views(seen@)),
{
    if files.len() == 0 {
        return Step::Fail(
            rewrite_error(owned("discovery = Config but no config_files declared")),
        );
    }
    let mut backups: Vec<ConfigBackup> = Vec::new();
    let ghost all = views(files@);
    let ghost answers = views(seen@);
    assert(all.skip(0) =~= all);
    assert(answers.skip(0) =~= answers);
    assert(views(backups@) =~= Seq::<BackupView>::empty());
    let mut i: usize = 0;
    let mut k: usize = 0;
    while i < files.len()
        invariant
            all == views(files@),
            answers == views(seen@),
            i <= files@.len(),
            k <= seen@.len(),
            config_plan(
                all.skip(i as int),
                opt_view(*home),
                src@,
                dst@,
                stamp,
                views(backups@),
                answers.skip(k as int),
            ) == edit_plan(all, opt_view(*home), src@, dst@, stamp, answers),
        decreases files@.len() - i,
    {
        let f = &files[i];
        let left: usize = seen.len() - k;
        let ghost now = answers.skip(k as int);
        proof {
            assert(all.skip(i as int)[0] == f@);
            assert(now.len() == left);
            assert(forall|j: int|
                0 <= j < left ==> #[trigger] now[j] == seen@[k + j]@);
            if left >= 1 {
                assert(now.skip(1) =~= answers.skip(k + 1));
            }
            if left >= 2 {
                assert(now.skip(2) =~= answers.skip(k + 2));
            }
            if left >= 3 {
                assert(now.skip(3) =~= answers.skip(k + 3));
            }
            if left >= 4 {
                assert(now.skip(4) =~= answers.skip(k + 4));
            }
            assert(all.skip(i as int).skip(1) =~= all.skip(i + 1));
        }
        let path = expand_home(home, &f.file);
        let backup = sidecar_path(&path, "config", ".sessionguard-backup-", stamp);
        if left == 0 {
            return Step::Ask(Request::Exists { path });
        }
        assert(now[0] == seen@[k as int]@);
        if !seen[k].yes() {
            let e = rewrite_error(
                owned("config file `").concat(&path).concat(
                    "` does not exist; cannot rewrite data-dir reference for discovery=Config",
                ),
            );
            return restore_config_backups(backups, seen, k + 1, e);
        }
        if left == 1 {
            return Step::Ask(Request::Exists { path: backup });
        }
        assert(now[1] == seen@[k + 1]@);
        if seen[k + 1].yes() {
            let e = rewrite_error(
                owned("backup path `").concat(&backup).concat(
                    "` already exists; refusing to clobber. Move it aside manually and retry.",
                ),
            );
            return restore_config_backups(backups, seen, k + 2, e);
        }
        if left == 2 {
            return Step::Ask(Request::CopyFile { from: path, to: backup });
        }
        assert(now[2] == seen@[k + 2]@);
        if !seen[k + 2].ok() {
            let e = rewrite_error(
                owned("failed to back up `").concat(&path).concat("` → `").concat(
                    &backup,
                ).concat("`: ").concat(&seen[k + 2].why()),
            );
            return restore_config_backups(backups, seen, k + 3, e);
        }
        let ghost before = views(backups@);
        backups.push(ConfigBackup { original: path.clone(), backup });
        assert(views(backups@) =~= before.push(
            BackupView { original: path@, backup: backup_of(path@, stamp) },
        ));
        if left == 3 {
            return Step::Ask(
                Request::RewriteField {
                    path,
                    field: f.field.clone(),
                    format: f.format.clone(),
                    old: owned(src),
                    new: owned(dst),
                },
            );
        }
        assert(now[3] == seen@[k + 3]@);
        match &seen[k + 3] {
            Reply::Yes => {},
            Reply::No => {
                let e = rewrite_error(
                    owned("config file `").concat(&path).concat("` field `").concat(
                        &f.field,
                    ).concat("` did not contain `").concat(src).concat(
                        "`; check the home_dir_layout config_files declaration",
                    ),
                );
                return restore_config_backups(backups, seen, k + 4, e);
            },
            other => {
                let e = rewrite_error(
                    owned("config rewrite failed on `").concat(&path).concat(
                        "` (field `",
                    ).concat(&f.field).concat("`, format `").concat(&f.format).concat(
                        "`): ",
                    ).concat(&other.why()),
                );
                return restore_config_backups(backups, seen, k + 4, e);
            },
        }
        i = i + 1;
        k = k + 4;
    }
    Step::Give(RewriteOutcome::ConfigEdited { backups })
}

/// The copy `b` was asked for and made, at some point before `m`.
pub open spec fn copied(
    files: Seq<FieldView>,
    home: Option<Seq<char>>,
    src: Seq<char>,
    dst: Seq<char>,
    stamp: u64,
    backups: Seq<BackupView>,
    seen: Seq<Answer>,
    k: int,
) -> bool {
    &&& 0 <= k < seen.len()
    &&& seen[k].fine()
    &&& config_plan(files, home, src, dst, stamp, backups, seen.take(k)) matches Plan::Ask(op)
    &&& op is CopyFile
}

/// Every file that `b` lists is put back from `m` on.
pub open spec fn put_back(
    files: Seq<FieldView>,
    home: Option<Seq<char>>,
    src: Seq<char>,
    dst: Seq<char>,
    stamp: u64,
    backups: Seq<BackupView>,
    seen: Seq<Answer>,
    m: int,
    b: Seq<BackupView>,
) -> bool {
    &&& 0 <= m
    &&& m + b.len() <= seen.len()
    &&& forall|j: int|
        #![trigger b[j]]
        0 <= j < b.len() ==> config_plan(
            files,
            home,
            src,
            dst,
            stamp,
            backups,
            seen.take(m + j),
        ) == Plan::<RewriteView>::Ask(Op::Rename { from: b[j].backup, to: b[j].original })
}

/// No partial edit escapes: when the rewrite of config files fails, every file
/// that had been copied before it was edited has been put back.
pub proof fn lemma_config_failure_restores(
    files: Seq<FieldView>,
    home: Option<Seq<char>>,
    src: Seq<char>,
    dst: Seq<char>,
    stamp: u64,
    backups: Seq<BackupView>,
    seen: Seq<Answer>,
) -> (r: (int, Seq<BackupView>))
    requires
        config_plan(files, home, src, dst, stamp, backups, seen) is Fail,
    ensures
        backups.is_prefix_of(r.1),
        put_back(files, home, src, dst, stamp, backups, seen, r.0, r.1),
        forall|k: int|
            #![trigger seen.take(k)]
            k < r.0 && copied(files, home, src, dst, stamp, backups, seen, k) ==> r.1.contains(
                copy_of(config_plan(files, home, src, dst, stamp, backups, seen.take(k))),
            ),
    decreases files.len(),
{
    let f = files[0];
    let path = expanded(home, f.file);
    let backup = backup_of(path, stamp);
    let more = backups.push(BackupView { original: path, backup });
    if seen[0] != Answer::Yes {
        lemma_restore_from(files, home, src, dst, stamp, backups, seen, 1, backups);
        assert forall|k: int| k < 1 && copied(files, home, src, dst, stamp, backups, seen, k) implies
            backups.contains(
            copy_of(config_plan(files, home, src, dst, stamp, backups, #[trigger] seen.take(k))),
        ) by {}
        (1, backups)
    } else if seen[1] == Answer::Yes {
        lemma_restore_from(files, home, src, dst, stamp, backups, seen, 2, backups);
        assert forall|k: int| k < 2 && copied(files, home, src, dst, stamp, backups, seen, k) implies
            backups.contains(
            copy_of(config_plan(files, home, src, dst, stamp, backups, #[trigger] seen.take(k))),
        ) by {
            if k == 1 {
                assert(seen.take(k)[0] == seen[0]);
            }
        }
        (2, backups)
    } else if !seen[2].fine() {
        lemma_restore_from(files, home, src, dst, stamp, backups, seen, 3, backups);
        assert forall|k: int| k < 3 && copied(files, home, src, dst, stamp, backups, seen, k) implies
            backups.contains(
            copy_of(config_plan(files, home, src, dst, stamp, backups, #[trigger] seen.take(k))),
        ) by {
            if k >= 1 {
                assert(seen.take(k)[0] == seen[0]);
            }
            if k >= 2 {
                assert(seen.take(k)[1] == seen[1]);
            }
        }
        (3, backups)
    } else if seen[3] == Answer::Yes {
        let (m, b) = lemma_config_failure_restores(
            files.skip(1),
            home,
            src,
            dst,
            stamp,
            more,
            seen.skip(4),
        );
        assert(more.last() == BackupView { original: path, backup });
        assert(b[more.len() - 1] == more.last());
        assert(backups.is_prefix_of(b)) by {
            assert(backups =~= more.subrange(0, backups.len() as int));
            assert(b.subrange(0, backups.len() as int) =~= b.subrange(
                0,
                more.len() as int,
            ).subrange(0, backups.len() as int));
        }
        assert forall|j: int| #![trigger b[j]] 0 <= j < b.len() implies config_plan(
            files,
            home,
            src,
            dst,
            stamp,
            backups,
            seen.take(m + 4 + j),
        ) == Plan::<RewriteView>::Ask(
            Op::Rename { from: b[j].backup, to: b[j].original },
        ) by {
            lemma_config_shift(files, home, src, dst, stamp, backups, seen, m + j);
        }
        assert forall|k: int|
            k < m + 4 && copied(files, home, src, dst, stamp, backups, seen, k) implies b.contains(
            copy_of(config_plan(files, home, src, dst, stamp, backups, #[trigger] seen.take(k))),
        ) by {
            if k < 4 {
                lemma_config_early(files, home, src, dst, stamp, backups, seen, k);
            } else {
                lemma_config_shift(files, home, src, dst, stamp, backups, seen, k - 4);
                assert(seen.skip(4)[k - 4] == seen[k]);
                assert(copied(
                    files.skip(1),
                    home,
                    src,
                    dst,
                    stamp,
                    more,
                    seen.skip(4),
                    k - 4,
                ));
                let _ = seen.skip(4).take(k - 4);
            }
        }
        (m + 4, b)
    } else {
        lemma_restore_from(files, home, src, dst, stamp, backups, seen, 4, more);
        assert(more.last() == BackupView { original: path, backup });
        assert(more.contains(more.last()));
        assert(backups.is_prefix_of(more)) by {
            assert(backups =~= more.subrange(0, backups.len() as int));
        }
        assert forall|k: int| k < 4 && copied(files, home, src, dst, stamp, backups, seen, k) implies
            more.contains(
            copy_of(config_plan(files, home, src, dst, stamp, backups, #[trigger] seen.take(k))),
        ) by {
            lemma_config_early(files, home, src, dst, stamp, backups, seen, k);
        }
        (4, more)
    }
}

/// The copy that a request makes.
pub open spec fn copy_of(p: Plan<RewriteView>) -> BackupView {
    match p {
        Plan::Ask(Op::CopyFile { from, to }) => BackupView { original: from, backup: to },
        _ => BackupView { original: Seq::empty(), backup: Seq::empty() },
    }
}

/// Among the first four requests only the third copies a file.
proof fn lemma_config_early(
    files: Seq<FieldView>,
    home: Option<Seq<char>>,
    src: Seq<char>,
    dst: Seq<char>,
    stamp: u64,
    backups: Seq<BackupView>,
    seen: Seq<Answer>,
    k: int,
)
    requires
        files.len() > 0,
        0 <= k < 4,
        seen.len() >= 4,
        seen[0] == Answer::Yes,
        seen[1] != Answer::Yes,
        seen[2].fine(),
        copied(files, home, src, dst, stamp, backups, seen, k),
    ensures
        copy_of(config_plan(files, home, src, dst, stamp, backups, seen.take(k))) == (BackupView {
            original: expanded(home, files[0].file),
            backup: backup_of(expanded(home, files[0].file), stamp),
        }),
{
    if k >= 1 {
        assert(seen.take(k)[0] == seen[0]);
    }
    if k >= 2 {
        assert(seen.take(k)[1] == seen[1]);
    }
    if k >= 3 {
        assert(seen.take(k)[2] == seen[2]);
    }
}

/// After a file has been edited the rest goes on as if it were alone.
proof fn lemma_config_shift(
    files: Seq<FieldView>,
    home: Option<Seq<char>>,
    src: Seq<char>,
    dst: Seq<char>,
    stamp: u64,
    backups: Seq<BackupView>,
    seen: Seq<Answer>,
    k: int,
)
    requires
        files.len() > 0,
        0 <= k,
        4 + k <= seen.len(),
        seen[0] == Answer::Yes,
        seen[1] != Answer::Yes,
        seen[2].fine(),
        seen[3] == Answer::Yes,
    ensures
        ({
            let path = expanded(home, files[0].file);
            config_plan(files, home, src, dst, stamp, backups, seen.take(4 + k)) == config_plan(
                files.skip(1),
                home,
                src,
                dst,
                stamp,
                backups.push(BackupView { original: path, backup: backup_of(path, stamp) }),
                seen.skip(4).take(k),
            )
        }),
{
    let s = seen.take(4 + k);
    assert(s[0] == seen[0] && s[1] == seen[1] && s[2] == seen[2] && s[3] == seen[3]);
    assert(s.skip(4) =~= seen.skip(4).take(k));
}

/// From the point of failure on, the requests put back what `b` lists.
proof fn lemma_restore_from(
    files: Seq<FieldView>,
    home: Option<Seq<char>>,
    src: Seq<char>,
    dst: Seq<char>,
    stamp: u64,
    backups: Seq<BackupView>,
    seen: Seq<Answer>,
    m: int,
    b: Seq<BackupView>,
)
    requires
        files.len() > 0,
        1 <= m <= 4,
        m <= seen.len(),
        m == 1 ==> seen[0] != Answer::Yes && b == backups,
        m == 2 ==> seen[0] == Answer::Yes && seen[1] == Answer::Yes && b == backups,
        m == 3 ==> seen[0] == Answer::Yes && seen[1] != Answer::Yes && !seen[2].fine() && b
            == backups,
        m == 4 ==> seen[0] == Answer::Yes && seen[1] != Answer::Yes && seen[2].fine() && seen[3]
            != Answer::Yes && b == backups.push(
            BackupView {
                original: expanded(home, files[0].file),
                backup: backup_of(expanded(home, files[0].file), stamp),
            },
        ),
        config_plan(files, home, src, dst, stamp, backups, seen) is Fail,
    ensures
        put_back(files, home, src, dst, stamp, backups, seen, m, b),
{
    assert forall|j: int| #![trigger b[j]] 0 <= j < b.len() implies config_plan(
        files,
        home,
        src,
        dst,
        stamp,
        backups,
        seen.take(m + j),
    ) == Plan::<RewriteView>::Ask(Op::Rename { from: b[j].backup, to: b[j].original }) by {
        let s = seen.take(m + j);
        assert(s[0] == seen[0]);
        if m >= 2 {
            assert(s[1] == seen[1]);
        }
        if m >= 3 {
            assert(s[2] == seen[2]);
        }
        if m >= 4 {
            assert(s[3] == seen[3]);
        }
        assert(s.skip(m).len() == j);
    }
}

/// What takes back the editing of config files after the answers `seen`:
/// each backup that is there is renamed over its original.
pub open spec fn unedit_plan(backups: Seq<BackupView>, seen: Seq<Answer>) -> Plan<()>
    decreases backups.len(),
{
    if backups.len() == 0 {
        Plan::Give(())
    } else {
        let b = backups[0];
        if seen.len() == 0 {
            Plan::Ask(Op::Exists { path: b.backup })
        } else if seen[0] != Answer::Yes {
            unedit_plan(backups.skip(1), seen.skip(1))
        } else if seen.len() == 1 {
            Plan::Ask(Op::Rename { from: b.backup, to: b.original })
        } else if seen[1].fine() {
            unedit_plan(backups.skip(1), seen.skip(2))
        } else {
            Plan::Fail(
                rewrite_failed(
                    "undo failed: could not restore `"@ + b.original + "` from backup `"@ + b.backup
                        + "`: "@ + seen[1].complaint(),
                ),
            )
        }
    }
}

/// What takes back the installation of a symlink after the answers `seen`:
/// whatever is at the canonical path goes, and the directory comes back.
pub open spec fn unlink_plan(canonical: Seq<char>, aside: Seq<char>, seen: Seq<Answer>) -> Plan<
    (),
> {
    let back = Op::Rename { from: aside, to: canonical };
    if seen.len() == 0 {
        Plan::Ask(Op::Present { path: canonical })
    } else if seen[0] != Answer::Yes {
        last_step(back, seen, 1)
    } else if seen.len() == 1 {
        Plan::Ask(Op::RemoveFile { path: canonical })
    } else if seen[1].fine() {
        last_step(back, seen, 2)
    } else if seen.len() == 2 {
        Plan::Ask(Op::IsDir { path: canonical })
    } else if seen[2] != Answer::Yes {
        Plan::Fail(seen[1].error())
    } else if seen.len() == 3 {
        Plan::Ask(Op::RemoveTree { path: canonical })
    } else if seen[3].fine() {
        last_step(back, seen, 4)
    } else {
        Plan::Fail(seen[3].error())
    }
}

/// `op` is asked as the `n`-th request and ends the procedure.
pub open spec fn last_step(op: Op, seen: Seq<Answer>, n: int) -> Plan<()> {
    if seen.len() == n {
        Plan::Ask(op)
    } else if seen[n].fine() {
        Plan::Give(())
    } else {
        Plan::Fail(seen[n].error())
    }
}

/// What takes back a rewrite after the answers `seen`.
pub open spec fn undo_plan(outcome: RewriteView, seen: Seq<Answer>) -> Plan<()> {
    match outcome {
        RewriteView::SymlinkInstalled { canonical, moved_aside: Some(aside), .. } => {
            unlink_plan(canonical, aside, seen)
        },
        RewriteView::ConfigEdited { backups } => unedit_plan(backups, seen),
        RewriteView::EnvOverridden { record } => last_step(Op::Uninstall { record }, seen, 0),
        _ => Plan::Give(()),
    }
}

fn final_step(op: Request, seen: &Vec<Reply>, n: usize) -> (r: Step<()>)
    requires
        n <= seen@.len(),
    ensures
        r@ == last_step(op@, views(seen@), n as int),
{
    if seen.len() == n {
        return Step::Ask(op);
    }
    assert(views(seen@)[n as int] == seen@[n as int]@);
    if seen[n].ok() {
        Step::Give(())
    } else {
        Step::Fail(seen[n].into_error())
    }
}

/// The next step of taking back a rewrite.
pub fn undo_rewrite(outcome: &RewriteOutcome, seen: &Vec<Reply>) -> (r: Step<()>)
    ensures
        r@ == undo_plan(outcome@, views(seen@)),
{
    let ghost s = views(seen@);
    assert(forall|i: int| 0 <= i < seen@.len() ==> #[trigger] s[i] == seen@[i]@);
    match outcome {
        RewriteOutcome::SymlinkInstalled { canonical, moved_aside: Some(aside), .. } => {
            let back = Request::Rename { from: aside.clone(), to: canonical.clone() };
            if seen.len() == 0 {
                return Step::Ask(Request::Present { path: canonical.clone() });
            }
            if !seen[0].yes() {
                return final_step(back, seen, 1);
            }
            if seen.len() == 1 {
                return Step::Ask(Request::RemoveFile { path: canonical.clone() });
            }
            if seen[1].ok() {
                return final_step(back, seen, 2);
            }
            if seen.len() == 2 {
                return Step::Ask(Request::IsDir { path: canonical.clone() });
            }
            if !seen[2].yes() {
                return Step::Fail(seen[1].into_error());
            }
            if seen.len() == 3 {
                return Step::Ask(Request::RemoveTree { path: canonical.clone() });
            }
            if seen[3].ok() {
                return final_step(back, seen, 4);
            }
            Step::Fail(seen[3].into_error())
        },
        RewriteOutcome::ConfigEdited { backups } => undo_config(backups, seen),
        RewriteOutcome::EnvOverridden { record } => final_step(
            Request::Uninstall { record: record.clone() },
            seen,
            0,
        ),
        _ => Step::Give(()),
    }
}

fn undo_config(backups: &Vec<ConfigBackup>, seen: &Vec<Reply>) -> (r: Step<()>)
    ensures
        r@ == unedit_plan(views(backups@), views(seen@)),
{
    let ghost all = views(backups@);
    let ghost answers = views(seen@);
    assert(all.skip(0) =~= all);
    assert(answers.skip(0) =~= answers);
    let mut i: usize = 0;
    let mut k: usize = 0;
    while i < backups.len()
        invariant
            all == views(backups@),
            answers == views(seen@),
            i <= backups@.len(),
            k <= seen@.len(),
            unedit_plan(all.skip(i as int), answers.skip(k as int)) == unedit_plan(all, answers),
        decreases backups@.len() - i,
    {
        let b = &backups[i];
        let left: usize = seen.len() - k;
        let ghost now = answers.skip(k as int);
        proof {
            assert(all.skip(i as int)[0] == b@);
            assert(now.len() == left);
            assert(all.skip(i as int).skip(1) =~= all.skip(i + 1));
        }
        if left == 0 {
            return Step::Ask(Request::Exists { path: b.backup.clone() });
        }
        assert(now[0] == seen@[k as int]@);
        if !seen[k].yes() {
            assert(now.skip(1) =~= answers.skip(k + 1));
            i = i + 1;
            k = k + 1;
        } else {
            if left == 1 {
                return Step::Ask(
                    Request::Rename { from: b.backup.clone(), to: b.original.clone() },
                );
            }
            assert(now[1] == seen@[k + 1]@);
            if !seen[k + 1].ok() {
                return Step::Fail(
                    rewrite_error(
                        owned("undo failed: could not restore `").concat(&b.original).concat(
                            "` from backup `",
                        ).concat(&b.backup).concat("`: ").concat(&seen[k + 1].why()),
                    ),
                );
            }
            assert(now.skip(2) =~= answers.skip(k + 2));
            i = i + 1;
            k = k + 2;
        }
    }
    Step::Give(())
}

/// Taking back a symlink puts the directory back where it was: the undo ends
/// with the rename that reverses the one made when the symlink was installed.
pub proof fn lemma_undo_reverses_symlink(
    canonical: Seq<char>,
    target: Seq<char>,
    stamp: u64,
    seen: Seq<Answer>,
    undo_seen: Seq<Answer>,
)
    requires
        symlink_plan(canonical, target, stamp, seen) is Give,
        undo_plan(symlink_plan(canonical, target, stamp, seen)->Give_0, undo_seen) is Give,
    ensures
        symlink_plan(canonical, target, stamp, seen.take(3)) == Plan::<RewriteView>::Ask(
            Op::Rename { from: canonical, to: aside_of(canonical, stamp) },
        ),
        exists|n: int|
            #![trigger undo_seen.take(n)]
            0 <= n < undo_seen.len() && undo_plan(
                symlink_plan(canonical, target, stamp, seen)->Give_0,
                undo_seen.take(n),
            ) == Plan::<()>::Ask(
                Op::Rename { from: aside_of(canonical, stamp), to: canonical },
            ),
{
    assert(seen.take(3)[0] == seen[0] && seen.take(3)[1] == seen[1] && seen.take(3)[2] == seen[2]);
    let n: int = if undo_seen[0] != Answer::Yes {
        1
    } else if undo_seen[1].fine() {
        2
    } else {
        4
    };
    assert(forall|i: int| 0 <= i < n ==> #[trigger] undo_seen.take(n)[i] == undo_seen[i]);
    assert(undo_plan(
        symlink_plan(canonical, target, stamp, seen)->Give_0,
        undo_seen.take(n),
    ) == Plan::<()>::Ask(Op::Rename { from: aside_of(canonical, stamp), to: canonical }));
}

/// What the retention of the source does after the answers `seen`: unless the
/// rewrite has moved it aside, it is renamed beside itself and never deleted.
pub open spec fn retain_plan(
    src: Seq<char>,
    outcome: RewriteView,
    stamp: u64,
    seen: Seq<Answer>,
) -> Plan<RetainedView> {
    let aside = aside_of(src, stamp);
    match outcome {
        RewriteView::SymlinkInstalled { moved_aside: Some(a), .. } => Plan::Give(
            RetainedView::PreservedInRewrite { aside: a },
        ),
        _ => if seen.len() == 0 {
            Plan::Ask(Op::Exists { path: src })
        } else if seen[0] != Answer::Yes {
            Plan::Give(RetainedView::Nothing)
        } else if seen.len() == 1 {
            Plan::Ask(Op::Exists { path: aside })
        } else if seen[1] == Answer::Yes {
            Plan::Fail(
                ErrorView::StageFailed(
                    Stage::Retain,
                    "preserved name `"@ + aside + "` already exists; refusing to overwrite"@,
                ),
            )
        } else if seen.len() == 2 {
            Plan::Ask(Op::Rename { from: src, to: aside })
        } else if seen[2].fine() {
            Plan::Give(RetainedView::RenamedAside { from: src, to: aside })
        } else {
            Plan::Fail(seen[2].error())
        },
    }
}

/// The next step of retaining the source.
pub fn retain_source(src: &str, outcome: &RewriteOutcome, stamp: u64, seen: &Vec<Reply>) -> (r:
    Step<RetainOutcome>)
    ensures
        r@ == retain_plan(src@, outcome@, stamp, views(seen@)),
{
    let ghost s = views(seen@);
    assert(forall|i: int| 0 <= i < seen@.len() ==> #[trigger] s[i] == seen@[i]@);
    match outcome {
        RewriteOutcome::SymlinkInstalled { moved_aside: Some(a), .. } => {
            return Step::Give(RetainOutcome::PreservedInRewrite { aside: a.clone() });
        },
        _ => {},
    }
    let aside = sidecar_path(src, "data", ".migrated-", stamp);
    if seen.len() == 0 {
        return Step::Ask(Request::Exists { path: owned(src) });
    }
    if !seen[0].yes() {
        return Step::Give(RetainOutcome::Nothing);
    }
    if seen.len() == 1 {
        return Step::Ask(Request::Exists { path: aside });
    }
    if seen[1].yes() {
        return Step::Fail(
            MigrateError::StageFailed(
                Stage::Retain,
                owned("preserved name `").concat(&aside).concat(
                    "` already exists; refusing to overwrite",
                ),
            ),
        );
    }
    if seen.len() == 2 {
        return Step::Ask(Request::Rename { from: owned(src), to: aside });
    }
    if seen[2].ok() {
        Step::Give(RetainOutcome::RenamedAside { from: owned(src), to: aside })
    } else {
        Step::Fail(seen[2].into_error())
    }
}

/// What has been seen of the validation command.
#[allow(inconsistent_fields)]
#[derive(Debug)]
pub enum ValidateSeen {
    /// It has not been started.
    NotStarted,
    /// It could not be started.
    SpawnFailed { message: String },
    /// It is running.
    Running { elapsed_ms: u128 },
    /// It has exited.
    Exited { success: bool, code: Option<i32>, elapsed_ms: u128 },
    /// It is not known how it is doing.
    PollFailed { message: String },
}

/// What to do about the validation command.
#[derive(Debug)]
pub enum ValidateStep {
    /// Start this program.
    Spawn { argv: Vec<String> },
    /// Look again in a while.
    Wait,
    /// The validation is done.
    Give(ValidateOutcome),
    /// The validation failed; a program that still runs is to be killed.
    Fail { kill: bool, error: MigrateError },
}

/// The failure of the validation stage.
pub open spec fn validate_failed(m: Seq<char>) -> ErrorView {
    ErrorView::StageFailed(Stage::Validate, m)
}

/// How long a validation may take, in seconds.
pub open spec fn patience(v: ValidateView) -> u64 {
    match v.timeout_seconds {
        Some(t) => t,
        None => 10,
    }
}

/// The decision about a validation command, from what has been seen of it.
pub open spec fn validate_decision(v: ValidateView, seen: ValidateSeen, step: ValidateStep) -> bool {
    let command = join(v.command, " "@);
    if v.command.len() == 0 {
        step matches ValidateStep::Give(o) && o@ == ValidatedView::Skipped
    } else {
        match seen {
            ValidateSeen::NotStarted => step matches ValidateStep::Spawn { argv } && views(argv@)
                == v.command,
            ValidateSeen::SpawnFailed { message } => step matches ValidateStep::Fail {
                kill,
                error,
            } && !kill && error@ == validate_failed(
                "failed to spawn `"@ + command + "`: "@ + message@,
            ),
            ValidateSeen::Running { elapsed_ms } => if elapsed_ms >= patience(v) * 1000 {
                step matches ValidateStep::Fail { kill, error } && kill && error@
                    == validate_failed(
                    "validate `"@ + command + "` timed out after "@ + dec(patience(v) as nat)
                        + "s"@,
                )
            } else {
                step is Wait
            },
            ValidateSeen::Exited { success, code, elapsed_ms } => if success {
                step matches ValidateStep::Give(o) && o@ == (ValidatedView::Passed {
                    command,
                    took_ms: elapsed_ms,
                })
            } else {
                step matches ValidateStep::Fail { kill, error } && !kill && error@
                    == validate_failed(
                    "validate `"@ + command + "` exited "@ + dec_int(
                        match code {
                            Some(c) => c as int,
                            None => -1,
                        },
                    ),
                )
            },
            ValidateSeen::PollFailed { message } => step matches ValidateStep::Fail {
                kill,
                error,
            } && !kill && error@ == validate_failed(
                "failed to poll validate child: "@ + message@,
            ),
        }
    }
}

/// What to do about a validation command: start it, wait for it, accept it
/// when it exits zero in time, and fail otherwise.
pub fn run_validate(validate: &HomeDirValidate, seen: &ValidateSeen) -> (r: ValidateStep)
    ensures
        validate_decision(validate@, *seen, r),
{
    if validate.command.len() == 0 {
        return ValidateStep::Give(ValidateOutcome::Skipped);
    }
    let command = join_all(&validate.command, " ");
    let timeout: u64 = match validate.timeout_seconds {
        Some(t) => t,
        None => 10,
    };
    match seen {
        ValidateSeen::NotStarted => ValidateStep::Spawn { argv: copy_all(&validate.command) },
        ValidateSeen::SpawnFailed { message } => ValidateStep::Fail {
            kill: false,
            error: MigrateError::StageFailed(
                Stage::Validate,
                owned("failed to spawn `").concat(&command).concat("`: ").concat(message),
            ),
        },
        ValidateSeen::Running { elapsed_ms } => {
            if *elapsed_ms >= (timeout as u128) * 1000 {
                ValidateStep::Fail {
                    kill: true,
                    error: MigrateError::StageFailed(
                        Stage::Validate,
                        owned("validate `").concat(&command).concat("` timed out after ").concat(
                            &decimal(timeout),
                        ).concat("s"),
                    ),
                }
            } else {
                ValidateStep::Wait
            }
        },
        ValidateSeen::Exited { success, code, elapsed_ms } => {
            if *success {
                ValidateStep::Give(ValidateOutcome::Passed { command, took_ms: *elapsed_ms })
            } else {
                let c: i64 = match code {
                    Some(c) => *c as i64,
                    None => -1,
                };
                ValidateStep::Fail {
                    kill: false,
                    error: MigrateError::StageFailed(
                        Stage::Validate,
                        owned("validate `").concat(&command).concat("` exited ").concat(
                            &decimal_signed(c),
                        ),
                    ),
                }
            }
        },
        ValidateSeen::PollFailed { message } => ValidateStep::Fail {
            kill: false,
            error: MigrateError::StageFailed(
                Stage::Validate,
                owned("failed to poll validate child: ").concat(message),
            ),
        },
    }
}

} // verus!
