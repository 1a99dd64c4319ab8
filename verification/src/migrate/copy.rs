//! Copying a tree and checking the copy.
use vstd::prelude::*;

use crate::migrate::types::{CopySummary, ErrorView, MigrateError, Stage, VerifyOutcome};
use crate::paths::{absolute, below, is_absolute, join_path, joined, strip_base, under};
use crate::text::{owned, same, views};

verus! {

/// Where a symlink of the source points in the copy: an absolute target below
/// the source is moved along, any other target stays as it is.
pub open spec fn remapped(target: Seq<char>, src_root: Seq<char>, dst_root: Seq<char>) -> Seq<
    char,
> {
    if absolute(target) && under(target, src_root) {
        joined(dst_root, below(target, src_root)->0)
    } else {
        target
    }
}

/// Where a symlink of the source points in the copy.
pub fn remap_symlink_target(target: &str, src_root: &str, dst_root: &str) -> (r: String)
    ensures
        r@ == remapped(target@, src_root@, dst_root@),
{
    if is_absolute(target) {
        match strip_base(target, src_root) {
            Some(rel) => {
                return join_path(dst_root, &rel);
            },
            None => {},
        }
    }
    owned(target)
}

/// Refuse a copy onto something, and a copy of something that is no directory.
pub fn copy_tree(src: &str, dst: &str, dst_exists: bool, src_is_dir: bool) -> (r: Result<
    CopySummary,
    MigrateError,
>)
    ensures
        match r {
            Ok(s) => !dst_exists && src_is_dir && s == (CopySummary {
                files_copied: 0,
                bytes_copied: 0,
                dirs_created: 1,
                symlinks_copied: 0,
            }),
            Err(e) => if dst_exists {
                e@ == ErrorView::DestinationExists(dst@)
            } else {
                !src_is_dir && e@ == ErrorView::StageFailed(
                    Stage::Copy,
                    "source `"@ + src@ + "` is not a directory"@,
                )
            },
        },
{
    if dst_exists {
        return Err(MigrateError::DestinationExists(owned(dst)));
    }
    if !src_is_dir {
        return Err(
            MigrateError::StageFailed(
                Stage::Copy,
                owned("source `").concat(src).concat("` is not a directory"),
            ),
        );
    }
    Ok(CopySummary { files_copied: 0, bytes_copied: 0, dirs_created: 1, symlinks_copied: 0 })
}

/// What an entry of a directory is.
#[derive(Debug)]
pub enum EntryKind {
    /// A symlink, with its target.
    Link { target: String },
    /// A directory.
    Dir,
    /// A regular file.
    File,
    /// A device, a socket or a pipe.
    Other,
}

/// What is done with an entry.
#[allow(inconsistent_fields)]
#[derive(Debug, PartialEq, Eq)]
pub enum CopyStep {
    /// Make a symlink.
    Link { target: String, path: String },
    /// Make a directory and go on below it.
    Dir { path: String },
    /// Copy the file and its permissions.
    File { path: String },
    /// Leave it out.
    Skip,
}

/// The step that copies an entry.
pub open spec fn step_for(
    kind: EntryKind,
    name: Seq<char>,
    dst_dir: Seq<char>,
    src_root: Seq<char>,
    dst_root: Seq<char>,
    step: CopyStep,
) -> bool {
    let to = joined(dst_dir, name);
    match kind {
        EntryKind::Link { target } => step matches CopyStep::Link { target: t, path } && path@
            == to && t@ == remapped(target@, src_root, dst_root),
        EntryKind::Dir => step matches CopyStep::Dir { path } && path@ == to,
        EntryKind::File => step matches CopyStep::File { path } && path@ == to,
        EntryKind::Other => step is Skip,
    }
}

/// The summary after a step; `bytes` is the size of a copied file.
pub open spec fn tallied(s: CopySummary, step: CopyStep, bytes: u64) -> CopySummary {
    match step {
        CopyStep::Link { .. } => CopySummary {
            symlinks_copied: capped_usize(s.symlinks_copied + 1),
            ..s
        },
        CopyStep::Dir { .. } => CopySummary { dirs_created: capped_usize(s.dirs_created + 1), ..s },
        CopyStep::File { .. } => CopySummary {
            files_copied: capped_usize(s.files_copied + 1),
            bytes_copied: capped_u64(s.bytes_copied + bytes),
            ..s
        },
        CopyStep::Skip => s,
    }
}

/// The largest count that fits, at most `n`.
pub open spec fn capped_usize(n: int) -> usize {
    if n > usize::MAX {
        usize::MAX
    } else {
        n as usize
    }
}

/// The largest size that fits, at most `n`.
pub open spec fn capped_u64(n: int) -> u64 {
    if n > u64::MAX {
        u64::MAX
    } else {
        n as u64
    }
}

/// Count one more, as far as it fits.
pub fn bump(n: usize) -> (r: usize)
    ensures
        r == capped_usize(n + 1),
{
    if n == usize::MAX {
        n
    } else {
        n + 1
    }
}

/// Add sizes, as far as they fit.
pub fn add_size(a: u64, b: u64) -> (r: u64)
    ensures
        r == capped_u64(a + b),
{
    if a > u64::MAX - b {
        u64::MAX
    } else {
        a + b
    }
}

/// The step that copies an entry of the directory that becomes `dst_dir`.
pub fn copy_tree_inner(
    kind: &EntryKind,
    name: &str,
    dst_dir: &str,
    src_root: &str,
    dst_root: &str,
) -> (r: CopyStep)
    ensures
        step_for(*kind, name@, dst_dir@, src_root@, dst_root@, r),
{
    let path = join_path(dst_dir, name);
    match kind {
        EntryKind::Link { target } => CopyStep::Link {
            target: remap_symlink_target(target, src_root, dst_root),
            path,
        },
        EntryKind::Dir => CopyStep::Dir { path },
        EntryKind::File => CopyStep::File { path },
        EntryKind::Other => CopyStep::Skip,
    }
}

/// The error of a symlink that could not be made in the copy.
pub fn link_failed(path: &str, detail: &str) -> (r: MigrateError)
    ensures
        r@ == ErrorView::StageFailed(
            Stage::Copy,
            "failed to recreate symlink "@ + path@ + ": "@ + detail@,
        ),
{
    MigrateError::StageFailed(
        Stage::Copy,
        owned("failed to recreate symlink ").concat(path).concat(": ").concat(detail),
    )
}

/// The error of a file in the copy whose permissions could not be set.
pub fn permissions_failed(path: &str, detail: &str) -> (r: MigrateError)
    ensures
        r@ == ErrorView::StageFailed(
            Stage::Copy,
            "set_permissions failed on "@ + path@ + ": "@ + detail@,
        ),
{
    MigrateError::StageFailed(
        Stage::Copy,
        owned("set_permissions failed on ").concat(path).concat(": ").concat(detail),
    )
}

/// Count a step that was carried out.
pub fn tally_copy(summary: &mut CopySummary, step: &CopyStep, bytes: u64)
    ensures
        *final(summary) == tallied(*old(summary), *step, bytes),
{
    match step {
        CopyStep::Link { .. } => {
            summary.symlinks_copied = bump(summary.symlinks_copied);
        },
        CopyStep::Dir { .. } => {
            summary.dirs_created = bump(summary.dirs_created);
        },
        CopyStep::File { .. } => {
            summary.files_copied = bump(summary.files_copied);
            summary.bytes_copied = add_size(summary.bytes_copied, bytes);
        },
        CopyStep::Skip => {},
    }
}

/// An entry of a tree, with its path below the root.
#[derive(Debug)]
pub enum TreeEntry {
    File { rel: String, size: u64 },
    Link { rel: String, target: String },
}

/// The model of a [`TreeEntry`].
pub enum EntryView {
    File { rel: Seq<char>, size: u64 },
    Link { rel: Seq<char>, target: Seq<char> },
}

impl View for TreeEntry {
    type V = EntryView;

    open spec fn view(&self) -> EntryView {
        match self {
            TreeEntry::File { rel, size } => EntryView::File { rel: rel@, size: *size },
            TreeEntry::Link { rel, target } => EntryView::Link { rel: rel@, target: target@ },
        }
    }
}

impl EntryView {
    /// The path below the root.
    pub open spec fn rel(self) -> Seq<char> {
        match self {
            EntryView::File { rel, .. } => rel,
            EntryView::Link { rel, .. } => rel,
        }
    }

    /// The size of a regular file; a symlink has none.
    pub open spec fn size(self) -> int {
        match self {
            EntryView::File { size, .. } => size as int,
            EntryView::Link { .. } => 0,
        }
    }

    /// What a faithful copy has in the entry's place.
    pub open spec fn copy(self, src_root: Seq<char>, dst_root: Seq<char>) -> EntryView {
        match self {
            EntryView::File { rel, size } => self,
            EntryView::Link { rel, target } => EntryView::Link {
                rel,
                target: remapped(target, src_root, dst_root),
            },
        }
    }
}

/// The number of regular files.
pub open spec fn file_count(t: Seq<EntryView>) -> nat
    decreases t.len(),
{
    if t.len() == 0 {
        0
    } else {
        file_count(t.drop_last()) + if t.last() is File {
            1nat
        } else {
            0nat
        }
    }
}

/// The bytes in regular files.
pub open spec fn byte_count(t: Seq<EntryView>) -> nat
    decreases t.len(),
{
    if t.len() == 0 {
        0
    } else {
        (byte_count(t.drop_last()) + t.last().size()) as nat
    }
}

/// Some entry has the path `rel`.
pub open spec fn has_rel(t: Seq<EntryView>, rel: Seq<char>) -> bool {
    exists|i: int| 0 <= i < t.len() && (#[trigger] t[i]).rel() == rel
}

/// The paths of the entries of `src` that the copy lacks or has otherwise.
pub open spec fn lacking(
    src: Seq<EntryView>,
    dst: Seq<EntryView>,
    src_root: Seq<char>,
    dst_root: Seq<char>,
) -> Seq<Seq<char>>
    decreases src.len(),
{
    if src.len() == 0 {
        Seq::empty()
    } else {
        let rest = lacking(src.drop_last(), dst, src_root, dst_root);
        if dst.contains(src.last().copy(src_root, dst_root)) {
            rest
        } else {
            rest.push(src.last().rel())
        }
    }
}

/// The paths of the entries of `dst` that are not in `src`.
pub open spec fn extra(src: Seq<EntryView>, dst: Seq<EntryView>) -> Seq<Seq<char>>
    decreases dst.len(),
{
    if dst.len() == 0 {
        Seq::empty()
    } else {
        let rest = extra(src, dst.drop_last());
        if has_rel(src, dst.last().rel()) {
            rest
        } else {
            rest.push(dst.last().rel())
        }
    }
}

/// The number of files and bytes of a tree, as far as they fit.
pub fn walk_size(tree: &Vec<TreeEntry>) -> (r: (usize, u64))
    ensures
        r.0 == capped_usize(file_count(views(tree@)) as int),
        r.1 == capped_u64(byte_count(views(tree@)) as int),
{
    let mut files: usize = 0;
    let mut bytes: u64 = 0;
    let mut i: usize = 0;
    while i < tree.len()
        invariant
            i <= tree@.len(),
            files == capped_usize(file_count(views(tree@).take(i as int)) as int),
            bytes == capped_u64(byte_count(views(tree@).take(i as int)) as int),
        decreases tree@.len() - i,
    {
        proof {
            assert(views(tree@).take(i + 1).drop_last() =~= views(tree@).take(i as int));
            assert(views(tree@).take(i + 1).last() == tree@[i as int]@);
        }
        match &tree[i] {
            TreeEntry::File { size, .. } => {
                files = bump(files);
                bytes = add_size(bytes, *size);
            },
            TreeEntry::Link { .. } => {},
        }
        i = i + 1;
    }
    assert(views(tree@).take(i as int) =~= views(tree@));
    (files, bytes)
}

fn same_entry(a: &TreeEntry, b: &TreeEntry, src_root: &str, dst_root: &str) -> (r: bool)
    ensures
        r == (a@.copy(src_root@, dst_root@) == b@),
{
    match (a, b) {
        (TreeEntry::File { rel, size }, TreeEntry::File { rel: r2, size: s2 }) => {
            *size == *s2 && same(rel, r2)
        },
        (TreeEntry::Link { rel, target }, TreeEntry::Link { rel: r2, target: t2 }) => {
            let t = remap_symlink_target(target, src_root, dst_root);
            same(rel, r2) && same(&t, t2)
        },
        _ => false,
    }
}

fn rel_of(e: &TreeEntry) -> (r: &String)
    ensures
        r@ == e@.rel(),
{
    match e {
        TreeEntry::File { rel, .. } => rel,
        TreeEntry::Link { rel, .. } => rel,
    }
}

fn has_copy(e: &TreeEntry, dst: &Vec<TreeEntry>, src_root: &str, dst_root: &str) -> (r: bool)
    ensures
        r == views(dst@).contains(e@.copy(src_root@, dst_root@)),
{
    let mut i: usize = 0;
    while i < dst.len()
        invariant
            i <= dst@.len(),
            forall|j: int| 0 <= j < i ==> views(dst@)[j] != e@.copy(src_root@, dst_root@),
        decreases dst@.len() - i,
    {
        if same_entry(e, &dst[i], src_root, dst_root) {
            assert(views(dst@)[i as int] == e@.copy(src_root@, dst_root@));
            return true;
        }
        i = i + 1;
    }
    false
}

fn lists_rel(t: &Vec<TreeEntry>, rel: &str) -> (r: bool)
    ensures
        r == has_rel(views(t@), rel@),
{
    let mut i: usize = 0;
    while i < t.len()
        invariant
            i <= t@.len(),
            forall|j: int| 0 <= j < i ==> (#[trigger] views(t@)[j]).rel() != rel@,
        decreases t@.len() - i,
    {
        if same(rel_of(&t[i]), rel) {
            assert(views(t@)[i as int].rel() == rel@);
            return true;
        }
        assert(views(t@)[i as int].rel() != rel@);
        i = i + 1;
    }
    false
}

/// Compare a tree with its copy, entry by entry. A symlink below the source
/// that was moved along is a faithful copy.
pub fn verify_copy(
    src: &Vec<TreeEntry>,
    dst: &Vec<TreeEntry>,
    src_root: &str,
    dst_root: &str,
) -> (r: VerifyOutcome)
    ensures
        r@.src_files == capped_usize(file_count(views(src@)) as int),
        r@.dst_files == capped_usize(file_count(views(dst@)) as int),
        r@.src_bytes == capped_u64(byte_count(views(src@)) as int),
        r@.dst_bytes == capped_u64(byte_count(views(dst@)) as int),
        r@.mismatches == lacking(views(src@), views(dst@), src_root@, dst_root@) + extra(
            views(src@),
            views(dst@),
        ),
        r@.matches == (r@.mismatches.len() == 0 && r@.src_files == r@.dst_files && r@.src_bytes
            == r@.dst_bytes),
{
    let (src_files, src_bytes) = walk_size(src);
    let (dst_files, dst_bytes) = walk_size(dst);
    let mut mismatches: Vec<String> = Vec::new();
    let ghost s = views(src@);
    let ghost d = views(dst@);
    let mut i: usize = 0;
    assert(views(mismatches@) =~= Seq::<Seq<char>>::empty());
    while i < src.len()
        invariant
            s == views(src@),
            d == views(dst@),
            i <= src@.len(),
            views(mismatches@) == lacking(s.take(i as int), d, src_root@, dst_root@),
        decreases src@.len() - i,
    {
        proof {
            assert(s.take(i + 1).drop_last() =~= s.take(i as int));
            assert(s.take(i + 1).last() == src@[i as int]@);
        }
        if !has_copy(&src[i], dst, src_root, dst_root) {
            let ghost before = views(mismatches@);
            mismatches.push(rel_of(&src[i]).clone());
            assert(views(mismatches@) =~= before.push(src@[i as int]@.rel()));
        }
        i = i + 1;
    }
    let ghost first = views(mismatches@);
    assert(s.take(i as int) =~= s);
    let mut j: usize = 0;
    assert(first + extra(s, d.take(0)) =~= first);
    while j < dst.len()
        invariant
            s == views(src@),
            d == views(dst@),
            j <= dst@.len(),
            views(mismatches@) == first + extra(s, d.take(j as int)),
        decreases dst@.len() - j,
    {
        proof {
            assert(d.take(j + 1).drop_last() =~= d.take(j as int));
            assert(d.take(j + 1).last() == dst@[j as int]@);
        }
        if !lists_rel(src, rel_of(&dst[j])) {
            let ghost before = views(mismatches@);
            mismatches.push(rel_of(&dst[j]).clone());
            assert(views(mismatches@) =~= before.push(dst@[j as int]@.rel()));
            assert(views(mismatches@) =~= first + extra(s, d.take(j + 1)));
        }
        j = j + 1;
    }
    assert(d.take(j as int) =~= d);
    let matches = mismatches.len() == 0 && src_files == dst_files && src_bytes == dst_bytes;
    VerifyOutcome { src_files, dst_files, src_bytes, dst_bytes, matches, mismatches }
}

proof fn lemma_lacking(
    src: Seq<EntryView>,
    dst: Seq<EntryView>,
    src_root: Seq<char>,
    dst_root: Seq<char>,
)
    ensures
        lacking(src, dst, src_root, dst_root).len() == 0 <==> forall|i: int|
            0 <= i < src.len() ==> dst.contains((#[trigger] src[i]).copy(src_root, dst_root)),
    decreases src.len(),
{
    if src.len() > 0 {
        let rest = src.drop_last();
        lemma_lacking(rest, dst, src_root, dst_root);
        assert(forall|i: int| 0 <= i < rest.len() ==> rest[i] == src[i]);
        if lacking(src, dst, src_root, dst_root).len() == 0 {
            assert forall|i: int| 0 <= i < src.len() implies dst.contains(
                (#[trigger] src[i]).copy(src_root, dst_root),
            ) by {
                if i < rest.len() {
                    assert(rest[i] == src[i]);
                }
            }
        } else if dst.contains(src.last().copy(src_root, dst_root)) {
            let k = choose|k: int|
                0 <= k < rest.len() && !dst.contains(
                    (#[trigger] rest[k]).copy(src_root, dst_root),
                );
            assert(src[k] == rest[k]);
        } else {
            assert(src[src.len() - 1] == src.last());
        }
    }
}

proof fn lemma_extra(src: Seq<EntryView>, dst: Seq<EntryView>)
    ensures
        extra(src, dst).len() == 0 <==> forall|i: int|
            0 <= i < dst.len() ==> has_rel(src, (#[trigger] dst[i]).rel()),
    decreases dst.len(),
{
    if dst.len() > 0 {
        let rest = dst.drop_last();
        lemma_extra(src, rest);
        assert(forall|i: int| 0 <= i < rest.len() ==> rest[i] == dst[i]);
        if extra(src, dst).len() == 0 {
            assert forall|i: int| 0 <= i < dst.len() implies has_rel(
                src,
                (#[trigger] dst[i]).rel(),
            ) by {
                if i < rest.len() {
                    assert(rest[i] == dst[i]);
                }
            }
        } else if has_rel(src, dst.last().rel()) {
            let k = choose|k: int|
                0 <= k < rest.len() && !has_rel(src, (#[trigger] rest[k]).rel());
            assert(dst[k] == rest[k]);
        } else {
            assert(dst[dst.len() - 1] == dst.last());
        }
    }
}

/// A verified copy is faithful: it has a copy of every entry of the source, and
/// nothing that the source does not have. A swap of sizes between two files
/// does not pass, although it keeps the totals.
pub proof fn lemma_no_mismatch_means_faithful(
    src: Seq<EntryView>,
    dst: Seq<EntryView>,
    src_root: Seq<char>,
    dst_root: Seq<char>,
)
    ensures
        (lacking(src, dst, src_root, dst_root) + extra(src, dst)).len() == 0 <==> {
            &&& forall|i: int|
                0 <= i < src.len() ==> dst.contains((#[trigger] src[i]).copy(src_root, dst_root))
            &&& forall|i: int| 0 <= i < dst.len() ==> has_rel(src, (#[trigger] dst[i]).rel())
        },
{
    lemma_lacking(src, dst, src_root, dst_root);
    lemma_extra(src, dst);
}

} // verus!
