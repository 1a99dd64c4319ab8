//! Reading the three kinds of session store.
use vstd::prelude::*;

use crate::documents::{json_field, json_leaves, json_parse, json_read, text_at, Leaves};
use crate::globs::{glob_compile, glob_match, glob_matches, is_pattern, pattern_text};
use crate::paths::{below, strip_base};
use crate::sessions::census::{Sighting, ToolSessions};
use crate::sessions::decode::{
    decode_encoded_name, decoded, encode_project_path, encoded, parts_of, worth_asking, Decoded,
    DecodeConfidence, Fs, Look, Seen,
};
use crate::text::{begins, opt_view, owned, replace, replaced, same, split, trim, trimmed, views};
use crate::tools::{plain_ident, safe_ident, TimeUnit};

verus! {

/// Entries that are visited in one store, at most.
pub const SESSION_WALK_CAP: usize = 50_000;

/// Files of a directory that are asked for the project's path, at most.
pub const HINT_FILES: usize = 4;

/// Lines of such a file that are read, at most.
pub const HINT_LINES: usize = 64;

/// Bytes of such a file that are read, at most.
pub const HINT_BYTES: u64 = 524_288;

/// Bytes of a first line that are read, at most.
pub const FIRST_LINE_BYTES: u64 = 65_536;

/// Anything above this many seconds can only be milliseconds.
pub const EPOCH_MS_FLOOR: u64 = 100_000_000_000;

/// The first lines of a file.
#[derive(Debug)]
pub struct Head {
    pub lines: Vec<String>,
}

impl View for Head {
    type V = Seq<Seq<char>>;

    open spec fn view(&self) -> Seq<Seq<char>> {
        views(self.lines@)
    }
}

/// The text under the first of the fields that holds one.
pub open spec fn first_field(m: Leaves, fields: Seq<Seq<char>>) -> Option<Seq<char>>
    decreases fields.len(),
{
    if fields.len() == 0 {
        None
    } else {
        match text_at(m, split(fields[0], '.')) {
            Some(t) => Some(t),
            None => first_field(m, fields.skip(1)),
        }
    }
}

/// What a line says of the fields; nothing when it is no JSON.
pub open spec fn line_field(line: Seq<char>, fields: Seq<Seq<char>>) -> Option<Seq<char>> {
    match json_read(trimmed(line)) {
        Ok(m) => first_field(m, fields),
        Err(_) => None,
    }
}

/// What the first of the leading lines that says anything says of the fields.
pub open spec fn head_field(lines: Seq<Seq<char>>, fields: Seq<Seq<char>>, max: nat) -> Option<
    Seq<char>,
>
    decreases max,
{
    if max == 0 || lines.len() == 0 {
        None
    } else {
        match line_field(lines[0], fields) {
            Some(t) => Some(t),
            None => head_field(lines.skip(1), fields, (max - 1) as nat),
        }
    }
}

fn find_first_field(v: &serde_json::Value, fields: &Vec<String>) -> (r: Option<String>)
    ensures
        opt_view(r) == first_field(json_leaves(*v), views(fields@)),
{
    let ghost fs = views(fields@);
    let mut i: usize = 0;
    assert(fs.skip(0) =~= fs);
    while i < fields.len()
        invariant
            fs == views(fields@),
            i <= fields@.len(),
            first_field(json_leaves(*v), fs) == first_field(json_leaves(*v), fs.skip(i as int)),
        decreases fields@.len() - i,
    {
        assert(fs.skip(i as int)[0] == fields@[i as int]@);
        assert(fs.skip(i as int).skip(1) =~= fs.skip(i + 1));
        if let Some(t) = json_field(v, &fields[i]) {
            return Some(t);
        }
        i = i + 1;
    }
    None
}

/// Look through the leading lines of a file of JSON lines for the first that
/// has one of the fields, each of them dotted where it is nested, as a text.
/// Lines that are no JSON are passed over.
pub fn jsonl_find_field(head: &Head, fields: &Vec<String>, max_lines: usize) -> (r: Option<String>)
    ensures
        opt_view(r) == head_field(head@, views(fields@), max_lines as nat),
{
    let ghost ls = head@;
    let ghost fs = views(fields@);
    let mut i: usize = 0;
    assert(ls.skip(0) =~= ls);
    while i < head.lines.len() && i < max_lines
        invariant
            ls == views(head.lines@),
            fs == views(fields@),
            i <= head.lines@.len(),
            i <= max_lines,
            head_field(ls, fs, max_lines as nat) == head_field(
                ls.skip(i as int),
                fs,
                (max_lines - i) as nat,
            ),
        decreases head.lines@.len() - i,
    {
        assert(ls.skip(i as int)[0] == head.lines@[i as int]@);
        assert(ls.skip(i as int).skip(1) =~= ls.skip(i + 1));
        let line = trim(&head.lines[i]);
        if let Ok(v) = json_parse(&line) {
            if let Some(t) = find_first_field(&v, fields) {
                return Some(t);
            }
        }
        i = i + 1;
    }
    None
}

/// A path that is written in a session directory could have given it its name,
/// by the full encoding or by the older one of the slash alone.
pub open spec fn consistent(cwd: Seq<char>, name: Seq<char>, sep: Seq<char>) -> bool {
    cwd.len() > 0 && (encoded(cwd, sep) == name || replaced(cwd, "/"@, sep) == name)
}

/// A path that is written in a session directory could have given it its name.
pub fn hint_consistent(cwd: &str, dir_name: &str, separator: &str) -> (r: bool)
    ensures
        r == consistent(cwd@, dir_name@, separator@),
{
    proof {
        reveal_strlit("/");
    }
    !cwd.is_empty() && (same(&encode_project_path(cwd, separator), dir_name) || same(
        &replace(cwd, "/", separator),
        dir_name,
    ))
}

/// An entry of a session directory.
#[derive(Debug)]
pub struct StoreFile {
    pub name: String,
    pub path: String,
    /// It is a file, and its size and age could be read.
    pub is_file: bool,
    pub len: u64,
    /// When it was last written, in seconds since the epoch.
    pub mtime: u64,
}

/// The model of a [`StoreFile`].
pub struct StoreFileView {
    pub name: Seq<char>,
    pub path: Seq<char>,
    pub is_file: bool,
    pub len: u64,
    pub mtime: u64,
}

impl View for StoreFile {
    type V = StoreFileView;

    open spec fn view(&self) -> StoreFileView {
        StoreFileView {
            name: self.name@,
            path: self.path@,
            is_file: self.is_file,
            len: self.len,
            mtime: self.mtime,
        }
    }
}

/// The number of files.
pub open spec fn file_count(s: Seq<StoreFileView>) -> nat
    decreases s.len(),
{
    if s.len() == 0 {
        0
    } else {
        file_count(s.drop_last()) + if s.last().is_file {
            1nat
        } else {
            0
        }
    }
}

/// The bytes of the files.
pub open spec fn file_bytes(s: Seq<StoreFileView>) -> nat
    decreases s.len(),
{
    if s.len() == 0 {
        0
    } else {
        file_bytes(s.drop_last()) + if s.last().is_file {
            s.last().len as nat
        } else {
            0
        }
    }
}

/// When the latest of the files was written.
pub open spec fn file_latest(s: Seq<StoreFileView>) -> u64
    decreases s.len(),
{
    if s.len() == 0 {
        0
    } else {
        let rest = file_latest(s.drop_last());
        if s.last().is_file && s.last().mtime > rest {
            s.last().mtime
        } else {
            rest
        }
    }
}

proof fn lemma_file_count(s: Seq<StoreFileView>, i: int)
    requires
        0 <= i <= s.len(),
    ensures
        file_count(s.take(i)) <= i,
        file_bytes(s.take(i)) <= file_bytes(s),
    decreases s.len() - i,
{
    if i == s.len() {
        assert(s.take(i) =~= s);
        lemma_count_bound(s);
    } else {
        lemma_file_count(s, i + 1);
        assert(s.take(i + 1).drop_last() =~= s.take(i));
        lemma_count_bound(s.take(i));
    }
}

proof fn lemma_count_bound(s: Seq<StoreFileView>)
    ensures
        file_count(s) <= s.len(),
    decreases s.len(),
{
    if s.len() > 0 {
        lemma_count_bound(s.drop_last());
    }
}

/// What the files amount to.
pub open spec fn tallied(s: Seq<StoreFileView>) -> ToolSessions {
    ToolSessions {
        count: file_count(s) as usize,
        bytes: file_bytes(s) as u64,
        last_active_unix: file_latest(s),
    }
}

fn tally_files(files: &Vec<StoreFile>) -> (r: ToolSessions)
    requires
        file_bytes(views(files@)) <= u64::MAX,
    ensures
        r == tallied(views(files@)),
        r.count == file_count(views(files@)),
        r.bytes == file_bytes(views(files@)),
{
    let ghost s = views(files@);
    let mut sum = ToolSessions { count: 0, bytes: 0, last_active_unix: 0 };
    let n: usize = files.len();
    let mut i: usize = 0;
    assert(s.take(0) =~= Seq::<StoreFileView>::empty());
    while i < n
        invariant
            s == views(files@),
            n == files@.len(),
            i <= n,
            file_bytes(s) <= u64::MAX,
            sum.count == file_count(s.take(i as int)),
            sum.bytes == file_bytes(s.take(i as int)),
            sum.last_active_unix == file_latest(s.take(i as int)),
        decreases n - i,
    {
        proof {
            lemma_file_count(s, i as int);
            lemma_file_count(s, i + 1);
            assert(s.take(i + 1).drop_last() =~= s.take(i as int));
            assert(s.take(i + 1).last() == files@[i as int]@);
        }
        if files[i].is_file {
            sum.count = sum.count + 1;
            sum.bytes = sum.bytes + files[i].len;
            if files[i].mtime > sum.last_active_unix {
                sum.last_active_unix = files[i].mtime;
            }
        }
        i = i + 1;
    }
    assert(s.take(i as int) =~= s);
    sum
}

/// A file that may know the path of the project.
pub struct HintFile {
    pub mtime: u64,
    pub path: String,
}

impl View for HintFile {
    type V = (u64, Seq<char>);

    open spec fn view(&self) -> (u64, Seq<char>) {
        (self.mtime, self.path@)
    }
}

/// How many of the leading files stay before one of this age.
pub open spec fn newer(list: Seq<(u64, Seq<char>)>, mtime: u64) -> int
    decreases list.len(),
{
    if list.len() == 0 || list.last().0 >= mtime {
        list.len() as int
    } else {
        newer(list.drop_last(), mtime)
    }
}

/// The files whose names match, the newest first; those of one age stay in the
/// order in which they were listed.
pub open spec fn hint_files(s: Seq<StoreFileView>, pattern: Seq<char>) -> Seq<(u64, Seq<char>)>
    decreases s.len(),
{
    if s.len() == 0 {
        seq![]
    } else {
        let rest = hint_files(s.drop_last(), pattern);
        let f = s.last();
        if f.is_file && glob_match(pattern, f.name) {
            rest.insert(newer(rest, f.mtime), (f.mtime, f.path))
        } else {
            rest
        }
    }
}

proof fn lemma_newer(list: Seq<(u64, Seq<char>)>, mtime: u64)
    ensures
        0 <= newer(list, mtime) <= list.len(),
        forall|i: int| newer(list, mtime) <= i < list.len() ==> (#[trigger] list[i]).0 < mtime,
        newer(list, mtime) > 0 ==> list[newer(list, mtime) - 1].0 >= mtime,
    decreases list.len(),
{
    if list.len() > 0 && list.last().0 < mtime {
        let d = list.drop_last();
        lemma_newer(d, mtime);
        assert forall|i: int| newer(list, mtime) <= i < list.len() implies (#[trigger] list[i]).0
            < mtime by {
            if i < d.len() {
                assert(list[i] == d[i]);
            }
        }
    }
}

/// The newest file is asked first.
pub proof fn lemma_hints_are_newest_first(s: Seq<StoreFileView>, pattern: Seq<char>)
    ensures
        forall|i: int, j: int|
            0 <= i < j < hint_files(s, pattern).len() ==> (#[trigger] hint_files(s, pattern)[i]).0
                >= (#[trigger] hint_files(s, pattern)[j]).0,
    decreases s.len(),
{
    if s.len() > 0 {
        let d = s.drop_last();
        lemma_hints_are_newest_first(d, pattern);
        let rest = hint_files(d, pattern);
        let f = s.last();
        if f.is_file && glob_match(pattern, f.name) {
            lemma_newer(rest, f.mtime);
            let k = newer(rest, f.mtime);
            let r = rest.insert(k, (f.mtime, f.path));
            assert forall|i: int, j: int| 0 <= i < j < r.len() implies (#[trigger] r[i]).0 >= (
            #[trigger] r[j]).0 by {
                let a = if i < k {
                    i
                } else {
                    i - 1
                };
                let b = if j < k {
                    j
                } else {
                    j - 1
                };
                if i == k {
                    assert(r[j] == rest[b]);
                } else if j == k {
                    assert(r[i] == rest[a]);
                    if i < k - 1 {
                        assert(rest[i].0 >= rest[k - 1].0);
                    }
                } else {
                    assert(r[i] == rest[a] && r[j] == rest[b]);
                }
            }
        }
    }
}

fn find_hint_files(files: &Vec<StoreFile>, pattern: &glob::Pattern) -> (r: Vec<HintFile>)
    ensures
        views(r@) == hint_files(views(files@), pattern_text(*pattern)),
{
    let ghost s = views(files@);
    let ghost p = pattern_text(*pattern);
    let mut out: Vec<HintFile> = Vec::new();
    let mut i: usize = 0;
    assert(s.take(0) =~= Seq::<StoreFileView>::empty());
    assert(views(out@) =~= Seq::<(u64, Seq<char>)>::empty());
    while i < files.len()
        invariant
            s == views(files@),
            p == pattern_text(*pattern),
            i <= files@.len(),
            views(out@) == hint_files(s.take(i as int), p),
        decreases files@.len() - i,
    {
        let f = &files[i];
        proof {
            assert(s.take(i + 1).drop_last() =~= s.take(i as int));
            assert(s.take(i + 1).last() == f@);
        }
        if f.is_file && glob_matches(pattern, &f.name) {
            let ghost rest = views(out@);
            let mut k: usize = out.len();
            assert(rest.take(k as int) =~= rest);
            while k > 0 && out[k - 1].mtime < f.mtime
                invariant
                    views(out@) == rest,
                    k <= out@.len(),
                    newer(rest, f.mtime) == newer(rest.take(k as int), f.mtime),
                decreases k,
            {
                assert(rest.take(k as int).drop_last() =~= rest.take(k - 1));
                assert(rest[k - 1] == out@[k - 1]@);
                k = k - 1;
            }
            if k > 0 {
                assert(rest[k - 1] == out@[k - 1]@);
                assert(rest.take(k as int).last() == rest[k - 1]);
            }
            assert(newer(rest, f.mtime) == k);
            let h = HintFile { mtime: f.mtime, path: f.path.clone() };
            out.insert(k, h);
            assert(views(out@) =~= rest.insert(k as int, h@));
        }
        i = i + 1;
    }
    assert(s.take(i as int) =~= s);
    out
}

/// What the files of a session directory say of its project.
pub enum HintView {
    /// This path, which fits the directory's name.
    Says(Seq<char>),
    /// The lines of the file with this number are not known yet.
    Unread(int),
    /// Nothing.
    Silent,
}

/// What the files say, from the `i`-th on.
pub open spec fn hinted(
    paths: int,
    heads: Seq<Seq<Seq<char>>>,
    i: int,
    field: Seq<char>,
    name: Seq<char>,
    sep: Seq<char>,
) -> HintView
    decreases paths - i,
{
    if i >= paths {
        HintView::Silent
    } else if i >= heads.len() {
        HintView::Unread(i)
    } else {
        match head_field(heads[i], seq![field], HINT_LINES as nat) {
            Some(cwd) => if consistent(cwd, name, sep) {
                HintView::Says(cwd)
            } else {
                hinted(paths, heads, i + 1, field, name, sep)
            },
            None => hinted(paths, heads, i + 1, field, name, sep),
        }
    }
}

/// A stray file does not give a directory another key: what the files say is
/// taken only where it gives the directory its name.
pub proof fn lemma_hint_gives_the_name(
    paths: int,
    heads: Seq<Seq<Seq<char>>>,
    i: int,
    field: Seq<char>,
    name: Seq<char>,
    sep: Seq<char>,
)
    ensures
        hinted(paths, heads, i, field, name, sep) matches HintView::Says(cwd) ==> consistent(
            cwd,
            name,
            sep,
        ),
    decreases paths - i,
{
    if i < paths && i < heads.len() {
        lemma_hint_gives_the_name(paths, heads, i + 1, field, name, sep);
    }
}

/// The files that are asked, and for which field.
pub open spec fn hint_plan(
    files: Seq<StoreFileView>,
    key_glob: Option<Seq<char>>,
    key_field: Option<Seq<char>>,
) -> Option<(Seq<Seq<char>>, Seq<char>)> {
    match (key_glob, key_field) {
        (Some(g), Some(f)) => if is_pattern(g) {
            let all = hint_files(files, g);
            let n = if all.len() < HINT_FILES {
                all.len() as int
            } else {
                HINT_FILES as int
            };
            Some((Seq::new(n as nat, |i: int| all[i].1), f))
        } else {
            None
        },
        _ => None,
    }
}

/// What the files of a session directory say of its project.
pub open spec fn hint_of(
    plan: Option<(Seq<Seq<char>>, Seq<char>)>,
    heads: Seq<Seq<Seq<char>>>,
    name: Seq<char>,
    sep: Seq<char>,
) -> HintView {
    match plan {
        Some((paths, field)) => hinted(paths.len() as int, heads, 0, field, name, sep),
        None => HintView::Silent,
    }
}

/// How to go on with a session directory.
#[derive(Debug)]
pub enum DirStep {
    /// It has no sessions.
    Skip,
    /// Read the first lines of this file.
    Read(String),
    /// Find this out about the file system.
    Ask(Look),
    /// These are its sessions.
    Found(Sighting),
}

fn plan_hints(
    files: &Vec<StoreFile>,
    key_glob: &Option<String>,
    key_field: &Option<String>,
) -> (r: Option<(Vec<String>, String)>)
    ensures
        hint_plan(views(files@), opt_view(*key_glob), opt_view(*key_field)) == (match r {
            Some((paths, field)) => Some((views(paths@), field@)),
            None => None,
        }),
{
    match (key_glob, key_field) {
        (Some(g), Some(f)) => match glob_compile(g) {
            Some(pattern) => {
                let all = find_hint_files(files, &pattern);
                let n: usize = if all.len() < HINT_FILES {
                    all.len()
                } else {
                    HINT_FILES
                };
                let ghost want = Seq::new(n as nat, |i: int| views(all@)[i].1);
                let mut paths: Vec<String> = Vec::new();
                let mut i: usize = 0;
                assert(views(paths@) =~= want.take(0));
                while i < n
                    invariant
                        n <= all@.len(),
                        i <= n,
                        want == Seq::new(n as nat, |i: int| views(all@)[i].1),
                        views(paths@) == want.take(i as int),
                    decreases n - i,
                {
                    let ghost so_far = views(paths@);
                    paths.push(all[i].path.clone());
                    assert(views(paths@) =~= so_far.push(want[i as int]));
                    assert(views(paths@) =~= want.take(i + 1));
                    i = i + 1;
                }
                assert(want.take(i as int) =~= want);
                Some((paths, f.clone()))
            },
            None => None,
        },
        _ => None,
    }
}

/// Read a session directory that is named after its project. Each file in it
/// is a session. The project's path is the one that the newest matching file
/// records, where it fits the directory's name; else the name is decoded.
/// `heads` holds the first lines of the files that were asked for so far.
pub fn read_encoded_dir(
    name: &str,
    files: &Vec<StoreFile>,
    separator: &str,
    key_glob: &Option<String>,
    key_field: &Option<String>,
    local_fs: bool,
    tool: &str,
    heads: &Vec<Head>,
    seen: &Seen,
) -> (r: DirStep)
    requires
        file_bytes(views(files@)) <= u64::MAX,
    ensures
        ({
            let count = file_count(views(files@));
            let plan = hint_plan(views(files@), opt_view(*key_glob), opt_view(*key_field));
            let hint = hint_of(plan, views(heads@), name@, separator@);
            match r {
                DirStep::Skip => count == 0,
                DirStep::Read(p) => count > 0 && match (hint, plan) {
                    (HintView::Unread(i), Some((paths, _))) => p@ == paths[i],
                    _ => false,
                },
                DirStep::Ask(q) => count > 0 && hint is Silent && local_fs && separator@.len() > 0
                    && begins(name@, separator@) && worth_asking(
                    *seen,
                    parts_of(name@.skip(separator@.len() as int), separator@),
                    separator@,
                    q,
                ),
                DirStep::Found(s) => count > 0 && s@.tool == tool@ && s@.sessions == tallied(
                    views(files@),
                ) && match hint {
                    HintView::Says(cwd) => s@.path == cwd && s@.confidence
                        == DecodeConfidence::Exact,
                    HintView::Unread(_) => false,
                    HintView::Silent => forall|fs: Fs| #[trigger]
                        seen.of(fs) ==> (s@.path, s@.confidence) == decoded(
                            fs,
                            name@,
                            separator@,
                            local_fs,
                        ),
                },
            }
        }),
{
    let sessions = tally_files(files);
    if sessions.count == 0 {
        return DirStep::Skip;
    }
    if let Some((paths, field)) = plan_hints(files, key_glob, key_field) {
        let ghost hs = views(heads@);
        let ghost want = hinted(paths@.len() as int, hs, 0, field@, name@, separator@);
        let mut fields: Vec<String> = Vec::new();
        let ghost wanted_field = field@;
        fields.push(field);
        assert(views(fields@) =~= seq![wanted_field]);
        let mut i: usize = 0;
        while i < paths.len()
            invariant
                hs == views(heads@),
                i <= paths@.len(),
                views(fields@) == seq![wanted_field],
                sessions.count == file_count(views(files@)),
                sessions.count > 0,
                sessions == tallied(views(files@)),
                hint_plan(views(files@), opt_view(*key_glob), opt_view(*key_field)) == Some(
                    (views(paths@), wanted_field),
                ),
                want == hinted(paths@.len() as int, hs, 0, wanted_field, name@, separator@),
                want == hinted(paths@.len() as int, hs, i as int, wanted_field, name@, separator@),
            decreases paths@.len() - i,
        {
            if i >= heads.len() {
                return DirStep::Read(paths[i].clone());
            }
            assert(hs[i as int] == heads@[i as int]@);
            if let Some(cwd) = jsonl_find_field(&heads[i], &fields, HINT_LINES) {
                if hint_consistent(&cwd, name, separator) {
                    return DirStep::Found(
                        Sighting {
                            path: cwd,
                            confidence: DecodeConfidence::Exact,
                            tool: owned(tool),
                            sessions,
                        },
                    );
                }
            }
            i = i + 1;
        }
    }
    match decode_encoded_name(name, separator, local_fs, seen) {
        Decoded::Path { path, confidence } => DirStep::Found(
            Sighting { path, confidence, tool: owned(tool), sessions },
        ),
        Decoded::Ask(q) => DirStep::Ask(q),
    }
}

/// What an entry of a store's tree is. A link is neither a directory nor a
/// file: it is not followed.
#[derive(Debug, Clone, Copy, PartialEq, Eq, Structural)]
pub enum EntryKind {
    Directory,
    File,
    Other,
}

/// An entry of a store's tree.
#[derive(Debug)]
pub struct TreeEntry {
    pub path: String,
    pub kind: EntryKind,
    pub len: u64,
    pub mtime: u64,
}

/// The model of a [`TreeEntry`].
pub struct TreeEntryView {
    pub path: Seq<char>,
    pub kind: EntryKind,
    pub len: u64,
    pub mtime: u64,
}

impl View for TreeEntry {
    type V = TreeEntryView;

    open spec fn view(&self) -> TreeEntryView {
        TreeEntryView { path: self.path@, kind: self.kind, len: self.len, mtime: self.mtime }
    }
}

impl Clone for TreeEntry {
    fn clone(&self) -> (r: Self)
        ensures
            r@ == self@,
    {
        TreeEntry { path: self.path.clone(), kind: self.kind, len: self.len, mtime: self.mtime }
    }
}

/// A walk through a store of files of JSON lines.
#[derive(Debug)]
pub struct JsonlWalk {
    base: String,
    matcher: glob::Pattern,
    stack: Vec<String>,
    visited: usize,
    cut: bool,
}

/// The model of a [`JsonlWalk`].
pub struct WalkView {
    /// Where the store lies.
    pub base: Seq<char>,
    /// The pattern of its files, below that.
    pub pattern: Seq<char>,
    /// The directories that are still to be listed, the next one last.
    pub stack: Seq<Seq<char>>,
    /// The entries that were visited.
    pub visited: nat,
    /// There were too many of them: the rest was left out.
    pub cut: bool,
}

impl View for JsonlWalk {
    type V = WalkView;

    closed spec fn view(&self) -> WalkView {
        WalkView {
            base: self.base@,
            pattern: pattern_text(self.matcher),
            stack: views(self.stack@),
            visited: self.visited as nat,
            cut: self.cut,
        }
    }
}

/// The part of a path that the store's pattern is held against.
pub open spec fn relative(path: Seq<char>, base: Seq<char>) -> Seq<char> {
    match below(path, base) {
        Some(rel) => rel,
        None => path,
    }
}

/// The walk after the entries of a directory, and the files that are to be
/// read.
pub open spec fn listed(w: WalkView, entries: Seq<TreeEntryView>) -> (WalkView, Seq<TreeEntryView>)
    decreases entries.len(),
{
    if entries.len() == 0 {
        (w, seq![])
    } else {
        let (v, hits) = listed(w, entries.drop_last());
        let e = entries.last();
        if v.cut {
            (v, hits)
        } else if v.visited + 1 > SESSION_WALK_CAP {
            (
                WalkView { stack: seq![], visited: v.visited + 1, cut: true, ..v },
                hits,
            )
        } else {
            let next = WalkView { visited: v.visited + 1, ..v };
            match e.kind {
                EntryKind::Directory => (WalkView { stack: next.stack.push(e.path), ..next }, hits),
                EntryKind::File => if glob_match(v.pattern, relative(e.path, v.base)) {
                    (next, hits.push(e))
                } else {
                    (next, hits)
                },
                EntryKind::Other => (next, hits),
            }
        }
    }
}

impl WalkView {
    /// The walk stays within its bound.
    pub open spec fn bounded(self) -> bool {
        &&& self.visited <= SESSION_WALK_CAP + 1
        &&& self.visited > SESSION_WALK_CAP ==> self.cut
        &&& self.cut ==> self.stack.len() == 0
    }
}

/// However large a store is, no more than so many of its entries are visited,
/// and one that was not walked to its end says so.
pub proof fn lemma_walk_is_bounded(w: WalkView, entries: Seq<TreeEntryView>)
    requires
        w.bounded(),
    ensures
        listed(w, entries).0.bounded(),
        listed(w, entries).0.visited <= w.visited + entries.len(),
        !listed(w, entries).0.cut ==> listed(w, entries).0.visited == w.visited + entries.len(),
    decreases entries.len(),
{
    if entries.len() > 0 {
        lemma_walk_is_bounded(w, entries.drop_last());
    }
}

impl JsonlWalk {
    /// Start at the root of a store. There is nothing to walk without a
    /// directory, or when the declared pattern is none.
    pub fn start(base: &str, base_is_dir: bool, pattern: &str) -> (r: Option<JsonlWalk>)
        ensures
            r is Some == (base_is_dir && is_pattern(pattern@)),
            r matches Some(w) ==> w@ == (WalkView {
                base: base@,
                pattern: pattern@,
                stack: seq![base@],
                visited: 0,
                cut: false,
            }),
            r matches Some(w) ==> w@.bounded(),
    {
        if !base_is_dir {
            return None;
        }
        match glob_compile(pattern) {
            Some(matcher) => {
                let mut stack: Vec<String> = Vec::new();
                stack.push(owned(base));
                assert(views(stack@) =~= seq![base@]);
                Some(JsonlWalk { base: owned(base), matcher, stack, visited: 0, cut: false })
            },
            None => None,
        }
    }

    /// The directory to list next.
    pub fn next(&self) -> (r: Option<String>)
        ensures
            match r {
                Some(p) => self@.stack.len() > 0 && p@ == self@.stack.last(),
                None => self@.stack.len() == 0,
            },
    {
        if self.stack.len() == 0 {
            None
        } else {
            assert(self@.stack.last() == self.stack@.last()@);
            Some(self.stack[self.stack.len() - 1].clone())
        }
    }

    /// The store has more entries than are visited: its census is incomplete.
    pub fn incomplete(&self) -> (r: bool)
        ensures
            r == self@.cut,
    {
        self.cut
    }

    /// Take the entries of the directory that [`JsonlWalk::next`] named, and
    /// say which files are to be read. A directory that cannot be read has
    /// none.
    pub fn read_jsonl_field(&mut self, entries: &Vec<TreeEntry>) -> (r: Vec<TreeEntry>)
        requires
            old(self)@.bounded(),
            old(self)@.stack.len() > 0,
        ensures
            final(self)@.bounded(),
            (final(self)@, views(r@)) == listed(
                (WalkView { stack: old(self)@.stack.drop_last(), ..old(self)@ }),
                views(entries@),
            ),
    {
        let ghost was = self@.stack;
        self.stack.pop();
        assert(self@.stack =~= was.drop_last());
        let ghost start = self@;
        let ghost es = views(entries@);
        let mut hits: Vec<TreeEntry> = Vec::new();
        let mut i: usize = 0;
        assert(es.take(0) =~= Seq::<TreeEntryView>::empty());
        assert(views(hits@) =~= Seq::<TreeEntryView>::empty());
        while i < entries.len() && !self.cut
            invariant
                es == views(entries@),
                i <= entries@.len(),
                self@.bounded(),
                (self@, views(hits@)) == listed(start, es.take(i as int)),
            decreases entries@.len() - i,
        {
            let e = &entries[i];
            proof {
                assert(es.take(i + 1).drop_last() =~= es.take(i as int));
                assert(es.take(i + 1).last() == e@);
            }
            let ghost hits_before = views(hits@);
            let ghost stack_before = self@.stack;
            self.visited = self.visited + 1;
            if self.visited > SESSION_WALK_CAP {
                self.stack = Vec::new();
                self.cut = true;
                assert(self@.stack =~= seq![]);
            } else {
                match e.kind {
                    EntryKind::Directory => {
                        self.stack.push(e.path.clone());
                        assert(self@.stack =~= stack_before.push(e@.path));
                    },
                    EntryKind::File => {
                        let rel = match strip_base(&e.path, &self.base) {
                            Some(rel) => rel,
                            None => e.path.clone(),
                        };
                        if glob_matches(&self.matcher, &rel) {
                            hits.push(e.clone());
                            assert(views(hits@) =~= hits_before.push(e@));
                        }
                    },
                    EntryKind::Other => {},
                }
            }
            i = i + 1;
        }
        proof {
            lemma_cut_stays(start, es, i as int);
        }
        hits
    }
}

proof fn lemma_cut_stays(w: WalkView, entries: Seq<TreeEntryView>, i: int)
    requires
        0 <= i <= entries.len(),
        i < entries.len() ==> listed(w, entries.take(i)).0.cut,
    ensures
        listed(w, entries) == listed(w, entries.take(i)),
    decreases entries.len() - i,
{
    if i < entries.len() {
        assert(entries.take(i + 1).drop_last() =~= entries.take(i));
        lemma_cut_stays(w, entries, i + 1);
    } else {
        assert(entries.take(i) =~= entries);
    }
}

/// The fields that name the project, in the order in which they are tried.
pub open spec fn key_fields(key_field: Seq<char>, fallback: Option<Seq<char>>) -> Seq<Seq<char>> {
    match fallback {
        Some(f) => seq![key_field, f],
        None => seq![key_field],
    }
}

/// The session in a file of JSON lines: its first line names the project, in
/// one field or, without it, in another.
pub fn jsonl_sighting(
    file: &TreeEntry,
    head: &Head,
    key_field: &str,
    fallback_field: &Option<String>,
    tool: &str,
) -> (r: Option<Sighting>)
    ensures
        ({
            let cwd = head_field(head@, key_fields(key_field@, opt_view(*fallback_field)), 1);
            match r {
                Some(s) => cwd == Some(s@.path) && s@.confidence == DecodeConfidence::Exact
                    && s@.tool == tool@ && s@.sessions == (ToolSessions {
                    count: 1,
                    bytes: file.len,
                    last_active_unix: file.mtime,
                }),
                None => cwd is None,
            }
        }),
{
    let mut fields: Vec<String> = Vec::new();
    fields.push(owned(key_field));
    if let Some(f) = fallback_field {
        fields.push(f.clone());
    }
    assert(views(fields@) =~= key_fields(key_field@, opt_view(*fallback_field)));
    match jsonl_find_field(head, &fields, 1) {
        Some(path) => Some(
            Sighting {
                path,
                confidence: DecodeConfidence::Exact,
                tool: owned(tool),
                sessions: ToolSessions { count: 1, bytes: file.len, last_active_unix: file.mtime },
            },
        ),
        None => None,
    }
}

/// The query for the sessions of a database, where the names in it are plain.
pub open spec fn query_text(
    table: Seq<char>,
    path_column: Seq<char>,
    updated_column: Option<Seq<char>>,
    archived_column: Option<Seq<char>>,
) -> Seq<char> {
    let updated = match updated_column {
        Some(c) => if plain_ident(c) {
            ", "@ + c
        } else {
            ", NULL"@
        },
        None => ", NULL"@,
    };
    let live = match archived_column {
        Some(a) => if plain_ident(a) {
            " WHERE "@ + a + " IS NULL"@
        } else {
            ""@
        },
        None => ""@,
    };
    "SELECT "@ + path_column + updated + " FROM "@ + table + live
}

/// The query for the sessions of a database. A name that is no plain
/// identifier is never made part of it; there is no query without the table
/// and the column of the path.
pub fn sqlite_query(
    table: &str,
    path_column: &str,
    updated_column: &Option<String>,
    archived_column: &Option<String>,
) -> (r: Option<String>)
    ensures
        opt_view(r) == (if plain_ident(table@) && plain_ident(path_column@) {
            Some(
                query_text(
                    table@,
                    path_column@,
                    opt_view(*updated_column),
                    opt_view(*archived_column),
                ),
            )
        } else {
            None
        }),
{
    if !safe_ident(table) || !safe_ident(path_column) {
        return None;
    }
    let updated = match updated_column {
        Some(c) => if safe_ident(c) {
            owned(", ").concat(c)
        } else {
            owned(", NULL")
        },
        None => owned(", NULL"),
    };
    let live = match archived_column {
        Some(a) => if safe_ident(a) {
            owned(" WHERE ").concat(a).concat(" IS NULL")
        } else {
            owned("")
        },
        None => owned(""),
    };
    Some(
        owned("SELECT ").concat(path_column).concat(&updated).concat(" FROM ").concat(
            table,
        ).concat(&live),
    )
}

/// The seconds of a timestamp in a declared unit. Seconds that can only be
/// milliseconds are read as such.
pub open spec fn seconds(raw: u64, unit: TimeUnit) -> u64 {
    match unit {
        TimeUnit::Ms => raw / 1000,
        TimeUnit::S => if raw > EPOCH_MS_FLOOR {
            raw / 1000
        } else {
            raw
        },
    }
}

/// The session in a row of a database: the directory of its project and the
/// time of its last change. A row without a directory has none.
pub fn sqlite_sighting(dir: &Option<String>, raw: u64, unit: TimeUnit, tool: &str) -> (r: Option<
    Sighting,
>)
    ensures
        match r {
            Some(s) => opt_view(*dir) == Some(s@.path) && s@.path.len() > 0 && s@.confidence
                == DecodeConfidence::Exact && s@.tool == tool@ && s@.sessions == (ToolSessions {
                count: 1,
                bytes: 0,
                last_active_unix: seconds(raw, unit),
            }),
            None => match opt_view(*dir) {
                Some(d) => d.len() == 0,
                None => true,
            },
        },
{
    match dir {
        Some(d) => {
            if d.as_str().is_empty() {
                return None;
            }
            let last_active_unix: u64 = match unit {
                TimeUnit::Ms => raw / 1000,
                TimeUnit::S => if raw > EPOCH_MS_FLOOR {
                    raw / 1000
                } else {
                    raw
                },
            };
            Some(
                Sighting {
                    path: d.clone(),
                    confidence: DecodeConfidence::Exact,
                    tool: owned(tool),
                    sessions: ToolSessions { count: 1, bytes: 0, last_active_unix },
                },
            )
        },
        None => None,
    }
}

} // verus!
