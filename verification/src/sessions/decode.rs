//! The names of session directories: encoding a project's path, and decoding a
//! name with the help of the directories that exist.
use vstd::prelude::*;

use crate::chars::ascii_alphanumeric;
use crate::paths::{join_path, joined};
use crate::text::{
    begins, chars_of, find, join, join_all, occurs_at, owned, same, string_of, strip_prefix,
    views,
};

verus! {

/// How a session store entry was resolved to a project's path, best first.
#[derive(Debug, Clone, Copy, PartialEq, Eq, PartialOrd, Ord, Structural)]
pub enum DecodeConfidence {
    /// The path is known.
    Exact,
    /// The path is a good guess.
    Inferred,
    /// There is no telling.
    Unresolved,
}

impl Default for DecodeConfidence {
    fn default() -> (r: Self)
        ensures
            r == DecodeConfidence::Unresolved,
    {
        DecodeConfidence::Unresolved
    }
}

impl DecodeConfidence {
    /// The better the confidence, the smaller the rank.
    pub open spec fn rank(self) -> int {
        match self {
            DecodeConfidence::Exact => 0,
            DecodeConfidence::Inferred => 1,
            DecodeConfidence::Unresolved => 2,
        }
    }

    /// The better of two.
    pub open spec fn best(self, other: DecodeConfidence) -> DecodeConfidence {
        if other.rank() < self.rank() {
            other
        } else {
            self
        }
    }

    /// The better of two.
    pub fn better(self, other: DecodeConfidence) -> (r: DecodeConfidence)
        ensures
            r == self.best(other),
    {
        match (self, other) {
            (DecodeConfidence::Exact, _) => DecodeConfidence::Exact,
            (_, DecodeConfidence::Exact) => DecodeConfidence::Exact,
            (DecodeConfidence::Inferred, _) => DecodeConfidence::Inferred,
            (_, DecodeConfidence::Inferred) => DecodeConfidence::Inferred,
            _ => DecodeConfidence::Unresolved,
        }
    }
}

/// What a character becomes in the name of a session directory: an ASCII
/// letter or digit stays, any other is replaced by one separator for each of
/// its UTF-16 units.
pub open spec fn encoded_char(c: char, sep: Seq<char>) -> Seq<char> {
    if ascii_alphanumeric(c) {
        seq![c]
    } else if c as u32 >= 0x10000 {
        sep + sep
    } else {
        sep
    }
}

/// The name of the session directory of a path.
pub open spec fn encoded(path: Seq<char>, sep: Seq<char>) -> Seq<char>
    decreases path.len(),
{
    if path.len() == 0 {
        Seq::empty()
    } else {
        encoded(path.drop_last(), sep) + encoded_char(path.last(), sep)
    }
}

/// The name of the session directory of a path.
pub fn encode_project_path(path: &str, separator: &str) -> (r: String)
    ensures
        r@ == encoded(path@, separator@),
{
    let v = chars_of(path);
    let mut out = String::new();
    let mut i: usize = 0;
    while i < v.len()
        invariant
            v@ == path@,
            i <= v@.len(),
            out@ == encoded(path@.take(i as int), separator@),
        decreases v@.len() - i,
    {
        let c = v[i];
        proof {
            assert(path@.take(i + 1).drop_last() =~= path@.take(i as int));
            assert(path@.take(i + 1).last() == c);
        }
        let ghost so_far = out@;
        if ('a' <= c && c <= 'z') || ('A' <= c && c <= 'Z') || ('0' <= c && c <= '9') {
            out.push(c);
            assert(out@ =~= so_far + seq![c]);
        } else {
            out.append(separator);
            if c as u32 >= 0x10000 {
                out.append(separator);
                assert(out@ =~= so_far + (separator@ + separator@));
            }
        }
        i = i + 1;
    }
    assert(path@.take(i as int) =~= path@);
    out
}

/// Two paths of letters, digits and separators that stand for others get the
/// same name: encoding a name again with a one-character separator of its own
/// changes nothing.
pub proof fn lemma_encoding_is_idempotent(path: Seq<char>, sep: char)
    requires
        (sep as u32) < 0x10000,
    ensures
        encoded(encoded(path, seq![sep]), seq![sep]) == encoded(path, seq![sep]),
    decreases path.len(),
{
    if path.len() > 0 {
        let head = encoded(path.drop_last(), seq![sep]);
        let tail = encoded_char(path.last(), seq![sep]);
        lemma_encoding_is_idempotent(path.drop_last(), sep);
        lemma_encoded_concat(head, tail, seq![sep]);
        assert(encoded(tail, seq![sep]) == tail) by {
            lemma_short_encoding(tail, sep);
        }
    } else {
        assert(encoded(path, seq![sep]) =~= Seq::<char>::empty());
    }
}

pub(crate) proof fn lemma_short_encoding(s: Seq<char>, sep: char)
    requires
        (sep as u32) < 0x10000,
        forall|i: int|
            0 <= i < s.len() ==> ascii_alphanumeric(#[trigger] s[i]) || s[i] == sep,
    ensures
        encoded(s, seq![sep]) == s,
    decreases s.len(),
{
    if s.len() > 0 {
        let d = s.drop_last();
        assert(forall|i: int| 0 <= i < d.len() ==> d[i] == s[i]);
        lemma_short_encoding(d, sep);
        assert(s.last() == s[s.len() - 1]);
        assert(d + seq![s.last()] =~= s);
    } else {
        assert(encoded(s, seq![sep]) =~= s);
    }
}

pub(crate) proof fn lemma_encoded_concat(a: Seq<char>, b: Seq<char>, sep: Seq<char>)
    ensures
        encoded(a + b, sep) == encoded(a, sep) + encoded(b, sep),
    decreases b.len(),
{
    if b.len() == 0 {
        assert(a + b =~= a);
        assert(encoded(a, sep) + encoded(b, sep) =~= encoded(a, sep));
    } else {
        lemma_encoded_concat(a, b.drop_last(), sep);
        assert((a + b).drop_last() =~= a + b.drop_last());
        assert((a + b).last() == b.last());
        assert(encoded(a, sep) + (encoded(b.drop_last(), sep) + encoded_char(b.last(), sep))
            =~= encoded(a, sep) + encoded(b.drop_last(), sep) + encoded_char(b.last(), sep));
    }
}

/// The position of the first `sep` in `s` at or after `i`, or the length.
pub open spec fn next_separator(s: Seq<char>, sep: Seq<char>, i: int) -> int
    decreases s.len() - i,
{
    if i >= s.len() {
        s.len() as int
    } else if occurs_at(s, sep, i) {
        i
    } else {
        next_separator(s, sep, i + 1)
    }
}

/// The parts of `s` between the separators.
pub open spec fn parts_of(s: Seq<char>, sep: Seq<char>) -> Seq<Seq<char>>
    decreases s.len(),
{
    let k = next_separator(s, sep, 0);
    if sep.len() == 0 || k < 0 || k + sep.len() > s.len() {
        seq![s]
    } else {
        seq![s.take(k)] + parts_of(s.skip(k + sep.len()), sep)
    }
}

proof fn lemma_next_separator(s: Seq<char>, sep: Seq<char>, a: int, i: int)
    requires
        0 <= a <= s.len(),
        0 <= i <= s.len() - a,
    ensures
        next_separator(s.skip(a), sep, i) == next_separator(s, sep, a + i) - a,
    decreases s.len() - a - i,
{
    if i < s.len() - a {
        let t = s.skip(a);
        if occurs_at(t, sep, i) {
            assert(t.subrange(i, i + sep.len()) =~= s.subrange(a + i, a + i + sep.len()));
        }
        if occurs_at(s, sep, a + i) {
            assert(t.subrange(i, i + sep.len()) =~= s.subrange(a + i, a + i + sep.len()));
        }
        lemma_next_separator(s, sep, a, i + 1);
    }
}

pub(crate) proof fn lemma_next_is(s: Seq<char>, sep: Seq<char>, i: int, k: int)
    requires
        0 <= i <= k <= s.len(),
        k < s.len() ==> occurs_at(s, sep, k),
        forall|j: int| i <= j < k ==> !occurs_at(s, sep, j),
    ensures
        next_separator(s, sep, i) == k,
    decreases k - i,
{
    if i < k {
        lemma_next_is(s, sep, i + 1, k);
    }
}

/// The parts of a text between the separators.
pub fn split_parts(s: &str, sep: &str) -> (r: Vec<String>)
    requires
        sep@.len() > 0,
    ensures
        views(r@) == parts_of(s@, sep@),
        r@.len() > 0,
{
    let v = chars_of(s);
    let w = chars_of(sep);
    let mut out: Vec<String> = Vec::new();
    let mut start: usize = 0;
    assert(s@.skip(0) =~= s@);
    assert(views(out@) + parts_of(s@, sep@) =~= parts_of(s@, sep@));
    loop
        invariant
            sep@.len() > 0,
            v@ == s@,
            w@ == sep@,
            start <= v@.len(),
            views(out@) + parts_of(s@.skip(start as int), sep@) == parts_of(s@, sep@),
        decreases v@.len() - start,
    {
        let k: usize = match find(&v, &w, start) {
            Some(k) => k,
            None => v.len(),
        };
        let ghost rest = s@.skip(start as int);
        let piece = string_of(&v, start, k);
        let ghost so_far = views(out@);
        out.push(piece);
        assert(views(out@) =~= so_far.push(piece@));
        proof {
            lemma_next_is(s@, sep@, start as int, k as int);
            lemma_next_separator(s@, sep@, start as int, 0);
        }
        if k == v.len() {
            assert(piece@ =~= rest);
            assert(views(out@) =~= parts_of(s@, sep@));
            return out;
        }
        proof {
            assert(piece@ =~= rest.take(k - start));
            assert(rest.skip(k - start + sep@.len()) =~= s@.skip(k + sep@.len()));
            assert(so_far + (seq![piece@] + parts_of(s@.skip(k + sep@.len()), sep@)) =~= views(
                out@,
            ) + parts_of(s@.skip(k + sep@.len()), sep@));
        }
        start = k + w.len();
    }
}

/// The directories of a file system.
pub struct Fs {
    /// There is a directory at the path.
    pub is_dir: spec_fn(Seq<char>) -> bool,
    /// What is in a directory that can be read: names, and which of them are
    /// directories.
    pub list: spec_fn(Seq<char>) -> Seq<(Seq<char>, bool)>,
}

/// An entry of a directory.
#[derive(Debug)]
pub struct DirChild {
    pub name: String,
    pub is_dir: bool,
}

impl View for DirChild {
    type V = (Seq<char>, bool);

    open spec fn view(&self) -> (Seq<char>, bool) {
        (self.name@, self.is_dir)
    }
}

/// What has been found out about a path.
#[derive(Debug)]
pub struct SeenDir {
    pub path: String,
    pub is_dir: bool,
}

/// What has been found in a directory; nothing when it cannot be read.
#[derive(Debug)]
pub struct SeenList {
    pub path: String,
    pub children: Vec<DirChild>,
}

/// What is known of the file system.
#[derive(Debug)]
pub struct Seen {
    pub dirs: Vec<SeenDir>,
    pub lists: Vec<SeenList>,
}

impl Seen {
    /// The file system is one of which all this may have been seen.
    pub open spec fn of(self, fs: Fs) -> bool {
        &&& forall|i: int|
            0 <= i < self.dirs@.len() ==> (fs.is_dir)((#[trigger] self.dirs@[i]).path@)
                == self.dirs@[i].is_dir
        &&& forall|i: int|
            0 <= i < self.lists@.len() ==> (fs.list)((#[trigger] self.lists@[i]).path@) == views(
                self.lists@[i].children@,
            )
    }

    /// Nothing is known yet.
    pub fn nothing() -> (r: Seen)
        ensures
            forall|fs: Fs| r.of(fs),
    {
        Seen { dirs: Vec::new(), lists: Vec::new() }
    }
}

/// A question about the file system.
#[derive(Debug)]
pub enum Look {
    /// Is there a directory at the path?
    IsDir { path: String },
    /// What is in the directory?
    List { path: String },
}

/// The question has not been answered.
pub open spec fn unanswered(seen: Seen, q: Look) -> bool {
    match q {
        Look::IsDir { path } => forall|i: int|
            0 <= i < seen.dirs@.len() ==> (#[trigger] seen.dirs@[i]).path@ != path@,
        Look::List { path } => forall|i: int|
            0 <= i < seen.lists@.len() ==> (#[trigger] seen.lists@[i]).path@ != path@,
    }
}

fn look_dir(seen: &Seen, path: &str) -> (r: Result<bool, Look>)
    ensures
        match r {
            Ok(b) => forall|fs: Fs| #[trigger] seen.of(fs) ==> (fs.is_dir)(path@) == b,
            Err(q) => unanswered(*seen, q) && (q matches Look::IsDir { path: p } && p@ == path@),
        },
{
    let mut i: usize = 0;
    while i < seen.dirs.len()
        invariant
            i <= seen.dirs@.len(),
            forall|j: int| 0 <= j < i ==> (#[trigger] seen.dirs@[j]).path@ != path@,
        decreases seen.dirs@.len() - i,
    {
        if same(&seen.dirs[i].path, path) {
            let b = seen.dirs[i].is_dir;
            assert forall|fs: Fs| #[trigger] seen.of(fs) implies (fs.is_dir)(path@) == b by {
                assert((fs.is_dir)(seen.dirs@[i as int].path@) == seen.dirs@[i as int].is_dir);
            }
            return Ok(b);
        }
        i = i + 1;
    }
    Err(Look::IsDir { path: owned(path) })
}

fn look_list<'a>(seen: &'a Seen, path: &str) -> (r: Result<&'a Vec<DirChild>, Look>)
    ensures
        match r {
            Ok(v) => forall|fs: Fs| #[trigger] seen.of(fs) ==> (fs.list)(path@) == views(v@),
            Err(q) => unanswered(*seen, q) && (q matches Look::List { path: p } && p@ == path@),
        },
{
    let mut i: usize = 0;
    while i < seen.lists.len()
        invariant
            i <= seen.lists@.len(),
            forall|j: int| 0 <= j < i ==> (#[trigger] seen.lists@[j]).path@ != path@,
        decreases seen.lists@.len() - i,
    {
        if same(&seen.lists[i].path, path) {
            let v = &seen.lists[i].children;
            assert forall|fs: Fs| #[trigger] seen.of(fs) implies (fs.list)(path@) == views(v@) by {
                assert((fs.list)(seen.lists@[i as int].path@) == views(
                    seen.lists@[i as int].children@,
                ));
            }
            return Ok(v);
        }
        i = i + 1;
    }
    Err(Look::List { path: owned(path) })
}

/// A directory that may stand for the next parts of a name, and how many of them.
pub struct Candidate {
    pub path: String,
    pub parts: usize,
}

impl View for Candidate {
    type V = (Seq<char>, int);

    open spec fn view(&self) -> (Seq<char>, int) {
        (self.path@, self.parts as int)
    }
}

/// A child stands for the first `k` parts: its name is another, and encodes to them.
pub open spec fn stands_for(
    child: (Seq<char>, bool),
    parts: Seq<Seq<char>>,
    sep: Seq<char>,
    k: int,
) -> bool {
    let enc = encoded(child.0, sep);
    &&& child.1
    &&& enc != child.0
    &&& parts_of(enc, sep).len() == k
    &&& parts_of(enc, sep) == parts.take(k)
}

/// The children that stand for the first `k` parts.
pub open spec fn encoded_children(
    base: Seq<char>,
    list: Seq<(Seq<char>, bool)>,
    parts: Seq<Seq<char>>,
    sep: Seq<char>,
    k: int,
) -> Seq<(Seq<char>, int)>
    decreases list.len(),
{
    if list.len() == 0 {
        Seq::empty()
    } else {
        let rest = encoded_children(base, list.drop_last(), parts, sep, k);
        if stands_for(list.last(), parts, sep, k) {
            rest.push((joined(base, list.last().0), k))
        } else {
            rest
        }
    }
}

/// The directory whose name is the first `k` parts as they are.
pub open spec fn literal_child(
    fs: Fs,
    base: Seq<char>,
    parts: Seq<Seq<char>>,
    sep: Seq<char>,
    k: int,
) -> Seq<(Seq<char>, int)> {
    let segment = join(parts.take(k), sep);
    if segment.len() > 0 && (fs.is_dir)(joined(base, segment)) {
        seq![(joined(base, segment), k)]
    } else {
        Seq::empty()
    }
}

/// The directories below `base` that may stand for one to `k` of the next
/// parts, those that stand for fewer first.
pub open spec fn candidates(
    fs: Fs,
    base: Seq<char>,
    parts: Seq<Seq<char>>,
    sep: Seq<char>,
    k: int,
) -> Seq<(Seq<char>, int)>
    decreases k,
{
    if k <= 0 {
        Seq::empty()
    } else {
        candidates(fs, base, parts, sep, k - 1) + (literal_child(fs, base, parts, sep, k)
            + encoded_children(base, (fs.list)(base), parts, sep, k))
    }
}

/// The question is what is in `base`, or whether a name made of the next parts
/// as they are is that of a directory there.
pub open spec fn asks_at(base: Seq<char>, parts: Seq<Seq<char>>, sep: Seq<char>, q: Look) -> bool {
    match q {
        Look::List { path } => path@ == base,
        Look::IsDir { path } => exists|k: int|
            1 <= k <= parts.len() && path@ == joined(base, #[trigger] join(parts.take(k), sep)),
    }
}

/// The question is about `base`, or about a directory that some of the parts
/// lead to from there.
pub open spec fn on_the_way(
    fs: Fs,
    base: Seq<char>,
    parts: Seq<Seq<char>>,
    sep: Seq<char>,
    q: Look,
) -> bool
    decreases parts.len(),
{
    asks_at(base, parts, sep, q) || exists|i: int|
        {
            &&& 0 <= i < candidates(fs, base, parts, sep, parts.len() as int).len()
            &&& 1 <= candidates(fs, base, parts, sep, parts.len() as int)[i].1 <= parts.len()
            &&& on_the_way(
                fs,
                (#[trigger] candidates(fs, base, parts, sep, parts.len() as int)[i]).0,
                parts.skip(candidates(fs, base, parts, sep, parts.len() as int)[i].1),
                sep,
                q,
            )
        }
}

/// The question has not been answered, and on every file system of which all
/// this may have been seen it is on the way of the parts from the root.
pub open spec fn worth_asking(seen: Seen, parts: Seq<Seq<char>>, sep: Seq<char>, q: Look) -> bool {
    unanswered(seen, q) && forall|fs: Fs| #[trigger]
        seen.of(fs) ==> on_the_way(fs, "/"@, parts, sep, q)
}

pub(crate) proof fn lemma_candidates(fs: Fs, base: Seq<char>, parts: Seq<Seq<char>>, sep: Seq<char>, k: int)
    requires
        0 <= k <= parts.len(),
    ensures
        forall|i: int|
            0 <= i < candidates(fs, base, parts, sep, k).len() ==> 1 <= (#[trigger] candidates(
                fs,
                base,
                parts,
                sep,
                k,
            )[i]).1 <= k,
    decreases k,
{
    if k > 0 {
        lemma_candidates(fs, base, parts, sep, k - 1);
        let a = candidates(fs, base, parts, sep, k - 1);
        let b = literal_child(fs, base, parts, sep, k);
        let c = encoded_children(base, (fs.list)(base), parts, sep, k);
        lemma_encoded_children(base, (fs.list)(base), parts, sep, k);
        let all = candidates(fs, base, parts, sep, k);
        assert(all == a + (b + c));
        assert forall|i: int| 0 <= i < all.len() implies 1 <= (#[trigger] all[i]).1 <= k by {
            if i < a.len() {
                assert(all[i] == a[i]);
            } else if i < a.len() + b.len() {
                assert(all[i] == b[i - a.len()]);
            } else {
                assert(all[i] == c[i - a.len() - b.len()]);
            }
        }
    }
}

proof fn lemma_encoded_children(
    base: Seq<char>,
    list: Seq<(Seq<char>, bool)>,
    parts: Seq<Seq<char>>,
    sep: Seq<char>,
    k: int,
)
    ensures
        forall|i: int|
            0 <= i < encoded_children(base, list, parts, sep, k).len() ==> (
            #[trigger] encoded_children(base, list, parts, sep, k)[i]).1 == k,
    decreases list.len(),
{
    if list.len() > 0 {
        let rest = encoded_children(base, list.drop_last(), parts, sep, k);
        let all = encoded_children(base, list, parts, sep, k);
        lemma_encoded_children(base, list.drop_last(), parts, sep, k);
        assert forall|i: int| 0 <= i < all.len() implies (#[trigger] all[i]).1 == k by {
            if i < rest.len() {
                assert(all[i] == rest[i]);
            }
        }
    }
}

fn is_named(child: &DirChild, parts: &Vec<String>, at: usize, sep: &str, k: usize) -> (r: bool)
    requires
        sep@.len() > 0,
        at + k <= parts@.len(),
    ensures
        r == stands_for(child@, views(parts@).skip(at as int), sep@, k as int),
{
    let ghost rest = views(parts@).skip(at as int);
    if !child.is_dir {
        return false;
    }
    let enc = encode_project_path(&child.name, sep);
    if same(&enc, &child.name) {
        return false;
    }
    let mine = split_parts(&enc, sep);
    if mine.len() != k {
        return false;
    }
    let n: usize = parts.len();
    let mut i: usize = 0;
    while i < k
        invariant
            i <= k,
            n == parts@.len(),
            mine@.len() == k,
            views(mine@) == parts_of(encoded(child@.0, sep@), sep@),
            at + k <= parts@.len(),
            rest == views(parts@).skip(at as int),
            forall|j: int| 0 <= j < i ==> views(mine@)[j] == rest[j],
        decreases k - i,
    {
        if !same(&mine[i], &parts[at + i]) {
            assert(views(mine@)[i as int] != rest.take(k as int)[i as int]);
            assert(views(mine@) != rest.take(k as int));
            return false;
        }
        assert(views(mine@)[i as int] == rest[i as int]);
        i = i + 1;
    }
    assert(views(mine@) =~= rest.take(k as int));
    true
}

fn push_candidate(out: &mut Vec<Candidate>, path: String, parts: usize)
    ensures
        views(final(out)@) == views(old(out)@).push((path@, parts as int)),
{
    let ghost so_far = views(out@);
    out.push(Candidate { path, parts });
    assert(views(out@) =~= so_far.push((path@, parts as int)));
}

/// The directories below `base` that may stand for the next parts of a name,
/// those that stand for fewer first.
pub fn children_matching(seen: &Seen, base: &str, parts: &Vec<String>, at: usize, sep: &str) -> (r:
    Result<Vec<Candidate>, Look>)
    requires
        sep@.len() > 0,
        at <= parts@.len(),
    ensures
        match r {
            Ok(v) => forall|fs: Fs| #[trigger]
                seen.of(fs) ==> views(v@) == candidates(
                    fs,
                    base@,
                    views(parts@).skip(at as int),
                    sep@,
                    parts@.len() - at,
                ),
            Err(q) => unanswered(*seen, q) && asks_at(
                base@,
                views(parts@).skip(at as int),
                sep@,
                q,
            ),
        },
{
    let ghost rest = views(parts@).skip(at as int);
    let mut out: Vec<Candidate> = Vec::new();
    let children = match look_list(seen, base) {
        Ok(v) => v,
        Err(q) => {
            return Err(q);
        },
    };
    let n: usize = parts.len();
    let total: usize = n - at;
    let mut k: usize = 0;
    let mut segment_parts: Vec<String> = Vec::new();
    assert(views(out@) =~= Seq::<(Seq<char>, int)>::empty());
    while k < total
        invariant
            sep@.len() > 0,
            n == parts@.len(),
            at <= parts@.len(),
            total == parts@.len() - at,
            rest == views(parts@).skip(at as int),
            k <= total,
            views(segment_parts@) == rest.take(k as int),
            forall|fs: Fs| #[trigger]
                seen.of(fs) ==> (fs.list)(base@) == views(children@),
            forall|fs: Fs| #[trigger]
                seen.of(fs) ==> views(out@) == candidates(fs, base@, rest, sep@, k as int),
        decreases total - k,
    {
        let ghost start = views(out@);
        let ghost so_far = views(segment_parts@);
        segment_parts.push(parts[at + k].clone());
        k = k + 1;
        assert(views(segment_parts@) =~= so_far.push(rest[k - 1]));
        assert(views(segment_parts@) =~= rest.take(k as int));
        let segment = join_all(&segment_parts, sep);
        let mut here: Vec<Candidate> = Vec::new();
        assert(views(here@) =~= Seq::<(Seq<char>, int)>::empty());
        if !segment.as_str().is_empty() {
            let literal = join_path(base, &segment);
            match look_dir(seen, &literal) {
                Err(q) => {
                    assert(literal@ == joined(base@, join(rest.take(k as int), sep@)));
                    return Err(q);
                },
                Ok(b) => {
                    if b {
                        push_candidate(&mut here, literal, k);
                        assert(views(here@) =~= seq![(joined(base@, segment@), k as int)]);
                    }
                },
            }
        }
        assert forall|fs: Fs| #[trigger] seen.of(fs) implies views(here@) == literal_child(
            fs,
            base@,
            rest,
            sep@,
            k as int,
        ) by {}
        let ghost lit = views(here@);
        let mut i: usize = 0;
        assert(lit + encoded_children(base@, views(children@).take(0), rest, sep@, k as int)
            =~= lit);
        while i < children.len()
            invariant
                sep@.len() > 0,
                i <= children@.len(),
                1 <= k <= total,
                total == parts@.len() - at,
                at <= parts@.len(),
                rest == views(parts@).skip(at as int),
                views(here@) == lit + encoded_children(
                    base@,
                    views(children@).take(i as int),
                    rest,
                    sep@,
                    k as int,
                ),
            decreases children@.len() - i,
        {
            proof {
                let next = views(children@).take(i + 1);
                assert(next.drop_last() =~= views(children@).take(i as int));
                assert(next.last() == children@[i as int]@);
            }
            if is_named(&children[i], parts, at, sep, k) {
                let path = join_path(base, &children[i].name);
                let ghost enc = encoded_children(
                    base@,
                    views(children@).take(i as int),
                    rest,
                    sep@,
                    k as int,
                );
                push_candidate(&mut here, path, k);
                assert((lit + enc).push((path@, k as int)) =~= lit + enc.push((path@, k as int)));
            }
            i = i + 1;
        }
        assert(views(children@).take(i as int) =~= views(children@));
        let ghost found = views(here@);
        let ghost mid = views(out@);
        out.append(&mut here);
        assert(views(out@) =~= mid + found);
        assert forall|fs: Fs| #[trigger] seen.of(fs) implies views(out@) == candidates(
            fs,
            base@,
            rest,
            sep@,
            k as int,
        ) by {
            assert(start == candidates(fs, base@, rest, sep@, k - 1));
        }
    }
    Ok(out)
}

/// The paths that consume all parts, at most two of them, after those found
/// already.
pub open spec fn walked(
    fs: Fs,
    base: Seq<char>,
    parts: Seq<Seq<char>>,
    sep: Seq<char>,
    found: Seq<Seq<char>>,
) -> Seq<Seq<char>>
    decreases parts.len(), 1int, 0int,
{
    if found.len() >= 2 {
        found
    } else if parts.len() == 0 {
        found.push(base)
    } else {
        let c = candidates(fs, base, parts, sep, parts.len() as int);
        walked_from(fs, c, parts, sep, found, 0)
    }
}

/// The same through the candidates from the `i`-th on.
pub open spec fn walked_from(
    fs: Fs,
    c: Seq<(Seq<char>, int)>,
    parts: Seq<Seq<char>>,
    sep: Seq<char>,
    found: Seq<Seq<char>>,
    i: int,
) -> Seq<Seq<char>>
    decreases parts.len(), 0int, c.len() - i,
{
    if i < 0 || i >= c.len() || found.len() >= 2 || !(1 <= c[i].1 <= parts.len()) {
        found
    } else {
        walked_from(
            fs,
            c,
            parts,
            sep,
            walked(fs, c[i].0, parts.skip(c[i].1), sep, found),
            i + 1,
        )
    }
}

/// Collect the paths that consume all parts, at most two.
fn walk(
    seen: &Seen,
    base: &str,
    parts: &Vec<String>,
    at: usize,
    sep: &str,
    found: &mut Vec<String>,
) -> (r: Result<(), Look>)
    requires
        sep@.len() > 0,
        at <= parts@.len(),
    ensures
        match r {
            Ok(()) => forall|fs: Fs| #[trigger]
                seen.of(fs) ==> views(final(found)@) == walked(
                    fs,
                    base@,
                    views(parts@).skip(at as int),
                    sep@,
                    views(old(found)@),
                ),
            Err(q) => unanswered(*seen, q) && forall|fs: Fs| #[trigger]
                seen.of(fs) ==> on_the_way(fs, base@, views(parts@).skip(at as int), sep@, q),
        },
    decreases parts@.len() - at,
{
    let ghost rest = views(parts@).skip(at as int);
    let ghost start = views(found@);
    if found.len() >= 2 {
        return Ok(());
    }
    if at == parts.len() {
        found.push(owned(base));
        assert(views(found@) =~= start.push(base@));
        return Ok(());
    }
    let kids = match children_matching(seen, base, parts, at, sep) {
        Ok(v) => v,
        Err(q) => {
            return Err(q);
        },
    };
    let ghost c = views(kids@);
    let mut i: usize = 0;
    while i < kids.len()
        invariant
            sep@.len() > 0,
            at < parts@.len(),
            rest == views(parts@).skip(at as int),
            start == views(old(found)@),
            start.len() < 2,
            c == views(kids@),
            i <= kids@.len(),
            forall|fs: Fs| #[trigger]
                seen.of(fs) ==> c == candidates(fs, base@, rest, sep@, rest.len() as int),
            forall|fs: Fs| #[trigger]
                seen.of(fs) ==> walked_from(fs, c, rest, sep@, views(found@), i as int)
                    == walked_from(fs, c, rest, sep@, start, 0),
        decreases kids@.len() - i,
    {
        if found.len() >= 2 {
            return Ok(());
        }
        let k: usize = kids[i].parts;
        assert(c[i as int] == kids@[i as int]@);
        if k == 0 || k > parts.len() - at {
            proof {
                assert forall|fs: Fs| #[trigger] seen.of(fs) implies false by {
                    lemma_candidates(fs, base@, rest, sep@, rest.len() as int);
                }
            }
            return Ok(());
        }
        let ghost now = views(found@);
        match walk(seen, &kids[i].path, parts, at + k, sep, found) {
            Ok(()) => {},
            Err(q) => {
                proof {
                    assert(rest.skip(k as int) =~= views(parts@).skip(at + k));
                    assert forall|fs: Fs| #[trigger] seen.of(fs) implies on_the_way(
                        fs,
                        base@,
                        rest,
                        sep@,
                        q,
                    ) by {
                        let all = candidates(fs, base@, rest, sep@, rest.len() as int);
                        assert(all[i as int] == c[i as int]);
                    }
                }
                return Err(q);
            },
        }
        proof {
            assert(rest.skip(k as int) =~= views(parts@).skip(at + k));
        }
        i = i + 1;
    }
    Ok(())
}

/// The deepest path that some of the parts lead to, with how many they are.
pub open spec fn deepest(fs: Fs, base: Seq<char>, parts: Seq<Seq<char>>, sep: Seq<char>) -> (
    Seq<char>,
    int,
)
    decreases parts.len(), 1int, 0int,
{
    let c = candidates(fs, base, parts, sep, parts.len() as int);
    deepest_from(fs, c, parts, sep, (base, 0), 0)
}

/// The same through the candidates from the `i`-th on.
pub open spec fn deepest_from(
    fs: Fs,
    c: Seq<(Seq<char>, int)>,
    parts: Seq<Seq<char>>,
    sep: Seq<char>,
    best: (Seq<char>, int),
    i: int,
) -> (Seq<char>, int)
    decreases parts.len(), 0int, c.len() - i,
{
    if i < 0 || i >= c.len() || !(1 <= c[i].1 <= parts.len()) {
        best
    } else {
        let (path, more) = deepest(fs, c[i].0, parts.skip(c[i].1), sep);
        let total = c[i].1 + more;
        deepest_from(
            fs,
            c,
            parts,
            sep,
            if total > best.1 {
                (path, total)
            } else {
                best
            },
            i + 1,
        )
    }
}

/// The deepest path that some of the parts lead to.
fn deepest_match(seen: &Seen, base: &str, parts: &Vec<String>, at: usize, sep: &str) -> (r: Result<
    (String, usize),
    Look,
>)
    requires
        sep@.len() > 0,
        at <= parts@.len(),
    ensures
        match r {
            Ok((p, n)) => n <= parts@.len() - at && forall|fs: Fs| #[trigger]
                seen.of(fs) ==> (p@, n as int) == deepest(
                    fs,
                    base@,
                    views(parts@).skip(at as int),
                    sep@,
                ),
            Err(q) => unanswered(*seen, q) && forall|fs: Fs| #[trigger]
                seen.of(fs) ==> on_the_way(fs, base@, views(parts@).skip(at as int), sep@, q),
        },
    decreases parts@.len() - at,
{
    let ghost rest = views(parts@).skip(at as int);
    let kids = match children_matching(seen, base, parts, at, sep) {
        Ok(v) => v,
        Err(q) => {
            return Err(q);
        },
    };
    let ghost c = views(kids@);
    let n: usize = parts.len();
    let mut best = owned(base);
    let mut count: usize = 0;
    let mut i: usize = 0;
    while i < kids.len()
        invariant
            sep@.len() > 0,
            at <= parts@.len(),
            rest == views(parts@).skip(at as int),
            c == views(kids@),
            i <= kids@.len(),
            count <= parts@.len() - at,
            forall|fs: Fs| #[trigger]
                seen.of(fs) ==> c == candidates(fs, base@, rest, sep@, rest.len() as int),
            forall|fs: Fs| #[trigger]
                seen.of(fs) ==> deepest_from(fs, c, rest, sep@, (best@, count as int), i as int)
                    == deepest_from(fs, c, rest, sep@, (base@, 0), 0),
        decreases kids@.len() - i,
    {
        let k: usize = kids[i].parts;
        assert(c[i as int] == kids@[i as int]@);
        if k == 0 || k > parts.len() - at {
            proof {
                assert forall|fs: Fs| #[trigger] seen.of(fs) implies false by {
                    lemma_candidates(fs, base@, rest, sep@, rest.len() as int);
                }
            }
            return Ok((best, count));
        }
        let (path, more) = match deepest_match(seen, &kids[i].path, parts, at + k, sep) {
            Ok(x) => x,
            Err(q) => {
                proof {
                    assert(rest.skip(k as int) =~= views(parts@).skip(at + k));
                    assert forall|fs: Fs| #[trigger] seen.of(fs) implies on_the_way(
                        fs,
                        base@,
                        rest,
                        sep@,
                        q,
                    ) by {
                        let all = candidates(fs, base@, rest, sep@, rest.len() as int);
                        assert(all[i as int] == c[i as int]);
                    }
                }
                return Err(q);
            },
        };
        proof {
            assert(rest.skip(k as int) =~= views(parts@).skip(at + k));
        }
        let total: usize = k + more;
        if total > count {
            best = path;
            count = total;
        }
        i = i + 1;
    }
    Ok((best, count))
}

/// The path that a name stands for when every separator is taken for a slash.
pub open spec fn naive_path(parts: Seq<Seq<char>>) -> Seq<char> {
    "/"@ + join(parts, "/"@)
}

/// The path that an encoded name stands for, on a given file system. A name
/// that is consumed whole by directories that exist is known, unless there
/// are two ways to do so; otherwise what is left over is taken for the last
/// name below the deepest directory that exists.
pub open spec fn decoded(fs: Fs, name: Seq<char>, sep: Seq<char>, local: bool) -> (
    Seq<char>,
    DecodeConfidence,
) {
    if sep.len() == 0 || !begins(name, sep) {
        (name, DecodeConfidence::Unresolved)
    } else {
        let parts = parts_of(name.skip(sep.len() as int), sep);
        if !local {
            (naive_path(parts), DecodeConfidence::Inferred)
        } else {
            let full = walked(fs, "/"@, parts, sep, Seq::empty());
            if full.len() > 0 {
                (
                    full[0],
                    if full.len() == 1 {
                        DecodeConfidence::Exact
                    } else {
                        DecodeConfidence::Inferred
                    },
                )
            } else {
                let (ancestor, consumed) = deepest(fs, "/"@, parts, sep);
                if consumed == 0 {
                    (naive_path(parts), DecodeConfidence::Inferred)
                } else {
                    (
                        joined(ancestor, join(parts.skip(consumed), sep)),
                        DecodeConfidence::Inferred,
                    )
                }
            }
        }
    }
}

/// What is known of an encoded name.
#[derive(Debug)]
pub enum Decoded {
    /// The path that it stands for.
    Path { path: String, confidence: DecodeConfidence },
    /// This must be found out first.
    Ask(Look),
}

/// Decode the name of a session directory, from what has been seen of the
/// file system. Whatever else there may be on it, the answer is the same;
/// where that is not known yet, the next question is returned, about a
/// directory that the name leads to.
pub fn decode_encoded_name(name: &str, separator: &str, local_fs: bool, seen: &Seen) -> (r: Decoded)
    ensures
        match r {
            Decoded::Path { path, confidence } => forall|fs: Fs| #[trigger]
                seen.of(fs) ==> (path@, confidence) == decoded(fs, name@, separator@, local_fs),
            Decoded::Ask(q) => local_fs && separator@.len() > 0 && begins(name@, separator@)
                && worth_asking(
                *seen,
                parts_of(name@.skip(separator@.len() as int), separator@),
                separator@,
                q,
            ),
        },
{
    if separator.is_empty() {
        return Decoded::Path { path: owned(name), confidence: DecodeConfidence::Unresolved };
    }
    let rest = match strip_prefix(name, separator) {
        Some(r) => r,
        None => {
            return Decoded::Path { path: owned(name), confidence: DecodeConfidence::Unresolved };
        },
    };
    let parts = split_parts(&rest, separator);
    assert(views(parts@).skip(0) =~= views(parts@));
    let naive = owned("/").concat(&join_all(&parts, "/"));
    if !local_fs {
        return Decoded::Path { path: naive, confidence: DecodeConfidence::Inferred };
    }
    let mut full: Vec<String> = Vec::new();
    assert(views(full@) =~= Seq::<Seq<char>>::empty());
    match walk(seen, "/", &parts, 0, separator, &mut full) {
        Ok(()) => {},
        Err(q) => {
            return Decoded::Ask(q);
        },
    }
    if full.len() > 0 {
        assert(views(full@)[0] == full@[0]@);
        let confidence = if full.len() == 1 {
            DecodeConfidence::Exact
        } else {
            DecodeConfidence::Inferred
        };
        return Decoded::Path { path: full[0].clone(), confidence };
    }
    let (ancestor, consumed) = match deepest_match(seen, "/", &parts, 0, separator) {
        Ok(x) => x,
        Err(q) => {
            return Decoded::Ask(q);
        },
    };
    if consumed == 0 {
        return Decoded::Path { path: naive, confidence: DecodeConfidence::Inferred };
    }
    let mut left: Vec<String> = Vec::new();
    let mut i: usize = consumed;
    assert(views(left@) =~= views(parts@).subrange(consumed as int, i as int));
    while i < parts.len()
        invariant
            consumed <= i <= parts@.len(),
            views(left@) == views(parts@).subrange(consumed as int, i as int),
        decreases parts@.len() - i,
    {
        let ghost so_far = views(left@);
        left.push(parts[i].clone());
        assert(views(left@) =~= so_far.push(views(parts@)[i as int]));
        assert(views(left@) =~= views(parts@).subrange(consumed as int, i + 1));
        i = i + 1;
    }
    assert(views(left@) =~= views(parts@).skip(consumed as int));
    let leaf = join_all(&left, separator);
    Decoded::Path {
        path: join_path(&ancestor, &leaf),
        confidence: DecodeConfidence::Inferred,
    }
}

/// Decode a name against this machine's file system.
pub fn decode_claude_project_dir(name: &str, separator: &str, seen: &Seen) -> (r: Decoded)
    ensures
        match r {
            Decoded::Path { path, confidence } => forall|fs: Fs| #[trigger]
                seen.of(fs) ==> (path@, confidence) == decoded(fs, name@, separator@, true),
            Decoded::Ask(q) => separator@.len() > 0 && begins(name@, separator@) && worth_asking(
                *seen,
                parts_of(name@.skip(separator@.len() as int), separator@),
                separator@,
                q,
            ),
        },
{
    decode_encoded_name(name, separator, true, seen)
}

} // verus!
