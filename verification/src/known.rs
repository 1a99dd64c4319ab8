//! Which directories are projects to act on.
//!
//! Of the renames under a watched tree almost none moves a project. A rename
//! matters when the directory is one that a session store is keyed to or that
//! was registered, or when it contains one.
pub mod laws;

use vstd::prelude::*;

use crate::paths::parts::{lemma_below, lemma_joined};
use crate::paths::{
    absolute, below, comps, file_name, is_absolute, is_under, join_path, joined, last_name, parent,
    parent_of, path_eq, same_path, strip_base, under,
};
use crate::sessions::census::{GroupView, SessionGroup};
use crate::sessions::decode::DecodeConfidence;
use crate::sorted::{
    insert_sorted, is_path_before, lemma_sorted, lemma_tied_paths, path_before, sorted, tied,
    Ranked,
};
use crate::text::{copy_list, opt_view, owned, views};

verus! {

/// Two paths that belong together.
#[derive(Debug, PartialEq, Eq)]
pub struct KeyPair {
    pub first: String,
    pub second: String,
}

impl View for KeyPair {
    type V = (Seq<char>, Seq<char>);

    open spec fn view(&self) -> (Seq<char>, Seq<char>) {
        (self.first@, self.second@)
    }
}

impl Clone for KeyPair {
    fn clone(&self) -> (r: Self)
        ensures
            r@ == self@,
    {
        KeyPair { first: self.first.clone(), second: self.second.clone() }
    }
}

impl Ranked for KeyPair {
    open spec fn precedes(a: (Seq<char>, Seq<char>), b: (Seq<char>, Seq<char>)) -> bool {
        path_before(a.0, b.0) || (!path_before(b.0, a.0) && path_before(a.1, b.1))
    }

    proof fn lemma_irreflexive(a: (Seq<char>, Seq<char>)) {
        String::lemma_irreflexive(a.0);
        String::lemma_irreflexive(a.1);
    }

    proof fn lemma_transitive(
        a: (Seq<char>, Seq<char>),
        b: (Seq<char>, Seq<char>),
        c: (Seq<char>, Seq<char>),
    ) {
        if path_before(a.0, b.0) {
            if path_before(b.0, c.0) {
                String::lemma_transitive(a.0, b.0, c.0);
            } else {
                String::lemma_ties(b.0, c.0, a.0);
            }
        } else {
            String::lemma_ties(a.0, b.0, c.0);
            if !path_before(b.0, c.0) {
                String::lemma_transitive(a.1, b.1, c.1);
            }
        }
    }

    proof fn lemma_ties(
        a: (Seq<char>, Seq<char>),
        b: (Seq<char>, Seq<char>),
        c: (Seq<char>, Seq<char>),
    ) {
        String::lemma_ties(a.0, b.0, c.0);
        String::lemma_ties(a.1, b.1, c.1);
    }

    fn comes_before(&self, other: &Self) -> (r: bool) {
        is_path_before(&self.first, &other.first) || (!is_path_before(&other.first, &self.first)
            && is_path_before(&self.second, &other.second))
    }
}

/// A path that no rename can move: a root, the home directory, or one above it.
pub open spec fn structural(p: Seq<char>, home: Option<Seq<char>>) -> bool {
    parent_of(p) is None || match home {
        Some(h) => under(h, p),
        None => false,
    }
}

/// A path that no rename can move: a root, the home directory, or one above it.
pub fn is_structural(p: &str, home: &Option<String>) -> (r: bool)
    ensures
        r == structural(p@, opt_view(*home)),
{
    parent(p).is_none() || match home {
        Some(h) => is_under(h, p),
        None => false,
    }
}

/// A path that can be the key of a project.
pub open spec fn usable(key: Seq<char>, home: Option<Seq<char>>) -> bool {
    absolute(key) && !structural(key, home)
}

/// The forms under which the keys are found, each with the key as it was
/// recorded: as recorded, and with its links resolved where that differs.
pub open spec fn forms_of(
    keys: Seq<Seq<char>>,
    resolved: Seq<Option<Seq<char>>>,
    home: Option<Seq<char>>,
) -> Seq<(Seq<char>, Seq<char>)>
    decreases keys.len(),
{
    if keys.len() == 0 {
        seq![]
    } else {
        let rest = forms_of(keys.drop_last(), resolved, home);
        let key = keys.last();
        if !usable(key, home) {
            rest
        } else {
            match resolved[keys.len() - 1] {
                Some(actual) => if same_path(actual, key) {
                    rest.push((key, key))
                } else {
                    rest.push((actual, key)).push((key, key))
                },
                None => rest.push((key, key)),
            }
        }
    }
}

/// An index of the paths of known projects.
#[derive(Debug)]
pub struct KnownProjects {
    /// A form of the path, and the key as it was recorded.
    entries: Vec<KeyPair>,
    /// When the index was made, in milliseconds.
    built_at: u64,
}

impl View for KnownProjects {
    type V = Seq<(Seq<char>, Seq<char>)>;

    closed spec fn view(&self) -> Seq<(Seq<char>, Seq<char>)> {
        views(self.entries@)
    }
}

/// The keys that the sessions and the registered projects give.
pub open spec fn known_keys(groups: Seq<GroupView>, projects: Seq<Seq<char>>) -> Seq<Seq<char>>
{
    resolved_keys(groups) + projects
}

/// The projects of the sessions, without those that could not be resolved.
pub open spec fn resolved_keys(groups: Seq<GroupView>) -> Seq<Seq<char>>
    decreases groups.len(),
{
    if groups.len() == 0 {
        seq![]
    } else {
        let rest = resolved_keys(groups.drop_last());
        if groups.last().confidence is Unresolved {
            rest
        } else {
            rest.push(groups.last().project_path)
        }
    }
}

/// The forms in which a moved directory may have been recorded.
pub open spec fn moved_forms(from: Seq<char>, actual_parent: Option<Seq<char>>) -> Seq<Seq<char>> {
    match (parent_of(from), last_name(from), actual_parent) {
        (Some(_), Some(name), Some(q)) => if same_path(joined(q, name), from) {
            seq![from]
        } else {
            seq![from, joined(q, name)]
        },
        _ => seq![from],
    }
}

/// The first of the directories that a path lies in, and what follows it.
pub open spec fn inside(form: Seq<char>, dirs: Seq<Seq<char>>) -> Option<Seq<char>>
    decreases dirs.len(),
{
    if dirs.len() == 0 {
        None
    } else {
        match below(form, dirs[0]) {
            Some(rel) => Some(rel),
            None => inside(form, dirs.skip(1)),
        }
    }
}

/// The same place below the directory's new path.
pub open spec fn moved_to(rel: Seq<char>, to: Seq<char>) -> Seq<char> {
    if rel.len() == 0 {
        to
    } else {
        joined(to, rel)
    }
}

/// Some pair has this key for its first half.
pub open spec fn has_key(pairs: Seq<(Seq<char>, Seq<char>)>, key: Seq<char>) -> bool {
    exists|i: int| 0 <= i < pairs.len() && same_path((#[trigger] pairs[i]).0, key)
}

/// The keys of the projects in the moved directory, each with its new path.
pub open spec fn moved_keys(
    entries: Seq<(Seq<char>, Seq<char>)>,
    dirs: Seq<Seq<char>>,
    to: Seq<char>,
) -> Seq<(Seq<char>, Seq<char>)>
    decreases entries.len(),
{
    if entries.len() == 0 {
        seq![]
    } else {
        let rest = moved_keys(entries.drop_last(), dirs, to);
        let (form, key) = entries.last();
        match inside(form, dirs) {
            Some(rel) => if has_key(rest, key) {
                rest
            } else {
                rest.push((key, moved_to(rel, to)))
            },
            None => rest,
        }
    }
}

/// The entries for other keys.
pub open spec fn without_key(entries: Seq<(Seq<char>, Seq<char>)>, key: Seq<char>) -> Seq<
    (Seq<char>, Seq<char>),
>
    decreases entries.len(),
{
    if entries.len() == 0 {
        seq![]
    } else {
        let rest = without_key(entries.drop_last(), key);
        if same_path(entries.last().1, key) {
            rest
        } else {
            rest.push(entries.last())
        }
    }
}

/// The entries after the projects have moved, one after the other.
pub open spec fn after_moves(
    entries: Seq<(Seq<char>, Seq<char>)>,
    pairs: Seq<(Seq<char>, Seq<char>)>,
) -> Seq<(Seq<char>, Seq<char>)>
    decreases pairs.len(),
{
    if pairs.len() == 0 {
        entries
    } else {
        let (key, to) = pairs.last();
        without_key(after_moves(entries, pairs.drop_last()), key).push((to, to))
    }
}

fn copy_without(entries: &Vec<KeyPair>, key: &str) -> (r: Vec<KeyPair>)
    ensures
        views(r@) == without_key(views(entries@), key@),
{
    let ghost es = views(entries@);
    let mut out: Vec<KeyPair> = Vec::new();
    let mut i: usize = 0;
    assert(es.take(0) =~= Seq::<(Seq<char>, Seq<char>)>::empty());
    assert(views(out@) =~= Seq::<(Seq<char>, Seq<char>)>::empty());
    while i < entries.len()
        invariant
            es == views(entries@),
            i <= entries@.len(),
            views(out@) == without_key(es.take(i as int), key@),
        decreases entries@.len() - i,
    {
        let ghost so_far = views(out@);
        proof {
            assert(es.take(i + 1).drop_last() =~= es.take(i as int));
            assert(es.take(i + 1).last() == entries@[i as int]@);
        }
        if !path_eq(&entries[i].second, key) {
            out.push(entries[i].clone());
            assert(views(out@) =~= so_far.push(es[i as int]));
        }
        i = i + 1;
    }
    assert(es.take(i as int) =~= es);
    out
}

fn in_order(entries: Vec<KeyPair>) -> (r: Vec<KeyPair>)
    ensures
        views(r@) == sorted::<KeyPair>(views(entries@)),
{
    let ghost es = views(entries@);
    let mut out: Vec<KeyPair> = Vec::new();
    let mut i: usize = 0;
    assert(es.take(0) =~= Seq::<(Seq<char>, Seq<char>)>::empty());
    assert(views(out@) =~= Seq::<(Seq<char>, Seq<char>)>::empty());
    while i < entries.len()
        invariant
            es == views(entries@),
            i <= entries@.len(),
            views(out@) == sorted::<KeyPair>(es.take(i as int)),
        decreases entries@.len() - i,
    {
        proof {
            assert(es.take(i + 1).drop_last() =~= es.take(i as int));
            assert(es.take(i + 1).last() == entries@[i as int]@);
        }
        insert_sorted(&mut out, entries[i].clone());
        i = i + 1;
    }
    assert(es.take(i as int) =~= es);
    out
}

fn find_inside(form: &str, dirs: &Vec<String>) -> (r: Option<String>)
    ensures
        opt_view(r) == inside(form@, views(dirs@)),
{
    let ghost ds = views(dirs@);
    let mut i: usize = 0;
    assert(ds.skip(0) =~= ds);
    while i < dirs.len()
        invariant
            ds == views(dirs@),
            i <= dirs@.len(),
            inside(form@, ds) == inside(form@, ds.skip(i as int)),
        decreases dirs@.len() - i,
    {
        assert(ds.skip(i as int)[0] == dirs@[i as int]@);
        assert(ds.skip(i as int).skip(1) =~= ds.skip(i + 1));
        if let Some(rel) = strip_base(form, &dirs[i]) {
            return Some(rel);
        }
        i = i + 1;
    }
    None
}

fn find_key(pairs: &Vec<KeyPair>, key: &str) -> (r: bool)
    ensures
        r == has_key(views(pairs@), key@),
{
    let mut i: usize = 0;
    while i < pairs.len()
        invariant
            i <= pairs@.len(),
            forall|j: int| 0 <= j < i ==> !same_path((#[trigger] views(pairs@)[j]).0, key@),
        decreases pairs@.len() - i,
    {
        assert(views(pairs@)[i as int] == pairs@[i as int]@);
        if path_eq(&pairs[i].first, key) {
            return true;
        }
        i = i + 1;
    }
    false
}

/// The keys that the sessions and the registered projects give. A name that
/// could not be resolved is no path.
pub fn keys_of(groups: &Vec<SessionGroup>, projects: &Vec<String>) -> (r: Vec<String>)
    ensures
        views(r@) == known_keys(views(groups@), views(projects@)),
{
    let ghost gs = views(groups@);
    let ghost ps = views(projects@);
    let mut keys: Vec<String> = Vec::new();
    let mut i: usize = 0;
    assert(gs.take(0) =~= Seq::<GroupView>::empty());
    assert(views(keys@) =~= Seq::<Seq<char>>::empty());
    while i < groups.len()
        invariant
            gs == views(groups@),
            i <= groups@.len(),
            views(keys@) == resolved_keys(gs.take(i as int)),
        decreases groups@.len() - i,
    {
        let ghost so_far = views(keys@);
        proof {
            assert(gs.take(i + 1).drop_last() =~= gs.take(i as int));
            assert(gs.take(i + 1).last() == groups@[i as int]@);
        }
        if !matches!(groups[i].confidence, DecodeConfidence::Unresolved) {
            keys.push(groups[i].project_path.clone());
            assert(views(keys@) =~= so_far.push(gs[i as int].project_path));
        }
        i = i + 1;
    }
    assert(gs.take(i as int) =~= gs);
    let mut k: usize = 0;
    assert(views(keys@) =~= resolved_keys(gs) + ps.take(0));
    while k < projects.len()
        invariant
            ps == views(projects@),
            k <= projects@.len(),
            views(keys@) == resolved_keys(gs) + ps.take(k as int),
        decreases projects@.len() - k,
    {
        let ghost so_far = views(keys@);
        keys.push(projects[k].clone());
        assert(views(keys@) =~= so_far.push(ps[k as int]));
        assert(views(keys@) =~= resolved_keys(gs) + ps.take(k + 1));
        k = k + 1;
    }
    assert(ps.take(k as int) =~= ps);
    keys
}

impl KnownProjects {
    /// Index these keys. `resolved` holds, for each, the path with its links
    /// resolved, where that could be done. What no rename can move is left out.
    pub fn from_keys(
        keys: &Vec<String>,
        resolved: &Vec<Option<String>>,
        home: &Option<String>,
        now: u64,
    ) -> (r: KnownProjects)
        requires
            resolved@.len() == keys@.len(),
        ensures
            r@ == sorted::<KeyPair>(
                forms_of(
                    views(keys@),
                    Seq::new(resolved@.len(), |i: int| opt_view(resolved@[i])),
                    opt_view(*home),
                ),
            ),
            r.made() == now,
    {
        let ghost ks = views(keys@);
        let ghost rs = Seq::new(resolved@.len(), |i: int| opt_view(resolved@[i]));
        let ghost h = opt_view(*home);
        let mut out: Vec<KeyPair> = Vec::new();
        let mut i: usize = 0;
        assert(ks.take(0) =~= Seq::<Seq<char>>::empty());
        assert(views(out@) =~= Seq::<(Seq<char>, Seq<char>)>::empty());
        while i < keys.len()
            invariant
                ks == views(keys@),
                rs == Seq::new(resolved@.len(), |i: int| opt_view(resolved@[i])),
                h == opt_view(*home),
                resolved@.len() == keys@.len(),
                i <= keys@.len(),
                views(out@) == forms_of(ks.take(i as int), rs, h),
            decreases keys@.len() - i,
        {
            let key = &keys[i];
            let ghost so_far = views(out@);
            proof {
                assert(ks.take(i + 1).drop_last() =~= ks.take(i as int));
                assert(ks.take(i + 1).last() == key@);
            }
            if is_absolute(key) && !is_structural(key, home) {
                if let Some(actual) = &resolved[i] {
                    if !path_eq(actual, key) {
                        out.push(KeyPair { first: actual.clone(), second: key.clone() });
                        assert(views(out@) =~= so_far.push((actual@, key@)));
                    }
                }
                let ghost middle = views(out@);
                out.push(KeyPair { first: key.clone(), second: key.clone() });
                assert(views(out@) =~= middle.push((key@, key@)));
            }
            i = i + 1;
        }
        assert(ks.take(i as int) =~= ks);
        KnownProjects { entries: in_order(out), built_at: now }
    }

    /// Index what the sessions and the registered projects give.
    pub fn build(
        groups: &Vec<SessionGroup>,
        projects: &Vec<String>,
        resolved: &Vec<Option<String>>,
        home: &Option<String>,
        now: u64,
    ) -> (r: KnownProjects)
        requires
            resolved@.len() == known_keys(views(groups@), views(projects@)).len(),
        ensures
            r@ == sorted::<KeyPair>(
                forms_of(
                    known_keys(views(groups@), views(projects@)),
                    Seq::new(resolved@.len(), |i: int| opt_view(resolved@[i])),
                    opt_view(*home),
                ),
            ),
            r.made() == now,
    {
        let keys = keys_of(groups, projects);
        assert(views(keys@).len() == keys@.len());
        KnownProjects::from_keys(&keys, resolved, home, now)
    }

    /// When the index was made.
    pub closed spec fn made(self) -> u64 {
        self.built_at
    }

    /// The number of keys; the forms of one count once.
    pub fn len(&self) -> (r: usize)
        ensures
            r == sorted::<String>(Seq::new(self@.len(), |i: int| self@[i].1)).len(),
    {
        let ghost es = views(self.entries@);
        let ghost keys = Seq::new(es.len(), |i: int| es[i].1);
        let mut distinct: Vec<String> = Vec::new();
        let mut i: usize = 0;
        assert(keys.take(0) =~= Seq::<Seq<char>>::empty());
        assert(views(distinct@) =~= Seq::<Seq<char>>::empty());
        while i < self.entries.len()
            invariant
                es == views(self.entries@),
                keys == Seq::new(es.len(), |i: int| es[i].1),
                i <= self.entries@.len(),
                views(distinct@) == sorted::<String>(keys.take(i as int)),
            decreases self.entries@.len() - i,
        {
            proof {
                assert(keys.take(i + 1).drop_last() =~= keys.take(i as int));
                assert(keys.take(i + 1).last() == self.entries@[i as int].second@);
            }
            insert_sorted(&mut distinct, self.entries[i].second.clone());
            i = i + 1;
        }
        assert(keys.take(i as int) =~= keys);
        assert(views(distinct@).len() == distinct@.len());
        distinct.len()
    }

    /// No project is known.
    pub fn is_empty(&self) -> (r: bool)
        ensures
            r == (self@.len() == 0),
    {
        self.entries.len() == 0
    }

    /// How long ago the index was made, in milliseconds.
    pub fn age(&self, now: u64) -> (r: u64)
        ensures
            r == (if now >= self.made() {
                now - self.made()
            } else {
                0
            }),
    {
        if now >= self.built_at {
            now - self.built_at
        } else {
            0
        }
    }

    /// The keys that the move of a directory changes: its own, where it is a
    /// known project, and that of every known project in it, each with its new
    /// path. `actual_parent` is the directory's old parent with its links
    /// resolved. Nothing when the directory holds no known project.
    pub fn pairs_for_move(&self, from: &str, to: &str, actual_parent: &Option<String>) -> (r: Vec<
        KeyPair,
    >)
        ensures
            views(r@) == sorted::<KeyPair>(
                moved_keys(self@, moved_forms(from@, opt_view(*actual_parent)), to@),
            ),
    {
        let mut dirs: Vec<String> = Vec::new();
        dirs.push(owned(from));
        assert(views(dirs@) =~= seq![from@]);
        if let (Some(_), Some(name), Some(q)) = (parent(from), file_name(from), actual_parent) {
            let actual = join_path(q, &name);
            if !path_eq(&actual, from) {
                let ghost at = actual@;
                dirs.push(actual);
                assert(views(dirs@) =~= seq![from@, at]);
            }
        }
        let ghost ds = views(dirs@);
        assert(ds == moved_forms(from@, opt_view(*actual_parent)));
        let ghost es = views(self.entries@);
        let mut out: Vec<KeyPair> = Vec::new();
        let mut i: usize = 0;
        assert(es.take(0) =~= Seq::<(Seq<char>, Seq<char>)>::empty());
        assert(views(out@) =~= Seq::<(Seq<char>, Seq<char>)>::empty());
        while i < self.entries.len()
            invariant
                es == views(self.entries@),
                ds == views(dirs@),
                i <= self.entries@.len(),
                views(out@) == moved_keys(es.take(i as int), ds, to@),
            decreases self.entries@.len() - i,
        {
            let e = &self.entries[i];
            let ghost so_far = views(out@);
            proof {
                assert(es.take(i + 1).drop_last() =~= es.take(i as int));
                assert(es.take(i + 1).last() == e@);
            }
            if let Some(rel) = find_inside(&e.first, &dirs) {
                if !find_key(&out, &e.second) {
                    let new = if rel.as_str().is_empty() {
                        owned(to)
                    } else {
                        join_path(to, &rel)
                    };
                    let pair = KeyPair { first: e.second.clone(), second: new };
                    out.push(pair);
                    assert(views(out@) =~= so_far.push(pair@));
                }
            }
            i = i + 1;
        }
        assert(es.take(i as int) =~= es);
        in_order(out)
    }

    /// The moved projects are known at their new paths.
    pub fn apply_move(&mut self, pairs: &Vec<KeyPair>)
        ensures
            final(self)@ == sorted::<KeyPair>(after_moves(old(self)@, views(pairs@))),
            final(self).made() == old(self).made(),
    {
        let ghost start = self@;
        let ghost ps = views(pairs@);
        let mut entries: Vec<KeyPair> = copy_list(&self.entries);
        let mut i: usize = 0;
        assert(ps.take(0) =~= Seq::<(Seq<char>, Seq<char>)>::empty());
        while i < pairs.len()
            invariant
                ps == views(pairs@),
                i <= pairs@.len(),
                views(entries@) == after_moves(start, ps.take(i as int)),
            decreases pairs@.len() - i,
        {
            proof {
                assert(ps.take(i + 1).drop_last() =~= ps.take(i as int));
                assert(ps.take(i + 1).last() == pairs@[i as int]@);
            }
            entries = copy_without(&entries, &pairs[i].first);
            let ghost so_far = views(entries@);
            let to = &pairs[i].second;
            entries.push(KeyPair { first: to.clone(), second: to.clone() });
            assert(views(entries@) =~= so_far.push((to@, to@)));
            i = i + 1;
        }
        assert(ps.take(i as int) =~= ps);
        self.entries = in_order(entries);
    }
}

/// The home directory and those above it are never keys, nor is a root, nor a
/// path that is not absolute.
pub proof fn lemma_keys_are_movable(
    keys: Seq<Seq<char>>,
    resolved: Seq<Option<Seq<char>>>,
    home: Option<Seq<char>>,
)
    ensures
        forall|e: (Seq<char>, Seq<char>)| #[trigger]
            sorted::<KeyPair>(forms_of(keys, resolved, home)).contains(e) ==> usable(e.1, home)
                && keys.contains(e.1),
{
    let fs = forms_of(keys, resolved, home);
    lemma_sorted::<KeyPair>(fs);
    lemma_forms(keys, resolved, home);
}

proof fn lemma_forms(
    keys: Seq<Seq<char>>,
    resolved: Seq<Option<Seq<char>>>,
    home: Option<Seq<char>>,
)
    ensures
        forall|e: (Seq<char>, Seq<char>)| #[trigger]
            forms_of(keys, resolved, home).contains(e) ==> usable(e.1, home) && keys.contains(e.1),
    decreases keys.len(),
{
    if keys.len() > 0 {
        let d = keys.drop_last();
        lemma_forms(d, resolved, home);
        let rest = forms_of(d, resolved, home);
        let all = forms_of(keys, resolved, home);
        assert forall|e: (Seq<char>, Seq<char>)| #[trigger] all.contains(e) implies usable(
            e.1,
            home,
        ) && keys.contains(e.1) by {
            let i = choose|i: int| 0 <= i < all.len() && all[i] == e;
            if i < rest.len() {
                assert(rest[i] == e);
                assert(rest.contains(e));
                let k = choose|k: int| 0 <= k < d.len() && d[k] == e.1;
                assert(keys[k] == e.1);
            } else {
                assert(keys[keys.len() - 1] == e.1);
            }
        }
    }
}

/// A rename of a directory that holds no known project changes nothing.
pub proof fn lemma_unknown_directory_moves_nothing(
    entries: Seq<(Seq<char>, Seq<char>)>,
    dirs: Seq<Seq<char>>,
    to: Seq<char>,
)
    requires
        forall|i: int, j: int|
            0 <= i < entries.len() && 0 <= j < dirs.len() ==> !under(
                (#[trigger] entries[i]).0,
                #[trigger] dirs[j],
            ),
    ensures
        moved_keys(entries, dirs, to) == Seq::<(Seq<char>, Seq<char>)>::empty(),
        sorted::<KeyPair>(moved_keys(entries, dirs, to)) == Seq::<(Seq<char>, Seq<char>)>::empty(),
    decreases entries.len(),
{
    if entries.len() > 0 {
        let d = entries.drop_last();
        assert forall|i: int, j: int| 0 <= i < d.len() && 0 <= j < dirs.len() implies !under(
            (#[trigger] d[i]).0,
            #[trigger] dirs[j],
        ) by {
            assert(d[i] == entries[i]);
        }
        lemma_unknown_directory_moves_nothing(d, dirs, to);
        lemma_outside(entries[entries.len() - 1].0, dirs);
    }
}

proof fn lemma_outside(form: Seq<char>, dirs: Seq<Seq<char>>)
    requires
        forall|j: int| 0 <= j < dirs.len() ==> !under(form, #[trigger] dirs[j]),
    ensures
        inside(form, dirs) is None,
    decreases dirs.len(),
{
    if dirs.len() > 0 {
        assert(!under(form, dirs[0]));
        let r = dirs.skip(1);
        assert forall|j: int| 0 <= j < r.len() implies !under(form, #[trigger] r[j]) by {
            assert(r[j] == dirs[j + 1]);
        }
        lemma_outside(form, r);
    }
}

/// A project in the moved directory goes to the same place below the new one.
pub proof fn lemma_project_moves_along(form: Seq<char>, from: Seq<char>, to: Seq<char>)
    requires
        absolute(form),
        absolute(from),
        to.len() > 0,
        under(form, from),
    ensures
        inside(form, seq![from]) matches Some(rel) && comps(moved_to(rel, to)) == comps(to) + comps(
            form,
        ).skip(comps(from).len() as int),
{
    let n = comps(from).len() as int;
    assert(seq![from][0] == from);
    lemma_below(form, from);
    let rel = below(form, from)->0;
    if rel.len() > 0 {
        crate::paths::parts::lemma_names_are_plain(form, n);
        assert(comps(rel)[0] == comps(form)[n]);
        lemma_joined(to, rel);
    } else {
        assert(comps(form).skip(n) =~= Seq::empty());
        assert(comps(to) + comps(form).skip(n) =~= comps(to));
    }
}

/// A project that has moved is known at its new path, and no longer at its old
/// one.
pub proof fn lemma_moved_project_is_known(
    entries: Seq<(Seq<char>, Seq<char>)>,
    key: Seq<char>,
    to: Seq<char>,
)
    requires
        !same_path(key, to),
    ensures
        ({
            let now = sorted::<KeyPair>(after_moves(entries, seq![(key, to)]));
            &&& exists|i: int|
                0 <= i < now.len() && same_path((#[trigger] now[i]).0, to) && same_path(
                    now[i].1,
                    to,
                )
            &&& forall|i: int| 0 <= i < now.len() ==> !same_path((#[trigger] now[i]).1, key)
        }),
{
    let pairs = seq![(key, to)];
    assert(pairs.drop_last() =~= Seq::<(Seq<char>, Seq<char>)>::empty());
    assert(after_moves(entries, pairs.drop_last()) == entries);
    let w = without_key(entries, key);
    let a = after_moves(entries, pairs);
    assert(a == w.push((to, to)));
    let now = sorted::<KeyPair>(a);
    lemma_sorted::<KeyPair>(a);
    lemma_without(entries, key);
    assert(a[w.len() as int] == (to, to));
    let j = choose|j: int|
        0 <= j < now.len() && tied::<KeyPair>(#[trigger] now[j], #[trigger] a[w.len() as int]);
    lemma_tied_paths(now[j].0, to);
    lemma_tied_paths(now[j].1, to);
    assert(same_path(now[j].0, to) && same_path(now[j].1, to));
    assert forall|i: int| 0 <= i < now.len() implies !same_path((#[trigger] now[i]).1, key) by {
        assert(now.contains(now[i]));
        assert(a.contains(now[i]));
        let k = choose|k: int| 0 <= k < a.len() && a[k] == now[i];
        if k < w.len() {
            assert(w[k] == now[i]);
        }
    }
}

/// What the moved keys are: those of the entries in the directory, each with
/// its new path.
proof fn lemma_moved_keys(
    entries: Seq<(Seq<char>, Seq<char>)>,
    dirs: Seq<Seq<char>>,
    to: Seq<char>,
)
    ensures
        ({
            let r = moved_keys(entries, dirs, to);
            &&& forall|i: int|
                0 <= i < r.len() ==> exists|k: int|
                    0 <= k < entries.len() && (inside((#[trigger] entries[k]).0, dirs) is Some)
                        && (#[trigger] r[i]) == (
                        entries[k].1,
                        moved_to(inside(entries[k].0, dirs)->0, to),
                    )
            &&& forall|k: int|
                0 <= k < entries.len() && (inside((#[trigger] entries[k]).0, dirs) is Some)
                    ==> has_key(r, entries[k].1)
        }),
    decreases entries.len(),
{
    let r = moved_keys(entries, dirs, to);
    if entries.len() > 0 {
        let d = entries.drop_last();
        let rest = moved_keys(d, dirs, to);
        lemma_moved_keys(d, dirs, to);
        let last = entries.len() - 1;
        assert forall|i: int| 0 <= i < r.len() implies exists|k: int|
            0 <= k < entries.len() && (inside((#[trigger] entries[k]).0, dirs) is Some) && (
            #[trigger] r[i]) == (entries[k].1, moved_to(inside(entries[k].0, dirs)->0, to)) by {
            if i < rest.len() {
                assert(r[i] == rest[i]);
                let k = choose|k: int|
                    0 <= k < d.len() && (inside((#[trigger] d[k]).0, dirs) is Some) && rest[i] == (
                        d[k].1,
                        moved_to(inside(d[k].0, dirs)->0, to),
                    );
                assert(entries[k] == d[k]);
            } else {
                assert(entries[last] == entries.last());
            }
        }
        assert forall|k: int|
            0 <= k < entries.len() && (inside((#[trigger] entries[k]).0, dirs)
                is Some) implies has_key(r, entries[k].1) by {
            if k < d.len() {
                assert(d[k] == entries[k]);
                assert(has_key(rest, entries[k].1));
                let i = choose|i: int|
                    0 <= i < rest.len() && same_path((#[trigger] rest[i]).0, entries[k].1);
                assert(r[i] == rest[i]);
            } else if has_key(rest, entries[k].1) {
                assert(r == rest);
            } else {
                assert(same_path(r[rest.len() as int].0, entries[k].1));
            }
        }
    }
}

/// What is left without a key: every entry for another one, and no more.
proof fn lemma_kept(entries: Seq<(Seq<char>, Seq<char>)>, key: Seq<char>)
    ensures
        forall|e: (Seq<char>, Seq<char>)| #[trigger]
            without_key(entries, key).contains(e) <==> entries.contains(e) && !same_path(e.1, key),
    decreases entries.len(),
{
    let all = without_key(entries, key);
    if entries.len() > 0 {
        let d = entries.drop_last();
        lemma_kept(d, key);
        let rest = without_key(d, key);
        assert forall|e: (Seq<char>, Seq<char>)| #[trigger] all.contains(e) <==> entries.contains(
            e,
        ) && !same_path(e.1, key) by {
            if all.contains(e) {
                let i = choose|i: int| 0 <= i < all.len() && all[i] == e;
                if i < rest.len() {
                    assert(rest[i] == e);
                    assert(rest.contains(e));
                    let k = choose|k: int| 0 <= k < d.len() && d[k] == e;
                    assert(entries[k] == e);
                } else {
                    assert(entries[entries.len() - 1] == e);
                }
            }
            if entries.contains(e) && !same_path(e.1, key) {
                let k = choose|k: int| 0 <= k < entries.len() && entries[k] == e;
                if k < d.len() {
                    assert(d[k] == e);
                    assert(d.contains(e));
                    assert(rest.contains(e));
                    let i = choose|i: int| 0 <= i < rest.len() && rest[i] == e;
                    assert(all[i] == e);
                } else {
                    assert(all[rest.len() as int] == e);
                }
            }
        }
    }
}

/// The entries after the moves: those for keys that did not move, and one for
/// each new path, where no new path is an old one.
proof fn lemma_after_moves(
    entries: Seq<(Seq<char>, Seq<char>)>,
    pairs: Seq<(Seq<char>, Seq<char>)>,
)
    requires
        forall|i: int, j: int|
            0 <= i < pairs.len() && 0 <= j < pairs.len() ==> !same_path(
                (#[trigger] pairs[i]).1,
                (#[trigger] pairs[j]).0,
            ),
    ensures
        ({
            let r = after_moves(entries, pairs);
            &&& forall|e: (Seq<char>, Seq<char>)| #[trigger]
                r.contains(e) ==> (entries.contains(e) && !has_key(pairs, e.1)) || exists|i: int|
                    0 <= i < pairs.len() && e == ((#[trigger] pairs[i]).1, pairs[i].1)
            &&& forall|e: (Seq<char>, Seq<char>)| #[trigger]
                entries.contains(e) && !has_key(pairs, e.1) ==> r.contains(e)
            &&& forall|i: int|
                0 <= i < pairs.len() ==> r.contains(((#[trigger] pairs[i]).1, pairs[i].1))
        }),
    decreases pairs.len(),
{
    if pairs.len() > 0 {
        let d = pairs.drop_last();
        let n = pairs.len() - 1;
        assert forall|i: int, j: int| 0 <= i < d.len() && 0 <= j < d.len() implies !same_path(
            (#[trigger] d[i]).1,
            (#[trigger] d[j]).0,
        ) by {
            assert(d[i] == pairs[i] && d[j] == pairs[j]);
        }
        lemma_after_moves(entries, d);
        let before = after_moves(entries, d);
        let (key, to) = pairs.last();
        assert(pairs[n] == (key, to));
        lemma_kept(before, key);
        let w = without_key(before, key);
        let r = after_moves(entries, pairs);
        assert(r == w.push((to, to)));
        assert forall|e: (Seq<char>, Seq<char>)| #[trigger] r.contains(e) implies (entries.contains(
            e,
        ) && !has_key(pairs, e.1)) || exists|i: int|
            0 <= i < pairs.len() && e == ((#[trigger] pairs[i]).1, pairs[i].1) by {
            let k = choose|k: int| 0 <= k < r.len() && r[k] == e;
            if k < w.len() {
                assert(w[k] == e);
                assert(w.contains(e));
                assert(before.contains(e));
                if exists|i: int| 0 <= i < d.len() && e == ((#[trigger] d[i]).1, d[i].1) {
                    let i = choose|i: int| 0 <= i < d.len() && e == ((#[trigger] d[i]).1, d[i].1);
                    assert(pairs[i] == d[i]);
                } else {
                    assert(!has_key(pairs, e.1)) by {
                        if has_key(pairs, e.1) {
                            let i = choose|i: int|
                                0 <= i < pairs.len() && same_path((#[trigger] pairs[i]).0, e.1);
                            if i < n {
                                assert(d[i] == pairs[i]);
                                assert(has_key(d, e.1));
                            }
                        }
                    }
                }
            } else {
                assert(e == (pairs[n].1, pairs[n].1));
            }
        }
        assert forall|e: (Seq<char>, Seq<char>)| #[trigger] entries.contains(e) && !has_key(
            pairs,
            e.1,
        ) implies r.contains(e) by {
            if has_key(d, e.1) {
                let i = choose|i: int| 0 <= i < d.len() && same_path((#[trigger] d[i]).0, e.1);
                assert(pairs[i] == d[i]);
                assert(has_key(pairs, e.1));
            }
            assert(before.contains(e));
            if same_path(e.1, key) {
                assert(same_path(pairs[n].0, e.1));
                assert(has_key(pairs, e.1));
            }
            assert(w.contains(e));
            let k = choose|k: int| 0 <= k < w.len() && w[k] == e;
            assert(r[k] == e);
        }
        assert forall|i: int| 0 <= i < pairs.len() implies r.contains(
            ((#[trigger] pairs[i]).1, pairs[i].1),
        ) by {
            let e = (pairs[i].1, pairs[i].1);
            if i < n {
                assert(d[i] == pairs[i]);
                assert(before.contains(e));
                assert(!same_path(pairs[i].1, pairs[n].0));
                assert(w.contains(e));
                let k = choose|k: int| 0 <= k < w.len() && w[k] == e;
                assert(r[k] == e);
            } else {
                assert(r[w.len() as int] == e);
            }
        }
    }
}

/// A path under both of two directories has one of them under the other.
proof fn lemma_under_both(p: Seq<char>, a: Seq<char>, b: Seq<char>)
    requires
        under(p, a),
        under(p, b),
    ensures
        under(a, b) || under(b, a),
{
    let (c, x, y) = (comps(p), comps(a), comps(b));
    if x.len() <= y.len() {
        assert(x.is_prefix_of(y)) by {
            assert(y.take(x.len() as int) =~= c.take(x.len() as int));
            assert(c.take(x.len() as int) =~= x);
        }
    } else {
        assert(y.is_prefix_of(x)) by {
            assert(x.take(y.len() as int) =~= c.take(y.len() as int));
            assert(c.take(y.len() as int) =~= y);
        }
    }
}

/// A path below the one directory, at its place below the other, is under it.
proof fn lemma_moved_under(form: Seq<char>, from: Seq<char>, to: Seq<char>)
    requires
        absolute(form),
        absolute(from),
        to.len() > 0,
        inside(form, seq![from]) is Some,
    ensures
        under(form, from),
        under(moved_to(inside(form, seq![from])->0, to), to),
{
    reveal_with_fuel(inside, 2);
    lemma_project_moves_along(form, from, to);
    let new = moved_to(inside(form, seq![from])->0, to);
    let tail = comps(form).skip(comps(from).len() as int);
    assert((comps(to) + tail).take(comps(to).len() as int) =~= comps(to));
}

/// After a directory has moved, nothing is known at its old place, every
/// project in it is known at its new path, and every other project is known as
/// before, where neither place of the directory is in the other and no link is
/// involved.
pub proof fn lemma_moved_projects_are_known(
    entries: Seq<(Seq<char>, Seq<char>)>,
    from: Seq<char>,
    to: Seq<char>,
    z: Seq<char>,
)
    requires
        absolute(from),
        absolute(to),
        !under(from, to),
        !under(to, from),
        forall|i: int|
            0 <= i < entries.len() ==> absolute((#[trigger] entries[i]).0) && entries[i].1
                == entries[i].0,
    ensures
        ({
            let pairs = sorted::<KeyPair>(moved_keys(entries, seq![from], to));
            let now = sorted::<KeyPair>(after_moves(entries, pairs));
            &&& sorted::<KeyPair>(moved_keys(now, seq![from], z)) == Seq::<
                (Seq<char>, Seq<char>),
            >::empty()
            &&& forall|i: int|
                0 <= i < pairs.len() ==> has_key(
                    moved_keys(now, seq![to], z),
                    (#[trigger] pairs[i]).1,
                )
            &&& forall|k: int|
                0 <= k < entries.len() && !has_key(pairs, (#[trigger] entries[k]).1)
                    ==> exists|j: int|
                    0 <= j < now.len() && same_path((#[trigger] now[j]).0, entries[k].0)
                        && same_path(now[j].1, entries[k].1)
        }),
{
    let dirs = seq![from];
    let keys = moved_keys(entries, dirs, to);
    let pairs = sorted::<KeyPair>(keys);
    lemma_sorted::<KeyPair>(keys);
    lemma_moved_keys(entries, dirs, to);
    assert forall|i: int| 0 <= i < pairs.len() implies under((#[trigger] pairs[i]).0, from) && under(
        pairs[i].1,
        to,
    ) by {
        assert(pairs.contains(pairs[i]));
        assert(keys.contains(pairs[i]));
        let m = choose|m: int| 0 <= m < keys.len() && keys[m] == pairs[i];
        let k = choose|k: int|
            0 <= k < entries.len() && (inside((#[trigger] entries[k]).0, dirs) is Some) && keys[m]
                == (entries[k].1, moved_to(inside(entries[k].0, dirs)->0, to));
        lemma_moved_under(entries[k].0, from, to);
    }
    assert forall|i: int, j: int|
        0 <= i < pairs.len() && 0 <= j < pairs.len() implies !same_path(
        (#[trigger] pairs[i]).1,
        (#[trigger] pairs[j]).0,
    ) by {
        if same_path(pairs[i].1, pairs[j].0) {
            lemma_under_both(pairs[i].1, to, from);
        }
    }
    let all = after_moves(entries, pairs);
    lemma_after_moves(entries, pairs);
    let now = sorted::<KeyPair>(all);
    lemma_sorted::<KeyPair>(all);
    assert forall|i: int, j: int| 0 <= i < now.len() && 0 <= j < dirs.len() implies !under(
        (#[trigger] now[i]).0,
        #[trigger] dirs[j],
    ) by {
        let e = now[i];
        assert(now.contains(e));
        assert(all.contains(e));
        if exists|m: int| 0 <= m < pairs.len() && e == ((#[trigger] pairs[m]).1, pairs[m].1) {
            let m = choose|m: int| 0 <= m < pairs.len() && e == ((#[trigger] pairs[m]).1, pairs[m].1);
            if under(e.0, from) {
                lemma_under_both(e.0, to, from);
            }
        } else {
            let k = choose|k: int| 0 <= k < entries.len() && entries[k] == e;
            if under(e.0, from) {
                assert(inside(entries[k].0, dirs) is Some);
                assert(has_key(keys, e.1));
                let m = choose|m: int| 0 <= m < keys.len() && same_path((#[trigger] keys[m]).0, e.1);
                lemma_tied_key(keys, pairs, m);
                assert(has_key(pairs, e.1));
            }
        }
    }
    lemma_unknown_directory_moves_nothing(now, dirs, z);
    lemma_moved_keys(now, seq![to], z);
    assert forall|i: int| 0 <= i < pairs.len() implies has_key(
        moved_keys(now, seq![to], z),
        (#[trigger] pairs[i]).1,
    ) by {
        let new = pairs[i].1;
        assert(all.contains((new, new)));
        let m = choose|m: int| 0 <= m < all.len() && all[m] == (new, new);
        let j = lemma_tied_entry(all, m);
        assert(under(now[j].0, to));
        assert(inside(now[j].0, seq![to]) is Some);
        let later = moved_keys(now, seq![to], z);
        assert(has_key(later, now[j].1));
        let q = choose|q: int| 0 <= q < later.len() && same_path((#[trigger] later[q]).0, now[j].1);
        assert(same_path(later[q].0, new));
    }
    assert forall|k: int|
        0 <= k < entries.len() && !has_key(pairs, (#[trigger] entries[k]).1) implies exists|j: int|
        0 <= j < now.len() && same_path((#[trigger] now[j]).0, entries[k].0) && same_path(
            now[j].1,
            entries[k].1,
        ) by {
        assert(entries.contains(entries[k]));
        assert(all.contains(entries[k]));
        let m = choose|m: int| 0 <= m < all.len() && all[m] == entries[k];
        let j = lemma_tied_entry(all, m);
    }
}

/// Every entry stands among the sorted ones, as the same paths.
proof fn lemma_tied_entry(entries: Seq<(Seq<char>, Seq<char>)>, m: int) -> (j: int)
    requires
        0 <= m < entries.len(),
    ensures
        0 <= j < sorted::<KeyPair>(entries).len(),
        same_path(sorted::<KeyPair>(entries)[j].0, entries[m].0),
        same_path(sorted::<KeyPair>(entries)[j].1, entries[m].1),
{
    let now = sorted::<KeyPair>(entries);
    lemma_sorted::<KeyPair>(entries);
    let j = choose|j: int|
        0 <= j < now.len() && tied::<KeyPair>(#[trigger] now[j], #[trigger] entries[m]);
    lemma_tied_paths(now[j].0, entries[m].0);
    lemma_tied_paths(now[j].1, entries[m].1);
    j
}

proof fn lemma_tied_key(
    keys: Seq<(Seq<char>, Seq<char>)>,
    pairs: Seq<(Seq<char>, Seq<char>)>,
    m: int,
)
    requires
        pairs == sorted::<KeyPair>(keys),
        0 <= m < keys.len(),
    ensures
        has_key(pairs, keys[m].0),
{
    let j = lemma_tied_entry(keys, m);
    assert(same_path(pairs[j].0, keys[m].0));
}

proof fn lemma_without(entries: Seq<(Seq<char>, Seq<char>)>, key: Seq<char>)
    ensures
        forall|i: int|
            0 <= i < without_key(entries, key).len() ==> !same_path(
                (#[trigger] without_key(entries, key)[i]).1,
                key,
            ),
    decreases entries.len(),
{
    if entries.len() > 0 {
        let d = entries.drop_last();
        lemma_without(d, key);
        let rest = without_key(d, key);
        let all = without_key(entries, key);
        assert forall|i: int| 0 <= i < all.len() implies !same_path((#[trigger] all[i]).1, key) by {
            if i < rest.len() {
                assert(all[i] == rest[i]);
            }
        }
    }
}

} // verus!
