//! What the files of a session directory amount to.
use vstd::prelude::*;

use crate::globs::{glob_match, is_pattern};
use crate::paths::joined;
use crate::sessions::census::{
    bytes_of, confidence_of, count_of, entry_for, group_for, groups_for, latest_of,
    orphan_verdict, seen_tool, GroupView, SightingView, ToolSessions,
};
use crate::sessions::decode::{
    candidates, deepest, deepest_from, encoded, encoded_char, encoded_children,
    literal_child, parts_of, stands_for, DecodeConfidence, Fs,
};
use crate::sessions::read::{
    consistent, file_bytes, file_count, first_field, head_field, hint_files, hint_plan, hinted, line_field,
    listed, newer, query_text, relative, seconds, tallied, EntryKind, HintView, StoreFileView,
    TreeEntryView, WalkView,
};
use crate::documents::{text_at, Leaves};
use crate::sessions::stores::{
    by_name, declared, env_value, lemma_stores_are_sorted, rooted, without_trailing, EnvVar,
};
use crate::text::{begins, join, replaced, split, trimmed};
use crate::tools::{plain_ident, HomeDirDiscovery, LayoutView, StoreView, TimeUnit, ToolView};

verus! {

/// The last activity is the time of the latest file: no file is later, and one
/// is of that time. Without files there was none.
pub proof fn lemma_last_active_is_the_latest(s: Seq<StoreFileView>)
    ensures
        forall|i: int|
            0 <= i < s.len() && (#[trigger] s[i]).is_file ==> s[i].mtime <= tallied(
                s,
            ).last_active_unix,
        (exists|i: int| 0 <= i < s.len() && (#[trigger] s[i]).is_file) ==> exists|i: int|
            0 <= i < s.len() && (#[trigger] s[i]).is_file && s[i].mtime == tallied(
                s,
            ).last_active_unix,
        (forall|i: int| 0 <= i < s.len() ==> !(#[trigger] s[i]).is_file) ==> tallied(
            s,
        ).last_active_unix == 0,
    decreases s.len(),
{
    if s.len() > 0 {
        let d = s.drop_last();
        let n = s.len() - 1;
        lemma_last_active_is_the_latest(d);
        assert(forall|i: int| 0 <= i < d.len() ==> #[trigger] d[i] == s[i]);
        let before = tallied(d).last_active_unix;
        let latest = tallied(s).last_active_unix;
        assert forall|i: int| 0 <= i < s.len() && (#[trigger] s[i]).is_file implies s[i].mtime
            <= latest by {
            if i < n {
                assert(d[i].mtime <= before);
            }
        }
        if exists|i: int| 0 <= i < s.len() && (#[trigger] s[i]).is_file {
            if s[n].is_file && s[n].mtime >= before {
                assert(s[n].mtime == latest);
            } else {
                if !(exists|i: int| 0 <= i < d.len() && (#[trigger] d[i]).is_file) {
                    let i = choose|i: int| 0 <= i < s.len() && (#[trigger] s[i]).is_file;
                    if i < n {
                        assert(d[i].is_file);
                    }
                    assert(before == 0);
                }
                let i = choose|i: int|
                    0 <= i < d.len() && (#[trigger] d[i]).is_file && d[i].mtime == before;
                assert(s[i].is_file && s[i].mtime == latest);
            }
        }
        if forall|i: int| 0 <= i < s.len() ==> !(#[trigger] s[i]).is_file {
            assert(!s[n].is_file);
        }
    }
}

/// Sessions and their bytes add up: each file is one session, with all its
/// bytes, and what is no file is none. So they do not depend on the order.
pub proof fn lemma_sessions_add_up(a: Seq<StoreFileView>, b: Seq<StoreFileView>)
    ensures
        file_count(a + b) == file_count(a) + file_count(b),
        file_bytes(a + b) == file_bytes(a) + file_bytes(b),
        forall|f: StoreFileView|
            #![trigger file_count(seq![f])]
            file_count(seq![f]) == (if f.is_file {
                1nat
            } else {
                0
            }),
        forall|f: StoreFileView|
            #![trigger file_bytes(seq![f])]
            file_bytes(seq![f]) == (if f.is_file {
                f.len as nat
            } else {
                0
            }),
    decreases b.len(),
{
    assert forall|f: StoreFileView|
        #![trigger file_count(seq![f])]
        file_count(seq![f]) == (if f.is_file {
            1nat
        } else {
            0
        }) by {
        assert(seq![f].drop_last() =~= Seq::empty());
        reveal_with_fuel(file_count, 2);
    }
    assert forall|f: StoreFileView|
        #![trigger file_bytes(seq![f])]
        file_bytes(seq![f]) == (if f.is_file {
            f.len as nat
        } else {
            0
        }) by {
        assert(seq![f].drop_last() =~= Seq::empty());
        reveal_with_fuel(file_bytes, 2);
    }
    if b.len() == 0 {
        assert(a + b =~= a);
    } else {
        lemma_sessions_add_up(a, b.drop_last());
        assert((a + b).drop_last() =~= a + b.drop_last());
        assert((a + b).last() == b.last());
    }
}

/// A session directory's tally is the number of its files, and their bytes,
/// where these fit.
pub proof fn lemma_tally_counts_files(s: Seq<StoreFileView>)
    requires
        s.len() <= usize::MAX,
        file_bytes(s) <= u64::MAX,
    ensures
        tallied(s).count == s.filter(|f: StoreFileView| f.is_file).len(),
        tallied(s).bytes == file_bytes(s),
{
    lemma_count_is_filter(s);
}

proof fn lemma_count_is_filter(s: Seq<StoreFileView>)
    ensures
        file_count(s) == s.filter(|f: StoreFileView| f.is_file).len(),
        file_count(s) <= s.len(),
    decreases s.len(),
{
    reveal(Seq::filter);
    if s.len() > 0 {
        lemma_count_is_filter(s.drop_last());
    }
}

/// A sighting of a tool in a project.
pub open spec fn about(x: SightingView, path: Seq<char>, tool: Seq<char>) -> bool {
    x.path == path && x.tool == tool
}

proof fn lemma_latest_of(s: Seq<SightingView>, path: Seq<char>, tool: Seq<char>)
    ensures
        forall|k: int|
            0 <= k < s.len() && about(#[trigger] s[k], path, tool)
                ==> s[k].sessions.last_active_unix <= latest_of(s, path, tool),
        latest_of(s, path, tool) > 0 ==> exists|k: int|
            0 <= k < s.len() && about(#[trigger] s[k], path, tool)
                && s[k].sessions.last_active_unix == latest_of(s, path, tool),
    decreases s.len(),
{
    if s.len() > 0 {
        let d = s.drop_last();
        let n = s.len() - 1;
        lemma_latest_of(d, path, tool);
        assert(forall|k: int| 0 <= k < d.len() ==> #[trigger] d[k] == s[k]);
        assert(s[n] == s.last());
        assert forall|k: int| 0 <= k < s.len() && about(#[trigger] s[k], path, tool) implies s[k].sessions.last_active_unix
            <= latest_of(s, path, tool) by {
            if k < n {
                assert(about(d[k], path, tool));
            }
        }
        if latest_of(s, path, tool) > 0 {
            if latest_of(s, path, tool) == latest_of(d, path, tool) {
                let k = choose|k: int|
                    0 <= k < d.len() && about(#[trigger] d[k], path, tool)
                        && d[k].sessions.last_active_unix == latest_of(d, path, tool);
                assert(about(s[k], path, tool));
            } else {
                assert(about(s[n], path, tool));
            }
        }
    }
}

/// A confidence is better than another: a known path than a guess, and either
/// than none.
pub open spec fn surer(a: DecodeConfidence, b: DecodeConfidence) -> bool {
    ||| a is Exact && !(b is Exact)
    ||| a is Inferred && b is Unresolved
}

proof fn lemma_confidence_of(s: Seq<SightingView>, path: Seq<char>)
    ensures
        forall|k: int|
            0 <= k < s.len() && (#[trigger] s[k]).path == path ==> !surer(
                s[k].confidence,
                confidence_of(s, path),
            ),
        !(confidence_of(s, path) is Unresolved) ==> exists|k: int|
            0 <= k < s.len() && (#[trigger] s[k]).path == path && s[k].confidence == confidence_of(
                s,
                path,
            ),
    decreases s.len(),
{
    if s.len() > 0 {
        let d = s.drop_last();
        let n = s.len() - 1;
        lemma_confidence_of(d, path);
        assert(forall|k: int| 0 <= k < d.len() ==> #[trigger] d[k] == s[k]);
        assert(s[n] == s.last());
        let best = confidence_of(s, path);
        let was = confidence_of(d, path);
        assert forall|k: int| 0 <= k < s.len() && (#[trigger] s[k]).path == path implies !surer(
            s[k].confidence,
            best,
        ) by {
            if k < n {
                assert(d[k].path == path);
                assert(!surer(d[k].confidence, was));
            }
        }
        if !(best is Unresolved) {
            if best == was {
                let k = choose|k: int|
                    0 <= k < d.len() && (#[trigger] d[k]).path == path && d[k].confidence == was;
                assert(s[k].path == path);
            } else {
                assert(s[n].path == path && s[n].confidence == best);
            }
        }
    }
}

/// A census says of each project the best confidence with which any store knew
/// its path, and of each tool in it the latest activity of any sighting: an
/// upper bound that one of them attains.
pub proof fn lemma_census_takes_the_best(g: Seq<GroupView>, s: Seq<SightingView>, i: int, j: int)
    requires
        groups_for(g, s),
        0 <= i < g.len(),
        0 <= j < g[i].tools.len(),
    ensures
        ({
            let path = g[i].project_path;
            let t = g[i].tools[j];
            &&& forall|k: int|
                0 <= k < s.len() && (#[trigger] s[k]).path == path ==> !surer(
                    s[k].confidence,
                    g[i].confidence,
                )
            &&& exists|k: int|
                0 <= k < s.len() && (#[trigger] s[k]).path == path && s[k].confidence
                    == g[i].confidence
            &&& g[i].decoded <==> g[i].confidence is Exact
            &&& forall|k: int|
                0 <= k < s.len() && about(#[trigger] s[k], path, t.tool)
                    ==> s[k].sessions.last_active_unix <= t.sessions.last_active_unix
            &&& exists|k: int|
                0 <= k < s.len() && about(#[trigger] s[k], path, t.tool)
                    && s[k].sessions.last_active_unix == t.sessions.last_active_unix
        }),
{
    let path = g[i].project_path;
    let t = g[i].tools[j];
    assert(group_for(g[i], s));
    assert(entry_for(t, s, path));
    lemma_latest_of(s, path, t.tool);
    lemma_confidence_of(s, path);
    let k = choose|k: int| 0 <= k < s.len() && (#[trigger] s[k]).path == path && s[k].tool == t.tool;
    assert(about(s[k], path, t.tool));
    if g[i].confidence is Unresolved {
        assert(!surer(s[k].confidence, g[i].confidence));
        assert(s[k].confidence is Unresolved);
    }
}

/// The sessions of a tool in a project, and their bytes, are the sums over the
/// sightings of just that tool in just that project.
pub proof fn lemma_census_adds_up(
    a: Seq<SightingView>,
    b: Seq<SightingView>,
    path: Seq<char>,
    tool: Seq<char>,
)
    ensures
        count_of(a + b, path, tool) == count_of(a, path, tool) + count_of(b, path, tool),
        bytes_of(a + b, path, tool) == bytes_of(a, path, tool) + bytes_of(b, path, tool),
        forall|x: SightingView|
            #![trigger count_of(seq![x], path, tool)]
            count_of(seq![x], path, tool) == (if about(x, path, tool) {
                x.sessions.count as nat
            } else {
                0
            }),
        forall|x: SightingView|
            #![trigger bytes_of(seq![x], path, tool)]
            bytes_of(seq![x], path, tool) == (if about(x, path, tool) {
                x.sessions.bytes as nat
            } else {
                0
            }),
    decreases b.len(),
{
    assert forall|x: SightingView|
        #![trigger count_of(seq![x], path, tool)]
        count_of(seq![x], path, tool) == (if about(x, path, tool) {
            x.sessions.count as nat
        } else {
            0
        }) by {
        assert(seq![x].drop_last() =~= Seq::empty());
        reveal_with_fuel(count_of, 2);
    }
    assert forall|x: SightingView|
        #![trigger bytes_of(seq![x], path, tool)]
        bytes_of(seq![x], path, tool) == (if about(x, path, tool) {
            x.sessions.bytes as nat
        } else {
            0
        }) by {
        assert(seq![x].drop_last() =~= Seq::empty());
        reveal_with_fuel(bytes_of, 2);
    }
    if b.len() == 0 {
        assert(a + b =~= a);
    } else {
        lemma_census_adds_up(a, b.drop_last(), path, tool);
        assert((a + b).drop_last() =~= a + b.drop_last());
        assert((a + b).last() == b.last());
    }
}

/// A project is an orphan exactly if its path is known or a good guess, the
/// sessions are of this machine, and nothing is at the path.
pub proof fn lemma_orphans_are_gone(g: GroupView, exists: bool, foreign_root: bool)
    ensures
        orphan_verdict(g, exists, foreign_root) <==> (g.confidence is Exact
            || g.confidence is Inferred) && !exists && !foreign_root,
{
}

/// A name is encoded character by character: ASCII letters and digits stay, any
/// other becomes one separator, or two where it takes two UTF-16 units.
pub proof fn lemma_encoding_by_character(a: Seq<char>, c: char, sep: Seq<char>)
    ensures
        encoded(Seq::empty(), sep) == Seq::<char>::empty(),
        ('a' <= c <= 'z' || 'A' <= c <= 'Z' || '0' <= c <= '9') ==> encoded(a.push(c), sep)
            == encoded(a, sep).push(c),
        !('a' <= c <= 'z' || 'A' <= c <= 'Z' || '0' <= c <= '9') && c <= '\u{ffff}' ==> encoded(
            a.push(c),
            sep,
        ) == encoded(a, sep) + sep,
        c > '\u{ffff}' ==> encoded(a.push(c), sep) == encoded(a, sep) + sep + sep,
{
    assert(a.push(c).drop_last() =~= a);
    assert(encoded(a.push(c), sep) == encoded(a, sep) + encoded_char(c, sep));
    assert(encoded(a, sep) + seq![c] =~= encoded(a, sep).push(c));
    assert(encoded(a, sep) + (sep + sep) =~= encoded(a, sep) + sep + sep);
}

proof fn lemma_deepest_from(
    fs: Fs,
    c: Seq<(Seq<char>, int)>,
    parts: Seq<Seq<char>>,
    sep: Seq<char>,
    best: (Seq<char>, int),
    i: int,
)
    requires
        0 <= i <= c.len(),
        forall|j: int| 0 <= j < c.len() ==> 1 <= (#[trigger] c[j]).1 <= parts.len(),
    ensures
        ({
            let r = deepest_from(fs, c, parts, sep, best, i);
            &&& r.1 >= best.1
            &&& forall|j: int|
                i <= j < c.len() ==> (#[trigger] c[j]).1 + deepest(
                    fs,
                    c[j].0,
                    parts.skip(c[j].1),
                    sep,
                ).1 <= r.1
            &&& r == best || exists|j: int|
                i <= j < c.len() && r == (
                    deepest(fs, (#[trigger] c[j]).0, parts.skip(c[j].1), sep).0,
                    c[j].1 + deepest(fs, c[j].0, parts.skip(c[j].1), sep).1,
                )
        }),
    decreases c.len() - i,
{
    if i < c.len() {
        assert(1 <= c[i].1 <= parts.len());
        let (path, more) = deepest(fs, c[i].0, parts.skip(c[i].1), sep);
        let total = c[i].1 + more;
        let next = if total > best.1 {
            (path, total)
        } else {
            best
        };
        lemma_deepest_from(fs, c, parts, sep, next, i + 1);
    }
}

proof fn lemma_children_use_parts(
    base: Seq<char>,
    list: Seq<(Seq<char>, bool)>,
    parts: Seq<Seq<char>>,
    sep: Seq<char>,
    k: int,
)
    ensures
        forall|j: int|
            0 <= j < encoded_children(base, list, parts, sep, k).len() ==> (
            #[trigger] encoded_children(base, list, parts, sep, k)[j]).1 == k,
    decreases list.len(),
{
    if list.len() > 0 {
        let d = list.drop_last();
        lemma_children_use_parts(base, d, parts, sep, k);
        let rest = encoded_children(base, d, parts, sep, k);
        let all = encoded_children(base, list, parts, sep, k);
        assert forall|j: int| 0 <= j < all.len() implies (#[trigger] all[j]).1 == k by {
            if j < rest.len() {
                assert(all[j] == rest[j]);
            }
        }
    }
}

/// A directory that may stand for parts stands for one at least.
proof fn lemma_candidates_use_parts(
    fs: Fs,
    base: Seq<char>,
    parts: Seq<Seq<char>>,
    sep: Seq<char>,
    k: int,
)
    ensures
        forall|j: int|
            0 <= j < candidates(fs, base, parts, sep, k).len() ==> 1 <= (#[trigger] candidates(
                fs,
                base,
                parts,
                sep,
                k,
            )[j]).1 <= k,
    decreases k,
{
    if k > 0 {
        lemma_candidates_use_parts(fs, base, parts, sep, k - 1);
        lemma_children_use_parts(base, (fs.list)(base), parts, sep, k);
        let a = candidates(fs, base, parts, sep, k - 1);
        let b = literal_child(fs, base, parts, sep, k);
        let c = encoded_children(base, (fs.list)(base), parts, sep, k);
        let all = candidates(fs, base, parts, sep, k);
        assert(all == a + (b + c));
        assert forall|j: int| 0 <= j < all.len() implies 1 <= (#[trigger] all[j]).1 <= k by {
            if j < a.len() {
                assert(all[j] == a[j]);
            } else if j < a.len() + b.len() {
                assert(all[j] == b[j - a.len()]);
            } else {
                assert(all[j] == c[j - a.len() - b.len()]);
            }
        }
    }
}

/// The directory that a name is folded onto is the deepest that parts of the
/// name lead to: no way through the directories that exist uses up more parts,
/// and one uses up so many.
pub proof fn lemma_deepest_is_deepest(
    fs: Fs,
    base: Seq<char>,
    parts: Seq<Seq<char>>,
    sep: Seq<char>,
)
    ensures
        ({
            let c = candidates(fs, base, parts, sep, parts.len() as int);
            let r = deepest(fs, base, parts, sep);
            &&& r.1 >= 0
            &&& r.1 == 0 ==> r.0 == base
            &&& forall|j: int|
                0 <= j < c.len() ==> (#[trigger] c[j]).1 + deepest(
                    fs,
                    c[j].0,
                    parts.skip(c[j].1),
                    sep,
                ).1 <= r.1
            &&& r.1 > 0 ==> exists|j: int|
                0 <= j < c.len() && r == (
                    deepest(fs, (#[trigger] c[j]).0, parts.skip(c[j].1), sep).0,
                    c[j].1 + deepest(fs, c[j].0, parts.skip(c[j].1), sep).1,
                )
        }),
{
    let c = candidates(fs, base, parts, sep, parts.len() as int);
    lemma_candidates_use_parts(fs, base, parts, sep, parts.len() as int);
    lemma_deepest_from(fs, c, parts, sep, (base, 0), 0);
    let r = deepest(fs, base, parts, sep);
    if r.1 == 0 && r != (base, 0int) {
        let j = choose|j: int|
            0 <= j < c.len() && r == (
                deepest(fs, (#[trigger] c[j]).0, parts.skip(c[j].1), sep).0,
                c[j].1 + deepest(fs, c[j].0, parts.skip(c[j].1), sep).1,
            );
        lemma_not_negative(fs, c[j].0, parts.skip(c[j].1), sep);
    }
}

proof fn lemma_not_negative(fs: Fs, base: Seq<char>, parts: Seq<Seq<char>>, sep: Seq<char>)
    ensures
        deepest(fs, base, parts, sep).1 >= 0,
{
    let c = candidates(fs, base, parts, sep, parts.len() as int);
    lemma_never_worse(fs, c, parts, sep, (base, 0), 0);
}

proof fn lemma_never_worse(
    fs: Fs,
    c: Seq<(Seq<char>, int)>,
    parts: Seq<Seq<char>>,
    sep: Seq<char>,
    best: (Seq<char>, int),
    i: int,
)
    ensures
        deepest_from(fs, c, parts, sep, best, i).1 >= best.1,
    decreases c.len() - i,
{
    if 0 <= i < c.len() && 1 <= c[i].1 <= parts.len() {
        let (path, more) = deepest(fs, c[i].0, parts.skip(c[i].1), sep);
        let total = c[i].1 + more;
        lemma_never_worse(
            fs,
            c,
            parts,
            sep,
            if total > best.1 {
                (path, total)
            } else {
                best
            },
            i + 1,
        );
    }
}

proof fn lemma_newer_place(list: Seq<(u64, Seq<char>)>, mtime: u64)
    ensures
        0 <= newer(list, mtime) <= list.len(),
    decreases list.len(),
{
    if list.len() > 0 && list.last().0 < mtime {
        lemma_newer_place(list.drop_last(), mtime);
    }
}

/// The files that are asked for the project's path are those whose names match
/// the pattern, all of them and no others.
pub proof fn lemma_hints_are_the_matching_files(s: Seq<StoreFileView>, pattern: Seq<char>)
    ensures
        forall|i: int|
            0 <= i < s.len() && (#[trigger] s[i]).is_file && glob_match(pattern, s[i].name)
                ==> hint_files(s, pattern).contains((s[i].mtime, s[i].path)),
        forall|x: (u64, Seq<char>)| #[trigger]
            hint_files(s, pattern).contains(x) ==> exists|i: int|
                0 <= i < s.len() && (#[trigger] s[i]).is_file && glob_match(pattern, s[i].name)
                    && x == (s[i].mtime, s[i].path),
        hint_files(s, pattern).len() == s.filter(
            |f: StoreFileView| f.is_file && glob_match(pattern, f.name),
        ).len(),
    decreases s.len(),
{
    reveal(Seq::filter);
    if s.len() > 0 {
        let d = s.drop_last();
        let n = s.len() - 1;
        let f = s.last();
        lemma_hints_are_the_matching_files(d, pattern);
        assert(forall|i: int| 0 <= i < d.len() ==> #[trigger] d[i] == s[i]);
        assert(s[n] == f);
        let rest = hint_files(d, pattern);
        let all = hint_files(s, pattern);
        let x = (f.mtime, f.path);
        let k = newer(rest, f.mtime);
        lemma_newer_place(rest, f.mtime);
        let fits = f.is_file && glob_match(pattern, f.name);
        assert forall|y: (u64, Seq<char>)| #[trigger] all.contains(y) <==> rest.contains(y) || (fits
            && y == x) by {
            if fits {
                assert(all == rest.insert(k, x));
                if all.contains(y) {
                    let i = choose|i: int| 0 <= i < all.len() && all[i] == y;
                    if i < k {
                        assert(rest[i] == y);
                    } else if i > k {
                        assert(rest[i - 1] == y);
                    }
                }
                if rest.contains(y) {
                    let i = choose|i: int| 0 <= i < rest.len() && rest[i] == y;
                    if i < k {
                        assert(all[i] == y);
                    } else {
                        assert(all[i + 1] == y);
                    }
                }
                assert(all[k] == x);
            }
        }
        assert forall|i: int|
            0 <= i < s.len() && (#[trigger] s[i]).is_file && glob_match(
                pattern,
                s[i].name,
            ) implies all.contains((s[i].mtime, s[i].path)) by {
            if i < n {
                assert(d[i].is_file);
                assert(rest.contains((d[i].mtime, d[i].path)));
            }
        }
        assert forall|y: (u64, Seq<char>)| #[trigger] all.contains(y) implies exists|i: int|
            0 <= i < s.len() && (#[trigger] s[i]).is_file && glob_match(pattern, s[i].name) && y
                == (s[i].mtime, s[i].path) by {
            if rest.contains(y) {
                let i = choose|i: int|
                    0 <= i < d.len() && (#[trigger] d[i]).is_file && glob_match(pattern, d[i].name)
                        && y == (d[i].mtime, d[i].path);
                assert(s[i].is_file);
            } else {
                assert(s[n].is_file);
            }
        }
    }
}

/// The file's leading lines name the field with this text, and it fits the
/// directory's name.
pub open spec fn file_says(
    head: Seq<Seq<char>>,
    field: Seq<char>,
    name: Seq<char>,
    sep: Seq<char>,
    cwd: Seq<char>,
) -> bool {
    head_field(head, seq![field], 64) == Some(cwd) && consistent(cwd, name, sep)
}

/// Of the files that are asked, the first that records a path that fits
/// decides; none behind it is asked. None is passed over that was not read.
pub proof fn lemma_first_fitting_hint_decides(
    paths: int,
    heads: Seq<Seq<Seq<char>>>,
    i: int,
    field: Seq<char>,
    name: Seq<char>,
    sep: Seq<char>,
)
    requires
        0 <= i <= paths,
    ensures
        match hinted(paths, heads, i, field, name, sep) {
            HintView::Says(cwd) => exists|k: int|
                i <= k < paths && k < heads.len() && file_says(
                    #[trigger] heads[k],
                    field,
                    name,
                    sep,
                    cwd,
                ) && forall|j: int, c: Seq<char>|
                    i <= j < k ==> !#[trigger] file_says(heads[j], field, name, sep, c),
            HintView::Unread(k) => i <= k < paths && heads.len() <= k && (k > i ==> heads.len()
                == k) && forall|j: int, c: Seq<char>|
                i <= j < k ==> !#[trigger] file_says(heads[j], field, name, sep, c),
            HintView::Silent => forall|j: int, c: Seq<char>|
                i <= j < paths ==> !#[trigger] file_says(heads[j], field, name, sep, c),
        },
    decreases paths - i,
{
    if i < paths && i < heads.len() {
        lemma_first_fitting_hint_decides(paths, heads, i + 1, field, name, sep);
        match head_field(heads[i], seq![field], 64) {
            Some(cwd) => {
                if consistent(cwd, name, sep) {
                    assert(file_says(heads[i], field, name, sep, cwd));
                }
            },
            None => {},
        }
    }
}

/// The first of the leading lines that has one of the fields decides.
pub proof fn lemma_first_line_decides(lines: Seq<Seq<char>>, fields: Seq<Seq<char>>, max: nat)
    ensures
        match head_field(lines, fields, max) {
            Some(t) => exists|k: int|
                0 <= k < lines.len() && k < max && line_field(#[trigger] lines[k], fields) == Some(t)
                    && forall|j: int| 0 <= j < k ==> line_field(#[trigger] lines[j], fields) is None,
            None => forall|j: int|
                0 <= j < lines.len() && j < max ==> line_field(#[trigger] lines[j], fields) is None,
        },
    decreases max,
{
    if max > 0 && lines.len() > 0 {
        if line_field(lines[0], fields) is None {
            let rest = lines.skip(1);
            lemma_first_line_decides(rest, fields, (max - 1) as nat);
            assert(forall|j: int| 0 <= j < rest.len() ==> #[trigger] rest[j] == lines[j + 1]);
            match head_field(lines, fields, max) {
                Some(t) => {
                    let k = choose|k: int|
                        0 <= k < rest.len() && k < max - 1 && line_field(
                            #[trigger] rest[k],
                            fields,
                        ) == Some(t) && forall|j: int|
                            0 <= j < k ==> line_field(#[trigger] rest[j], fields) is None;
                    assert(line_field(lines[k + 1], fields) == Some(t));
                    assert forall|j: int| 0 <= j < k + 1 implies line_field(
                        #[trigger] lines[j],
                        fields,
                    ) is None by {
                        if j > 0 {
                            assert(rest[j - 1] == lines[j]);
                        }
                    }
                },
                None => {
                    assert forall|j: int| 0 <= j < lines.len() && j < max implies line_field(
                        #[trigger] lines[j],
                        fields,
                    ) is None by {
                        if j > 0 {
                            assert(rest[j - 1] == lines[j]);
                        }
                    }
                },
            }
        } else {
            assert(line_field(lines[0], fields) is Some);
        }
    }
}

/// The first of the fields that holds a text decides.
pub proof fn lemma_first_field_decides(m: Leaves, fields: Seq<Seq<char>>)
    ensures
        match first_field(m, fields) {
            Some(t) => exists|k: int|
                0 <= k < fields.len() && text_at(m, split(#[trigger] fields[k], '.')) == Some(t)
                    && forall|j: int|
                    0 <= j < k ==> text_at(m, split(#[trigger] fields[j], '.')) is None,
            None => forall|j: int|
                0 <= j < fields.len() ==> text_at(m, split(#[trigger] fields[j], '.')) is None,
        },
    decreases fields.len(),
{
    if fields.len() > 0 {
        if text_at(m, split(fields[0], '.')) is None {
            let rest = fields.skip(1);
            lemma_first_field_decides(m, rest);
            assert(forall|j: int| 0 <= j < rest.len() ==> #[trigger] rest[j] == fields[j + 1]);
            match first_field(m, fields) {
                Some(t) => {
                    let k = choose|k: int|
                        0 <= k < rest.len() && text_at(m, split(#[trigger] rest[k], '.')) == Some(t)
                            && forall|j: int|
                            0 <= j < k ==> text_at(m, split(#[trigger] rest[j], '.')) is None;
                    assert(text_at(m, split(fields[k + 1], '.')) == Some(t));
                    assert forall|j: int| 0 <= j < k + 1 implies text_at(
                        m,
                        split(#[trigger] fields[j], '.'),
                    ) is None by {
                        if j > 0 {
                            assert(rest[j - 1] == fields[j]);
                        }
                    }
                },
                None => {
                    assert forall|j: int| 0 <= j < fields.len() implies text_at(
                        m,
                        split(#[trigger] fields[j], '.'),
                    ) is None by {
                        if j > 0 {
                            assert(rest[j - 1] == fields[j]);
                        }
                    }
                },
            }
        } else {
            assert(text_at(m, split(fields[0], '.')) is Some);
        }
    }
}

/// Listing a directory of a store that is not too large keeps what was to be
/// listed, adds the directories in it, and hands out the files whose paths
/// below the store match its pattern: all of them and no others.
pub proof fn lemma_listing_is_complete(w: WalkView, entries: Seq<TreeEntryView>)
    requires
        !w.cut,
        w.visited + entries.len() <= 50_000,
    ensures
        ({
            let (v, hits) = listed(w, entries);
            &&& !v.cut
            &&& v.base == w.base
            &&& v.pattern == w.pattern
            &&& v.visited == w.visited + entries.len()
            &&& hits == entries.filter(
                |e: TreeEntryView|
                    e.kind is File && glob_match(w.pattern, relative(e.path, w.base)),
            )
            &&& v.stack == w.stack + entries.filter(|e: TreeEntryView| e.kind is Directory).map(
                |i: int, e: TreeEntryView| e.path,
            )
        }),
    decreases entries.len(),
{
    reveal(Seq::filter);
    let is_dir = |e: TreeEntryView| e.kind is Directory;
    let path = |i: int, e: TreeEntryView| e.path;
    if entries.len() > 0 {
        let d = entries.drop_last();
        lemma_listing_is_complete(w, d);
        let e = entries.last();
        let dirs = d.filter(is_dir);
        if e.kind is Directory {
            assert(entries.filter(is_dir) == dirs.push(e));
            assert(w.stack + dirs.push(e).map(path) =~= (w.stack + dirs.map(path)).push(e.path));
        }
    } else {
        assert(w.stack + entries.filter(is_dir).map(path) =~= w.stack);
    }
}

/// A timestamp in milliseconds is cut to seconds, and so is one in seconds that
/// can only be in milliseconds; any other in seconds stays.
pub proof fn lemma_timestamps_become_seconds(raw: u64)
    ensures
        1000 * seconds(raw, TimeUnit::Ms) <= raw < 1000 * seconds(raw, TimeUnit::Ms) + 1000,
        raw <= 100_000_000_000 ==> seconds(raw, TimeUnit::S) == raw,
        raw > 100_000_000_000 ==> seconds(raw, TimeUnit::S) == seconds(raw, TimeUnit::Ms),
{
}

/// The query for the sessions of a database: the column of the path and that of
/// the last change, of those that are not archived, as far as these are
/// declared by plain names.
pub proof fn lemma_query_is_for_live_sessions(
    table: Seq<char>,
    path: Seq<char>,
    updated: Seq<char>,
    archived: Seq<char>,
)
    requires
        plain_ident(updated),
        plain_ident(archived),
    ensures
        query_text(table, path, Some(updated), Some(archived)) == "SELECT "@ + path + ", "@
            + updated + " FROM "@ + table + " WHERE "@ + archived + " IS NULL"@,
        query_text(table, path, Some(updated), None) == "SELECT "@ + path + ", "@ + updated
            + " FROM "@ + table,
        query_text(table, path, None, Some(archived)) == "SELECT "@ + path + ", NULL"@ + " FROM "@
            + table + " WHERE "@ + archived + " IS NULL"@,
        query_text(table, path, None, None) == "SELECT "@ + path + ", NULL"@ + " FROM "@ + table,
{
    reveal_strlit("");
    let select = "SELECT "@ + path;
    assert(select + (", "@ + updated) =~= select + ", "@ + updated);
    let a = select + ", "@ + updated + " FROM "@ + table;
    let b = select + ", NULL"@ + " FROM "@ + table;
    assert(a + (" WHERE "@ + archived + " IS NULL"@) =~= a + " WHERE "@ + archived + " IS NULL"@);
    assert(b + (" WHERE "@ + archived + " IS NULL"@) =~= b + " WHERE "@ + archived + " IS NULL"@);
    assert(a + ""@ =~= a);
    assert(b + ""@ =~= b);
}

/// A store that lies in the usual directory of a tool that is found through the
/// environment lies, with the same rest of its path, in the directory that the
/// variable names, where it names any; a store that lies elsewhere stays, and
/// so does that of any other tool.
pub proof fn lemma_store_follows_the_environment(
    store: StoreView,
    layout: LayoutView,
    env: Seq<EnvVar>,
    rest: Seq<char>,
)
    ensures
        ({
            let there = rooted(store, Some(layout), Some(env));
            let named = layout.discovery == HomeDirDiscovery::Env && (
            layout.env_var matches Some(name) && env_value(env, name) matches Some(v) && trimmed(
                v,
            ).len() > 0);
            let root = env_value(env, layout.env_var->0)->0;
            &&& !named ==> there == store
            &&& named && store.path() == layout.default_path + rest && (rest.len() == 0 || rest[0]
                == '/') ==> there == store.at(without_trailing(root, '/') + rest)
            &&& !begins(store.path(), layout.default_path) ==> there == store
            &&& there.path() != store.path() ==> begins(store.path(), layout.default_path) && (
            store.path().len() == layout.default_path.len()
                || store.path()[layout.default_path.len() as int] == '/')
        }),
        rooted(store, None, Some(env)) == store,
{
    let d = layout.default_path;
    if store.path() == d + rest {
        assert(store.path().subrange(0, d.len() as int) =~= d);
        assert(store.path().skip(d.len() as int) =~= rest);
        if rest.len() > 0 {
            assert(store.path()[d.len() as int] == rest[0]);
        }
    }
}

/// The value of a variable is the first that is set under its name.
pub proof fn lemma_first_value_counts(env: Seq<EnvVar>, name: Seq<char>)
    ensures
        match env_value(env, name) {
            Some(v) => exists|k: int|
                0 <= k < env.len() && (#[trigger] env[k]).name@ == name && env[k].value@ == v
                    && forall|j: int| 0 <= j < k ==> (#[trigger] env[j]).name@ != name,
            None => forall|j: int| 0 <= j < env.len() ==> (#[trigger] env[j]).name@ != name,
        },
    decreases env.len(),
{
    if env.len() > 0 {
        if env[0].name@ != name {
            let rest = env.skip(1);
            lemma_first_value_counts(rest, name);
            assert(forall|j: int| 0 <= j < rest.len() ==> #[trigger] rest[j] == env[j + 1]);
            match env_value(env, name) {
                Some(v) => {
                    let k = choose|k: int|
                        0 <= k < rest.len() && (#[trigger] rest[k]).name@ == name
                            && rest[k].value@ == v && forall|j: int|
                            0 <= j < k ==> (#[trigger] rest[j]).name@ != name;
                    assert(env[k + 1].name@ == name);
                    assert forall|j: int| 0 <= j < k + 1 implies (#[trigger] env[j]).name@
                        != name by {
                        if j > 0 {
                            assert(rest[j - 1] == env[j]);
                        }
                    }
                },
                None => {
                    assert forall|j: int| 0 <= j < env.len() implies (#[trigger] env[j]).name@
                        != name by {
                        if j > 0 {
                            assert(rest[j - 1] == env[j]);
                        }
                    }
                },
            }
        } else {
            assert(env[0].name@ == name);
        }
    }
}

/// Every tool that declares a store has one among the stores, and no other has.
pub proof fn lemma_every_declared_store_is_there(tools: Seq<ToolView>, env: Option<Seq<EnvVar>>)
    ensures
        forall|i: int|
            0 <= i < tools.len() ==> ((#[trigger] tools[i]).session_store matches Some(store)
                ==> declared(tools, env).contains(
                (tools[i].name, rooted(store, tools[i].home_dir_layout, env)),
            )),
        declared(tools, env).len() == tools.filter(|t: ToolView| t.session_store is Some).len(),
        by_name(declared(tools, env)).to_multiset() == declared(tools, env).to_multiset(),
    decreases tools.len(),
{
    reveal(Seq::filter);
    lemma_stores_are_sorted(declared(tools, env));
    if tools.len() > 0 {
        let d = tools.drop_last();
        let n = tools.len() - 1;
        lemma_every_declared_store_is_there(d, env);
        let rest = declared(d, env);
        let all = declared(tools, env);
        assert forall|i: int| 0 <= i < tools.len() implies ((
        #[trigger] tools[i]).session_store matches Some(store) ==> all.contains(
            (tools[i].name, rooted(store, tools[i].home_dir_layout, env)),
        )) by {
            if let Some(store) = tools[i].session_store {
                let x = (tools[i].name, rooted(store, tools[i].home_dir_layout, env));
                if i < n {
                    assert(d[i] == tools[i]);
                    assert(rest.contains(x));
                    let k = choose|k: int| 0 <= k < rest.len() && rest[k] == x;
                    assert(all[k] == x);
                } else {
                    assert(all[rest.len() as int] == x);
                }
            }
        }
    }
}

/// The entry is a directory below `base` that may stand for its number of the
/// next parts: it is called by them as they are, or it has another name that is
/// encoded to them.
pub open spec fn may_stand(
    fs: Fs,
    base: Seq<char>,
    parts: Seq<Seq<char>>,
    sep: Seq<char>,
    c: (Seq<char>, int),
) -> bool {
    ||| {
        let segment = join(parts.take(c.1), sep);
        segment.len() > 0 && (fs.is_dir)(c.0) && c.0 == joined(base, segment)
    }
    ||| exists|i: int|
        {
            &&& 0 <= i < (fs.list)(base).len()
            &&& (#[trigger] (fs.list)(base)[i]).1
            &&& c.0 == joined(base, (fs.list)(base)[i].0)
            &&& encoded((fs.list)(base)[i].0, sep) != (fs.list)(base)[i].0
            &&& parts_of(encoded((fs.list)(base)[i].0, sep), sep) == parts.take(c.1)
        }
}

proof fn lemma_children_stand(
    fs: Fs,
    base: Seq<char>,
    list: Seq<(Seq<char>, bool)>,
    parts: Seq<Seq<char>>,
    sep: Seq<char>,
    k: int,
)
    requires
        1 <= k <= parts.len(),
    ensures
        forall|c: (Seq<char>, int)| #[trigger]
            encoded_children(base, list, parts, sep, k).contains(c) <==> c.1 == k && exists|i: int|
                {
                    &&& 0 <= i < list.len()
                    &&& (#[trigger] list[i]).1
                    &&& c.0 == joined(base, list[i].0)
                    &&& encoded(list[i].0, sep) != list[i].0
                    &&& parts_of(encoded(list[i].0, sep), sep) == parts.take(k)
                },
    decreases list.len(),
{
    let all = encoded_children(base, list, parts, sep, k);
    if list.len() > 0 {
        let d = list.drop_last();
        let n = list.len() - 1;
        lemma_children_stand(fs, base, d, parts, sep, k);
        let rest = encoded_children(base, d, parts, sep, k);
        assert(forall|i: int| 0 <= i < n ==> #[trigger] d[i] == list[i]);
        let x = (joined(base, list[n].0), k);
        let fits = stands_for(list[n], parts, sep, k);
        assert(fits == (list[n].1 && encoded(list[n].0, sep) != list[n].0 && parts_of(
            encoded(list[n].0, sep),
            sep,
        ) == parts.take(k)));
        assert forall|c: (Seq<char>, int)| #[trigger] all.contains(c) <==> c.1 == k && exists|
            i: int,
        |
            {
                &&& 0 <= i < list.len()
                &&& (#[trigger] list[i]).1
                &&& c.0 == joined(base, list[i].0)
                &&& encoded(list[i].0, sep) != list[i].0
                &&& parts_of(encoded(list[i].0, sep), sep) == parts.take(k)
            } by {
            if all.contains(c) {
                let j = choose|j: int| 0 <= j < all.len() && all[j] == c;
                if j < rest.len() {
                    assert(rest[j] == c);
                    assert(rest.contains(c));
                    let i = choose|i: int|
                        {
                            &&& 0 <= i < d.len()
                            &&& (#[trigger] d[i]).1
                            &&& c.0 == joined(base, d[i].0)
                            &&& encoded(d[i].0, sep) != d[i].0
                            &&& parts_of(encoded(d[i].0, sep), sep) == parts.take(k)
                        };
                    assert(list[i] == d[i]);
                } else {
                    assert(list[n].1);
                }
            }
            if c.1 == k && exists|i: int|
                {
                    &&& 0 <= i < list.len()
                    &&& (#[trigger] list[i]).1
                    &&& c.0 == joined(base, list[i].0)
                    &&& encoded(list[i].0, sep) != list[i].0
                    &&& parts_of(encoded(list[i].0, sep), sep) == parts.take(k)
                } {
                let i = choose|i: int|
                    {
                        &&& 0 <= i < list.len()
                        &&& (#[trigger] list[i]).1
                        &&& c.0 == joined(base, list[i].0)
                        &&& encoded(list[i].0, sep) != list[i].0
                        &&& parts_of(encoded(list[i].0, sep), sep) == parts.take(k)
                    };
                if i < n {
                    assert(d[i] == list[i]);
                    assert(rest.contains(c));
                    let j = choose|j: int| 0 <= j < rest.len() && rest[j] == c;
                    assert(all[j] == c);
                } else {
                    assert(fits);
                    assert(all[rest.len() as int] == c);
                }
            }
        }
    }
}

/// The directories that are tried for the next parts of a name are all those
/// that may stand for them and no others; those that stand for fewer parts,
/// which means more separators in the path, are tried first.
pub proof fn lemma_shorter_names_are_tried_first(
    fs: Fs,
    base: Seq<char>,
    parts: Seq<Seq<char>>,
    sep: Seq<char>,
    k: int,
)
    requires
        0 <= k <= parts.len(),
    ensures
        forall|i: int, j: int|
            0 <= i < j < candidates(fs, base, parts, sep, k).len() ==> (#[trigger] candidates(
                fs,
                base,
                parts,
                sep,
                k,
            )[i]).1 <= (#[trigger] candidates(fs, base, parts, sep, k)[j]).1,
        forall|c: (Seq<char>, int)| #[trigger]
            candidates(fs, base, parts, sep, k).contains(c) <==> 1 <= c.1 <= k && may_stand(
                fs,
                base,
                parts,
                sep,
                c,
            ),
    decreases k,
{
    lemma_candidates_use_parts(fs, base, parts, sep, k);
    if k > 0 {
        lemma_shorter_names_are_tried_first(fs, base, parts, sep, k - 1);
        lemma_candidates_use_parts(fs, base, parts, sep, k - 1);
        lemma_children_use_parts(base, (fs.list)(base), parts, sep, k);
        lemma_children_stand(fs, base, (fs.list)(base), parts, sep, k);
        let a = candidates(fs, base, parts, sep, k - 1);
        let b = literal_child(fs, base, parts, sep, k);
        let e = encoded_children(base, (fs.list)(base), parts, sep, k);
        let all = candidates(fs, base, parts, sep, k);
        assert(all == a + (b + e));
        assert forall|i: int, j: int| 0 <= i < j < all.len() implies (#[trigger] all[i]).1 <= (
        #[trigger] all[j]).1 by {
            if j < a.len() {
                assert(all[i] == a[i] && all[j] == a[j]);
            } else {
                if j < a.len() + b.len() {
                    assert(all[j] == b[j - a.len()]);
                } else {
                    assert(all[j] == e[j - a.len() - b.len()]);
                }
                assert(all[j].1 == k);
                assert(1 <= all[i].1 <= k);
            }
        }
        assert forall|c: (Seq<char>, int)| #[trigger] all.contains(c) <==> 1 <= c.1 <= k
            && may_stand(fs, base, parts, sep, c) by {
            if all.contains(c) {
                let j = choose|j: int| 0 <= j < all.len() && all[j] == c;
                if j < a.len() {
                    assert(a[j] == c);
                    assert(a.contains(c));
                } else if j < a.len() + b.len() {
                    assert(b[j - a.len()] == c);
                } else {
                    assert(e[j - a.len() - b.len()] == c);
                    assert(e.contains(c));
                }
            }
            if 1 <= c.1 <= k && may_stand(fs, base, parts, sep, c) {
                if c.1 < k {
                    assert(a.contains(c));
                    let j = choose|j: int| 0 <= j < a.len() && a[j] == c;
                    assert(all[j] == c);
                } else {
                    let segment = join(parts.take(k), sep);
                    if segment.len() > 0 && (fs.is_dir)(c.0) && c.0 == joined(base, segment) {
                        assert(b[0] == c);
                        assert(all[a.len() as int] == c);
                    } else {
                        assert(e.contains(c));
                        let j = choose|j: int| 0 <= j < e.len() && e[j] == c;
                        assert(all[a.len() + b.len() + j] == c);
                    }
                }
            }
        }
    }
}

/// A path that a file records fits a directory exactly if it is not empty and
/// the directory's name is the path encoded, in full or by its slashes alone.
pub proof fn lemma_hint_fits_by_either_encoding(
    cwd: Seq<char>,
    sep: Seq<char>,
    name: Seq<char>,
)
    requires
        cwd.len() > 0,
    ensures
        consistent(cwd, encoded(cwd, sep), sep),
        consistent(cwd, replaced(cwd, seq!['/'], sep), sep),
        consistent(cwd, name, sep) ==> name == encoded(cwd, sep) || name == replaced(
            cwd,
            seq!['/'],
            sep,
        ),
        !consistent(Seq::empty(), name, sep),
{
    reveal_strlit("/");
    assert("/"@ =~= seq!['/']);
}

/// At most four files are asked for the path, the newest of those that match.
pub proof fn lemma_four_newest_files_are_asked(
    files: Seq<StoreFileView>,
    pattern: Seq<char>,
    field: Seq<char>,
)
    requires
        is_pattern(pattern),
    ensures
        hint_plan(files, Some(pattern), Some(field)) matches Some((paths, f)) && {
            &&& f == field
            &&& paths.len() <= 4
            &&& paths.len() == 4 || paths.len() == hint_files(files, pattern).len()
            &&& forall|i: int|
                0 <= i < paths.len() ==> #[trigger] paths[i] == hint_files(files, pattern)[i].1
        },
        hint_plan(files, None, Some(field)) is None,
        hint_plan(files, Some(pattern), None) is None,
{
}

} // verus!
