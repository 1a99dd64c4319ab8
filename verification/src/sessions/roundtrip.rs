//! Encoding a path and decoding its name again.
use vstd::prelude::*;

use crate::chars::ascii_alphanumeric;
use crate::paths::{absolute, joined};
use crate::sessions::decode::{
    candidates, decoded, deepest, deepest_from, encoded, encoded_char, encoded_children,
    lemma_candidates, lemma_encoded_concat, lemma_next_is, lemma_short_encoding, literal_child,
    naive_path, next_separator, parts_of, stands_for, walked, walked_from, DecodeConfidence, Fs,
};
use crate::text::{begins, join, occurs_at};

verus! {

/// The name of a file or a directory: it is not empty, and has no slash.
pub open spec fn plain_name(n: Seq<char>) -> bool {
    n.len() > 0 && !n.contains('/')
}

/// The path that the names lead to from `base`.
pub open spec fn path_to(base: Seq<char>, names: Seq<Seq<char>>) -> Seq<char>
    decreases names.len(),
{
    if names.len() == 0 {
        base
    } else {
        path_to(joined(base, names[0]), names.skip(1))
    }
}

/// Each of the names is that of a directory, below the one before it.
pub open spec fn live(fs: Fs, base: Seq<char>, names: Seq<Seq<char>>) -> bool
    decreases names.len(),
{
    names.len() == 0 || {
        &&& plain_name(names[0])
        &&& (fs.is_dir)(joined(base, names[0]))
        &&& (fs.list)(base).contains((names[0], true))
        &&& live(fs, joined(base, names[0]), names.skip(1))
    }
}

/// The parts of the encoded names, one after the other.
pub open spec fn name_parts(names: Seq<Seq<char>>, sep: Seq<char>) -> Seq<Seq<char>>
    decreases names.len(),
{
    if names.len() == 0 {
        Seq::empty()
    } else {
        parts_of(encoded(names[0], sep), sep) + name_parts(names.skip(1), sep)
    }
}

/// The encoded names, each after a separator.
pub open spec fn name_chain(names: Seq<Seq<char>>, sep: Seq<char>) -> Seq<char>
    decreases names.len(),
{
    if names.len() == 0 {
        Seq::empty()
    } else {
        sep + encoded(names[0], sep) + name_chain(names.skip(1), sep)
    }
}

proof fn lemma_next(s: Seq<char>, sep: Seq<char>, i: int)
    requires
        0 <= i <= s.len(),
    ensures
        i <= next_separator(s, sep, i) <= s.len(),
        next_separator(s, sep, i) < s.len() ==> occurs_at(s, sep, next_separator(s, sep, i)),
        forall|j: int| i <= j < next_separator(s, sep, i) ==> !occurs_at(s, sep, j),
    decreases s.len() - i,
{
    if i < s.len() && !occurs_at(s, sep, i) {
        lemma_next(s, sep, i + 1);
    }
}

proof fn lemma_one_char(s: Seq<char>, sep: char, i: int)
    requires
        0 <= i < s.len(),
    ensures
        occurs_at(s, seq![sep], i) == (s[i] == sep),
{
    assert(s.subrange(i, i + 1) =~= seq![s[i]]);
    if s[i] != sep {
        assert(seq![s[i]][0] != seq![sep][0]);
    }
}

/// A separator between two texts parts them.
proof fn lemma_parts_concat(a: Seq<char>, b: Seq<char>, sep: char)
    ensures
        parts_of(a + seq![sep] + b, seq![sep]) == parts_of(a, seq![sep]) + parts_of(b, seq![sep]),
    decreases a.len(),
{
    let t = seq![sep];
    let s = a + t + b;
    let k = next_separator(a, t, 0);
    lemma_next(a, t, 0);
    assert forall|j: int| 0 <= j < k implies !occurs_at(s, t, j) by {
        lemma_one_char(s, sep, j);
        lemma_one_char(a, sep, j);
        assert(s[j] == a[j]);
    }
    if k < a.len() {
        lemma_one_char(a, sep, k);
    }
    lemma_one_char(s, sep, k);
    lemma_next_is(s, t, 0, k);
    if k == a.len() {
        assert(s.take(k) =~= a);
        assert(s.skip(k + 1) =~= b);
    } else {
        let rest = a.skip(k + 1);
        assert(s.take(k) =~= a.take(k));
        assert(s.skip(k + 1) =~= rest + t + b);
        lemma_parts_concat(rest, b, sep);
        assert(seq![a.take(k)] + (parts_of(rest, t) + parts_of(b, t)) =~= seq![a.take(k)]
            + parts_of(rest, t) + parts_of(b, t));
    }
}

proof fn lemma_join_front(x: Seq<char>, rest: Seq<Seq<char>>, sep: Seq<char>)
    requires
        rest.len() > 0,
    ensures
        join(seq![x] + rest, sep) == x + sep + join(rest, sep),
    decreases rest.len(),
{
    let all = seq![x] + rest;
    assert(all.drop_last() =~= seq![x] + rest.drop_last());
    assert(all.last() == rest.last());
    if rest.len() == 1 {
        assert(all.drop_last() =~= seq![x]);
        assert(join(seq![x], sep) == x);
    } else {
        lemma_join_front(x, rest.drop_last(), sep);
        assert(x + sep + join(rest.drop_last(), sep) + sep + rest.last() =~= x + sep + (join(
            rest.drop_last(),
            sep,
        ) + sep + rest.last()));
    }
}

/// The parts of a text, joined again, are the text.
proof fn lemma_join_parts(s: Seq<char>, sep: Seq<char>)
    ensures
        join(parts_of(s, sep), sep) == s,
        parts_of(s, sep).len() > 0,
    decreases s.len(),
{
    lemma_next(s, sep, 0);
    let k = next_separator(s, sep, 0);
    if !(sep.len() == 0 || k < 0 || k + sep.len() > s.len()) {
        let rest = s.skip(k + sep.len());
        lemma_join_parts(rest, sep);
        lemma_join_front(s.take(k), parts_of(rest, sep), sep);
        assert(occurs_at(s, sep, k));
        assert(s.take(k) + sep + rest =~= s);
    }
}

/// Going on from a directory adds its encoded names to the encoded path.
proof fn lemma_encoded_path(base: Seq<char>, names: Seq<Seq<char>>, sep: char)
    requires
        base.len() > 0,
        base.last() != '/' || base == seq!['/'],
        forall|i: int| 0 <= i < names.len() ==> plain_name(#[trigger] names[i]),
    ensures
        names.len() > 0 && base == seq!['/'] ==> encoded(path_to(base, names), seq![sep])
            == name_chain(names, seq![sep]),
        base != seq!['/'] ==> encoded(path_to(base, names), seq![sep]) == encoded(base, seq![sep])
            + name_chain(names, seq![sep]),
    decreases names.len(),
{
    let t = seq![sep];
    if names.len() == 0 {
        assert(encoded(base, t) + name_chain(names, t) =~= encoded(base, t));
    } else {
        let n = names[0];
        let rest = names.skip(1);
        assert(forall|i: int| 0 <= i < rest.len() ==> rest[i] == names[i + 1]);
        assert(n.contains(n[0]));
        assert(n.contains(n.last()));
        assert(!absolute(n));
        let next = joined(base, n);
        let slash = seq!['/'];
        assert(encoded(slash, t) =~= t) by {
            assert(slash.drop_last() =~= Seq::<char>::empty());
            assert(encoded(Seq::<char>::empty(), t) =~= Seq::<char>::empty());
            assert(!ascii_alphanumeric('/'));
            assert(encoded_char('/', t) == t);
        }
        assert(next.last() == n.last());
        assert(next.len() > 1);
        if base == slash {
            assert(next =~= slash + n);
            lemma_encoded_concat(slash, n, t);
            lemma_encoded_path(next, rest, sep);
        } else {
            assert(next =~= base + slash + n);
            lemma_encoded_concat(base + slash, n, t);
            lemma_encoded_concat(base, slash, t);
            lemma_encoded_path(next, rest, sep);
            assert(encoded(base, t) + t + encoded(n, t) + name_chain(rest, t) =~= encoded(base, t)
                + (t + encoded(n, t) + name_chain(rest, t)));
        }
    }
}

/// The parts of the encoded path are those of the encoded names.
proof fn lemma_chain_parts(names: Seq<Seq<char>>, sep: char)
    requires
        names.len() > 0,
    ensures
        begins(name_chain(names, seq![sep]), seq![sep]),
        parts_of(name_chain(names, seq![sep]).skip(1), seq![sep]) == name_parts(names, seq![sep]),
    decreases names.len(),
{
    let t = seq![sep];
    let first = encoded(names[0], t);
    let rest = names.skip(1);
    let all = name_chain(names, t);
    assert(all.subrange(0, 1) =~= t);
    assert(all.skip(1) =~= first + name_chain(rest, t));
    if rest.len() == 0 {
        assert(first + name_chain(rest, t) =~= first);
        assert(parts_of(first, t) + name_parts(rest, t) =~= parts_of(first, t));
    } else {
        lemma_chain_parts(rest, sep);
        let tail = name_chain(rest, t);
        assert(tail =~= t + tail.skip(1));
        assert(first + tail =~= first + t + tail.skip(1));
        lemma_parts_concat(first, tail.skip(1), sep);
    }
}

/// What was found stays found.
proof fn lemma_walk_grows(
    fs: Fs,
    base: Seq<char>,
    parts: Seq<Seq<char>>,
    sep: Seq<char>,
    found: Seq<Seq<char>>,
    x: Seq<char>,
)
    ensures
        walked(fs, base, parts, sep, found).len() >= found.len(),
        found.contains(x) ==> walked(fs, base, parts, sep, found).contains(x),
    decreases parts.len(), 1int, 0int,
{
    if found.len() < 2 {
        if parts.len() == 0 {
            if found.contains(x) {
                let i = choose|i: int| 0 <= i < found.len() && found[i] == x;
                assert(found.push(base)[i] == x);
            }
        } else {
            let c = candidates(fs, base, parts, sep, parts.len() as int);
            lemma_walk_from_grows(fs, c, parts, sep, found, 0, x);
        }
    }
}

proof fn lemma_walk_from_grows(
    fs: Fs,
    c: Seq<(Seq<char>, int)>,
    parts: Seq<Seq<char>>,
    sep: Seq<char>,
    found: Seq<Seq<char>>,
    i: int,
    x: Seq<char>,
)
    ensures
        walked_from(fs, c, parts, sep, found, i).len() >= found.len(),
        found.contains(x) ==> walked_from(fs, c, parts, sep, found, i).contains(x),
    decreases parts.len(), 0int, c.len() - i,
{
    if !(i < 0 || i >= c.len() || found.len() >= 2 || !(1 <= c[i].1 <= parts.len())) {
        let more = walked(fs, c[i].0, parts.skip(c[i].1), sep, found);
        lemma_walk_grows(fs, c[i].0, parts.skip(c[i].1), sep, found, x);
        lemma_walk_from_grows(fs, c, parts, sep, more, i + 1, x);
    }
}

/// A directory whose name encodes to the next parts is among the candidates.
proof fn lemma_is_candidate(fs: Fs, base: Seq<char>, names: Seq<Seq<char>>, sep: Seq<char>) -> (i:
    int)
    requires
        names.len() > 0,
        live(fs, base, names),
    ensures
        ({
            let parts = name_parts(names, sep);
            let c = candidates(fs, base, parts, sep, parts.len() as int);
            let k = parts_of(encoded(names[0], sep), sep).len() as int;
            &&& 0 <= i < c.len()
            &&& c[i] == (joined(base, names[0]), k)
            &&& 1 <= k <= parts.len()
            &&& parts.skip(k) == name_parts(names.skip(1), sep)
        }),
{
    let n = names[0];
    let enc = encoded(n, sep);
    let first = parts_of(enc, sep);
    let k = first.len() as int;
    let parts = name_parts(names, sep);
    lemma_join_parts(enc, sep);
    assert(parts.take(k) =~= first);
    assert(parts.skip(k) =~= name_parts(names.skip(1), sep));
    let here = literal_child(fs, base, parts, sep, k) + encoded_children(
        base,
        (fs.list)(base),
        parts,
        sep,
        k,
    );
    let want = (joined(base, n), k);
    let j: int;
    if enc == n {
        assert(join(parts.take(k), sep) == n);
        assert(literal_child(fs, base, parts, sep, k)[0] == want);
        assert(here[0] == want);
        j = 0;
    } else {
        let list = (fs.list)(base);
        let at = choose|at: int| 0 <= at < list.len() && list[at] == (n, true);
        assert(stands_for((n, true), parts, sep, k));
        let m = lemma_is_encoded_child(base, list, parts, sep, k, at);
        j = literal_child(fs, base, parts, sep, k).len() + m;
        assert(here[j] == want);
    }
    let before = candidates(fs, base, parts, sep, k - 1);
    assert(candidates(fs, base, parts, sep, k)[before.len() + j] == want);
    lemma_candidates_stay(fs, base, parts, sep, k, parts.len() as int, before.len() + j);
    before.len() + j
}

proof fn lemma_is_encoded_child(
    base: Seq<char>,
    list: Seq<(Seq<char>, bool)>,
    parts: Seq<Seq<char>>,
    sep: Seq<char>,
    k: int,
    at: int,
) -> (m: int)
    requires
        0 <= at < list.len(),
        stands_for(list[at], parts, sep, k),
    ensures
        0 <= m < encoded_children(base, list, parts, sep, k).len(),
        encoded_children(base, list, parts, sep, k)[m] == (joined(base, list[at].0), k),
    decreases list.len(),
{
    let rest = encoded_children(base, list.drop_last(), parts, sep, k);
    if at == list.len() - 1 {
        rest.len() as int
    } else {
        assert(list.drop_last()[at] == list[at]);
        lemma_is_encoded_child(base, list.drop_last(), parts, sep, k, at)
    }
}

proof fn lemma_candidates_stay(
    fs: Fs,
    base: Seq<char>,
    parts: Seq<Seq<char>>,
    sep: Seq<char>,
    k: int,
    n: int,
    i: int,
)
    requires
        0 <= k <= n,
        0 <= i < candidates(fs, base, parts, sep, k).len(),
    ensures
        i < candidates(fs, base, parts, sep, n).len(),
        candidates(fs, base, parts, sep, n)[i] == candidates(fs, base, parts, sep, k)[i],
    decreases n - k,
{
    if k < n {
        lemma_candidates_stay(fs, base, parts, sep, k, n - 1, i);
    }
}

/// A directory is found from its parts, unless two others are found first.
proof fn lemma_walk_reaches(
    fs: Fs,
    base: Seq<char>,
    names: Seq<Seq<char>>,
    sep: Seq<char>,
    found: Seq<Seq<char>>,
)
    requires
        live(fs, base, names),
    ensures
        ({
            let w = walked(fs, base, name_parts(names, sep), sep, found);
            w.len() >= 2 || w.contains(path_to(base, names))
        }),
    decreases names.len(), 1int, 0int,
{
    let parts = name_parts(names, sep);
    if found.len() < 2 {
        if names.len() == 0 {
            assert(found.push(base)[found.len() as int] == base);
        } else {
            let i = lemma_is_candidate(fs, base, names, sep);
            lemma_walk_from_reaches(fs, base, names, sep, found, 0, i);
        }
    }
}

proof fn lemma_walk_from_reaches(
    fs: Fs,
    base: Seq<char>,
    names: Seq<Seq<char>>,
    sep: Seq<char>,
    found: Seq<Seq<char>>,
    j: int,
    i: int,
)
    requires
        names.len() > 0,
        live(fs, base, names),
        0 <= j <= i,
        ({
            let parts = name_parts(names, sep);
            let c = candidates(fs, base, parts, sep, parts.len() as int);
            let k = parts_of(encoded(names[0], sep), sep).len() as int;
            &&& i < c.len()
            &&& c[i] == (joined(base, names[0]), k)
            &&& 1 <= k <= parts.len()
            &&& parts.skip(k) == name_parts(names.skip(1), sep)
        }),
    ensures
        ({
            let parts = name_parts(names, sep);
            let c = candidates(fs, base, parts, sep, parts.len() as int);
            let w = walked_from(fs, c, parts, sep, found, j);
            w.len() >= 2 || w.contains(path_to(base, names))
        }),
    decreases names.len(), 0int, i - j,
{
    let parts = name_parts(names, sep);
    let c = candidates(fs, base, parts, sep, parts.len() as int);
    let target = path_to(base, names);
    lemma_candidates(fs, base, parts, sep, parts.len() as int);
    if found.len() < 2 {
        let more = walked(fs, c[j].0, parts.skip(c[j].1), sep, found);
        if j == i {
            lemma_walk_reaches(fs, joined(base, names[0]), names.skip(1), sep, found);
            assert(more.len() >= 2 || more.contains(target));
            lemma_walk_from_grows(fs, c, parts, sep, more, j + 1, target);
        } else {
            lemma_walk_from_reaches(fs, base, names, sep, more, j + 1, i);
        }
    }
}

proof fn lemma_live_names(fs: Fs, base: Seq<char>, names: Seq<Seq<char>>)
    requires
        live(fs, base, names),
    ensures
        forall|i: int| 0 <= i < names.len() ==> plain_name(#[trigger] names[i]),
    decreases names.len(),
{
    if names.len() > 0 {
        let rest = names.skip(1);
        lemma_live_names(fs, joined(base, names[0]), rest);
        assert forall|i: int| 0 <= i < names.len() implies plain_name(#[trigger] names[i]) by {
            if i > 0 {
                assert(rest[i - 1] == names[i]);
            }
        }
    }
}

/// The name of a directory that exists is decoded to the directory's path. It
/// is a guess only where the name stands for two directories that exist.
pub proof fn lemma_live_project_is_found(fs: Fs, names: Seq<Seq<char>>, sep: char)
    requires
        names.len() > 0,
        live(fs, "/"@, names),
    ensures
        ({
            let path = path_to("/"@, names);
            let name = encoded(path, seq![sep]);
            let (said, confidence) = decoded(fs, name, seq![sep], true);
            let ways = walked(
                fs,
                "/"@,
                parts_of(name.skip(1), seq![sep]),
                seq![sep],
                Seq::empty(),
            );
            match confidence {
                DecodeConfidence::Exact => said == path,
                DecodeConfidence::Inferred => ways.len() >= 2,
                DecodeConfidence::Unresolved => false,
            }
        }),
{
    reveal_strlit("/");
    assert("/"@ =~= seq!['/']);
    let t = seq![sep];
    let path = path_to("/"@, names);
    lemma_live_names(fs, "/"@, names);
    lemma_encoded_path("/"@, names, sep);
    lemma_chain_parts(names, sep);
    lemma_walk_reaches(fs, "/"@, names, t, Seq::empty());
    let ways = walked(fs, "/"@, name_parts(names, t), t, Seq::empty());
    if ways.len() < 2 {
        let i = choose|i: int| 0 <= i < ways.len() && ways[i] == path;
        assert(i == 0);
    }
}

/// Every name that is listed is one.
pub open spec fn plain_lists(fs: Fs) -> bool {
    forall|p: Seq<char>, i: int|
        0 <= i < (fs.list)(p).len() ==> plain_name((#[trigger] (fs.list)(p)[i]).0)
}

/// A text of ASCII letters, digits and separators.
pub open spec fn name_text(s: Seq<char>, sep: char) -> bool {
    forall|i: int| 0 <= i < s.len() ==> ascii_alphanumeric(#[trigger] s[i]) || s[i] == sep
}

/// What the path adds to the names of those below it.
spec fn stem(base: Seq<char>, sep: char) -> Seq<char> {
    if base == seq!['/'] {
        Seq::empty()
    } else {
        encoded(base, seq![sep])
    }
}

spec fn tail(parts: Seq<Seq<char>>, sep: char) -> Seq<char> {
    if parts.len() == 0 {
        Seq::empty()
    } else {
        seq![sep] + join(parts, seq![sep])
    }
}

proof fn lemma_join_split(parts: Seq<Seq<char>>, sep: char, k: int)
    requires
        1 <= k <= parts.len(),
    ensures
        join(parts, seq![sep]) == join(parts.take(k), seq![sep]) + tail(parts.skip(k), sep),
    decreases k,
{
    let t = seq![sep];
    let x = parts[0];
    let rest = parts.skip(1);
    assert(parts =~= seq![x] + rest);
    if rest.len() > 0 {
        lemma_join_front(x, rest, t);
    }
    if k == 1 {
        assert(parts.take(1) =~= seq![x]);
        if rest.len() == 0 {
            assert(parts =~= seq![x]);
            assert(x + tail(rest, sep) =~= x);
        } else {
            assert(x + (t + join(rest, t)) =~= x + t + join(rest, t));
        }
    } else {
        lemma_join_split(rest, sep, k - 1);
        assert(parts.take(k) =~= seq![x] + rest.take(k - 1));
        lemma_join_front(x, rest.take(k - 1), t);
        assert(rest.skip(k - 1) =~= parts.skip(k));
        assert(x + t + (join(rest.take(k - 1), t) + tail(parts.skip(k), sep)) =~= x + t + join(
            rest.take(k - 1),
            t,
        ) + tail(parts.skip(k), sep));
    }
}

/// A candidate is a name below the directory that encodes to the parts that it
/// stands for.
proof fn lemma_candidate_name(
    fs: Fs,
    base: Seq<char>,
    parts: Seq<Seq<char>>,
    sep: char,
    n: int,
    i: int,
) -> (seg: Seq<char>)
    requires
        plain_lists(fs),
        sep != '/',
        (sep as u32) < 0x10000,
        name_text(join(parts, seq![sep]), sep),
        0 <= n <= parts.len(),
        0 <= i < candidates(fs, base, parts, seq![sep], n).len(),
    ensures
        ({
            let c = candidates(fs, base, parts, seq![sep], n)[i];
            &&& plain_name(seg)
            &&& 1 <= c.1 <= n
            &&& c.0 == joined(base, seg)
            &&& encoded(seg, seq![sep]) == join(parts.take(c.1), seq![sep])
        }),
    decreases n,
{
    let t = seq![sep];
    if n == 0 {
        Seq::empty()
    } else {
        let before = candidates(fs, base, parts, t, n - 1);
        let lit = literal_child(fs, base, parts, t, n);
        let enc = encoded_children(base, (fs.list)(base), parts, t, n);
        let all = candidates(fs, base, parts, t, n);
        assert(all == before + (lit + enc));
        if i < before.len() {
            assert(all[i] == before[i]);
            lemma_candidate_name(fs, base, parts, sep, n - 1, i)
        } else if i < before.len() + lit.len() {
            assert(all[i] == lit[i - before.len()]);
            let seg = join(parts.take(n), t);
            lemma_join_split(parts, sep, n);
            let whole = join(parts, t);
            assert forall|j: int| 0 <= j < seg.len() implies ascii_alphanumeric(#[trigger] seg[j])
                || seg[j] == sep by {
                assert(whole[j] == seg[j]);
            }
            lemma_short_encoding(seg, sep);
            assert(!seg.contains('/'));
            seg
        } else {
            let m = i - before.len() - lit.len();
            assert(all[i] == enc[m]);
            let at = lemma_encoded_child_name(base, (fs.list)(base), parts, t, n, m);
            let seg = (fs.list)(base)[at].0;
            lemma_join_parts(encoded(seg, t), t);
            seg
        }
    }
}

proof fn lemma_encoded_child_name(
    base: Seq<char>,
    list: Seq<(Seq<char>, bool)>,
    parts: Seq<Seq<char>>,
    sep: Seq<char>,
    k: int,
    m: int,
) -> (at: int)
    requires
        0 <= m < encoded_children(base, list, parts, sep, k).len(),
    ensures
        0 <= at < list.len(),
        stands_for(list[at], parts, sep, k),
        encoded_children(base, list, parts, sep, k)[m] == (joined(base, list[at].0), k),
    decreases list.len(),
{
    let rest = encoded_children(base, list.drop_last(), parts, sep, k);
    if m == rest.len() {
        list.len() - 1
    } else {
        let at = lemma_encoded_child_name(base, list.drop_last(), parts, sep, k, m);
        assert(list.drop_last()[at] == list[at]);
        at
    }
}

/// The path below a directory begins with what the directory adds.
proof fn lemma_stem(base: Seq<char>, seg: Seq<char>, sep: char)
    requires
        base.len() > 0,
        base.last() != '/' || base == seq!['/'],
        plain_name(seg),
    ensures
        joined(base, seg).len() > 1,
        joined(base, seg).last() != '/',
        stem(joined(base, seg), sep) == stem(base, sep) + seq![sep] + encoded(seg, seq![sep]),
{
    let t = seq![sep];
    let names = seq![seg];
    assert(names.skip(1) =~= Seq::<Seq<char>>::empty());
    assert(path_to(base, names) == path_to(joined(base, seg), names.skip(1)));
    lemma_encoded_path(base, names, sep);
    assert(name_chain(names.skip(1), t) =~= Seq::<char>::empty());
    assert(name_chain(names, t) =~= t + encoded(seg, t));
    assert(seg.contains(seg.last()));
    assert(seg.contains(seg[0]));
    assert(joined(base, seg).last() == seg.last());
    assert(stem(base, sep) + t + encoded(seg, t) =~= stem(base, sep) + (t + encoded(seg, t)));
    assert(Seq::<char>::empty() + (t + encoded(seg, t)) =~= t + encoded(seg, t));
}

proof fn lemma_walk_sound(
    fs: Fs,
    base: Seq<char>,
    parts: Seq<Seq<char>>,
    sep: char,
    found: Seq<Seq<char>>,
    name: Seq<char>,
    x: Seq<char>,
)
    requires
        plain_lists(fs),
        sep != '/',
        (sep as u32) < 0x10000,
        base.len() > 0,
        base.last() != '/' || base == seq!['/'],
        parts.len() > 0 || base != seq!['/'],
        name_text(join(parts, seq![sep]), sep),
        name == stem(base, sep) + tail(parts, sep),
    ensures
        walked(fs, base, parts, seq![sep], found).contains(x) ==> found.contains(x) || encoded(
            x,
            seq![sep],
        ) == name,
    decreases parts.len(), 1int, 0int,
{
    let t = seq![sep];
    if found.len() < 2 {
        if parts.len() == 0 {
            assert(name =~= encoded(base, t));
            if found.push(base).contains(x) {
                let i = choose|i: int| 0 <= i < found.push(base).len() && found.push(base)[i] == x;
                if i < found.len() {
                    assert(found[i] == x);
                }
            }
        } else {
            lemma_walk_from_sound(fs, base, parts, sep, found, 0, name, x);
        }
    }
}

proof fn lemma_walk_from_sound(
    fs: Fs,
    base: Seq<char>,
    parts: Seq<Seq<char>>,
    sep: char,
    found: Seq<Seq<char>>,
    i: int,
    name: Seq<char>,
    x: Seq<char>,
)
    requires
        plain_lists(fs),
        sep != '/',
        (sep as u32) < 0x10000,
        base.len() > 0,
        base.last() != '/' || base == seq!['/'],
        parts.len() > 0,
        name_text(join(parts, seq![sep]), sep),
        name == stem(base, sep) + tail(parts, sep),
        0 <= i,
    ensures
        ({
            let c = candidates(fs, base, parts, seq![sep], parts.len() as int);
            walked_from(fs, c, parts, seq![sep], found, i).contains(x) ==> found.contains(x)
                || encoded(x, seq![sep]) == name
        }),
    decreases
            parts.len(),
            0int,
            candidates(fs, base, parts, seq![sep], parts.len() as int).len() - i,
{
    let t = seq![sep];
    let c = candidates(fs, base, parts, t, parts.len() as int);
    if i < c.len() && found.len() < 2 {
        lemma_candidate_is_on_name(fs, base, parts, sep, name, i);
        let below = c[i].0;
        let rest = parts.skip(c[i].1);
        let more = walked(fs, below, rest, t, found);
        lemma_walk_sound(fs, below, rest, sep, found, name, x);
        lemma_walk_from_sound(fs, base, parts, sep, more, i + 1, name, x);
    }
}

/// The text with a slash for every separator.
pub open spec fn slashed(s: Seq<char>, sep: char) -> Seq<char> {
    Seq::new(
        s.len(),
        |i: int|
            if s[i] == sep {
                '/'
            } else {
                s[i]
            },
    )
}

proof fn lemma_slashed_parts(s: Seq<char>, sep: char)
    ensures
        join(parts_of(s, seq![sep]), seq!['/']) == slashed(s, sep),
    decreases s.len(),
{
    let t = seq![sep];
    let k = next_separator(s, t, 0);
    lemma_next(s, t, 0);
    assert forall|j: int| 0 <= j < k implies s[j] != sep by {
        lemma_one_char(s, sep, j);
    }
    if k == s.len() {
        assert(s =~= slashed(s, sep));
    } else {
        lemma_one_char(s, sep, k);
        let rest = s.skip(k + 1);
        lemma_slashed_parts(rest, sep);
        lemma_join_parts(rest, t);
        lemma_join_front(s.take(k), parts_of(rest, t), seq!['/']);
        assert(s.take(k) + seq!['/'] + slashed(rest, sep) =~= slashed(s, sep));
    }
}

proof fn lemma_slashed_encodes(s: Seq<char>, sep: char)
    requires
        name_text(s, sep),
    ensures
        encoded(slashed(s, sep), seq![sep]) == s,
    decreases s.len(),
{
    let t = seq![sep];
    let w = slashed(s, sep);
    if s.len() == 0 {
        assert(encoded(w, t) =~= s);
    } else {
        let d = s.drop_last();
        assert(forall|i: int| 0 <= i < d.len() ==> d[i] == s[i]);
        lemma_slashed_encodes(d, sep);
        assert(w.drop_last() =~= slashed(d, sep));
        assert(ascii_alphanumeric(s[s.len() - 1]) || s[s.len() - 1] == sep);
        assert(!ascii_alphanumeric('/'));
        assert(encoded_char(w.last(), t) =~= seq![s.last()]);
        assert(d + seq![s.last()] =~= s);
    }
}

/// The place on the way that the name leads: what is behind it, with what is
/// left, is the name.
spec fn on_name(base: Seq<char>, parts: Seq<Seq<char>>, sep: char, name: Seq<char>) -> bool {
    &&& base.len() > 0
    &&& base.last() != '/' || base == seq!['/']
    &&& name_text(join(parts, seq![sep]), sep)
    &&& name == stem(base, sep) + tail(parts, sep)
}

/// A candidate is on the way, with the parts that are left.
proof fn lemma_candidate_is_on_name(
    fs: Fs,
    base: Seq<char>,
    parts: Seq<Seq<char>>,
    sep: char,
    name: Seq<char>,
    i: int,
)
    requires
        plain_lists(fs),
        sep != '/',
        (sep as u32) < 0x10000,
        on_name(base, parts, sep, name),
        parts.len() > 0,
        0 <= i < candidates(fs, base, parts, seq![sep], parts.len() as int).len(),
    ensures
        ({
            let c = candidates(fs, base, parts, seq![sep], parts.len() as int)[i];
            &&& 1 <= c.1 <= parts.len()
            &&& c.0.len() > 1
            &&& on_name(c.0, parts.skip(c.1), sep, name)
        }),
{
    let t = seq![sep];
    let c = candidates(fs, base, parts, t, parts.len() as int);
    let seg = lemma_candidate_name(fs, base, parts, sep, parts.len() as int, i);
    let k = c[i].1;
    let rest = parts.skip(k);
    lemma_stem(base, seg, sep);
    lemma_join_split(parts, sep, k);
    assert(stem(base, sep) + t + encoded(seg, t) + tail(rest, sep) =~= stem(base, sep) + (t + (
    encoded(seg, t) + tail(rest, sep))));
    let whole = join(parts, t);
    let left = join(rest, t);
    let offset = join(parts.take(k), t).len() + 1;
    assert forall|j: int| 0 <= j < left.len() implies ascii_alphanumeric(#[trigger] left[j])
        || left[j] == sep by {
        if rest.len() > 0 {
            assert(tail(rest, sep)[j + 1] == left[j]);
            assert(whole[offset + j] == left[j]);
        }
    }
}

proof fn lemma_deepest_sound(
    fs: Fs,
    base: Seq<char>,
    parts: Seq<Seq<char>>,
    sep: char,
    name: Seq<char>,
)
    requires
        plain_lists(fs),
        sep != '/',
        (sep as u32) < 0x10000,
        on_name(base, parts, sep, name),
    ensures
        ({
            let (path, n) = deepest(fs, base, parts, seq![sep]);
            &&& 0 <= n <= parts.len()
            &&& n == 0 ==> path == base
            &&& n > 0 ==> path.len() > 1
            &&& on_name(path, parts.skip(n), sep, name)
        }),
    decreases parts.len(), 1int, 0int,
{
    assert(parts.skip(0) =~= parts);
    if parts.len() == 0 {
        assert(candidates(fs, base, parts, seq![sep], 0) =~= Seq::empty());
    } else {
        lemma_deepest_from_sound(fs, base, parts, sep, (base, 0), 0, name);
    }
}

proof fn lemma_deepest_from_sound(
    fs: Fs,
    base: Seq<char>,
    parts: Seq<Seq<char>>,
    sep: char,
    best: (Seq<char>, int),
    i: int,
    name: Seq<char>,
)
    requires
        plain_lists(fs),
        sep != '/',
        (sep as u32) < 0x10000,
        on_name(base, parts, sep, name),
        parts.len() > 0,
        0 <= i,
        0 <= best.1 <= parts.len(),
        best.1 == 0 ==> best.0 == base,
        best.1 > 0 ==> best.0.len() > 1,
        on_name(best.0, parts.skip(best.1), sep, name),
    ensures
        ({
            let c = candidates(fs, base, parts, seq![sep], parts.len() as int);
            let (path, n) = deepest_from(fs, c, parts, seq![sep], best, i);
            &&& 0 <= n <= parts.len()
            &&& n == 0 ==> path == base
            &&& n > 0 ==> path.len() > 1
            &&& on_name(path, parts.skip(n), sep, name)
        }),
    decreases
            parts.len(),
            0int,
            candidates(fs, base, parts, seq![sep], parts.len() as int).len() - i,
{
    let t = seq![sep];
    let c = candidates(fs, base, parts, t, parts.len() as int);
    if i < c.len() {
        lemma_candidate_is_on_name(fs, base, parts, sep, name, i);
        let k = c[i].1;
        let rest = parts.skip(k);
        lemma_deepest_sound(fs, c[i].0, rest, sep, name);
        let (path, more) = deepest(fs, c[i].0, rest, t);
        assert(rest.skip(more) =~= parts.skip(k + more));
        let next = if k + more > best.1 {
            (path, k + more)
        } else {
            best
        };
        lemma_deepest_from_sound(fs, base, parts, sep, next, i + 1, name);
    }
}

/// Where all of the parts lead to a directory, one is found.
proof fn lemma_deepest_is_found(
    fs: Fs,
    base: Seq<char>,
    parts: Seq<Seq<char>>,
    sep: Seq<char>,
)
    requires
        deepest(fs, base, parts, sep).1 >= parts.len(),
    ensures
        walked(fs, base, parts, sep, Seq::empty()).len() > 0,
    decreases parts.len(), 1int, 0int,
{
    if parts.len() > 0 {
        let c = candidates(fs, base, parts, sep, parts.len() as int);
        lemma_deepest_from_is_found(fs, c, parts, sep, (base, 0), 0, Seq::empty());
    }
}

proof fn lemma_deepest_from_is_found(
    fs: Fs,
    c: Seq<(Seq<char>, int)>,
    parts: Seq<Seq<char>>,
    sep: Seq<char>,
    best: (Seq<char>, int),
    i: int,
    found: Seq<Seq<char>>,
)
    requires
        parts.len() > 0,
        best.1 < parts.len(),
        found.len() == 0,
        deepest_from(fs, c, parts, sep, best, i).1 >= parts.len(),
    ensures
        walked_from(fs, c, parts, sep, found, i).len() > 0,
    decreases parts.len(), 0int, c.len() - i,
{
    let (path, more) = deepest(fs, c[i].0, parts.skip(c[i].1), sep);
    let rest = parts.skip(c[i].1);
    let w = walked(fs, c[i].0, rest, sep, found);
    assert(found =~= Seq::<Seq<char>>::empty());
    if c[i].1 + more >= parts.len() {
        lemma_deepest_is_found(fs, c[i].0, rest, sep);
        lemma_walk_from_grows(fs, c, parts, sep, w, i + 1, Seq::empty());
    } else if w.len() > 0 {
        lemma_walk_from_grows(fs, c, parts, sep, w, i + 1, Seq::empty());
    } else {
        let next = if c[i].1 + more > best.1 {
            (path, c[i].1 + more)
        } else {
            best
        };
        lemma_deepest_from_is_found(fs, c, parts, sep, next, i + 1, w);
    }
}

/// What is listed as a directory is one.
pub open spec fn true_lists(fs: Fs) -> bool {
    forall|p: Seq<char>, i: int|
        0 <= i < (fs.list)(p).len() && (#[trigger] (fs.list)(p)[i]).1 ==> (fs.is_dir)(
            joined(p, (fs.list)(p)[i].0),
        )
}

proof fn lemma_candidate_is_there(
    fs: Fs,
    base: Seq<char>,
    parts: Seq<Seq<char>>,
    sep: Seq<char>,
    n: int,
    i: int,
)
    requires
        true_lists(fs),
        0 <= i < candidates(fs, base, parts, sep, n).len(),
    ensures
        (fs.is_dir)(candidates(fs, base, parts, sep, n)[i].0),
    decreases n,
{
    if n > 0 {
        let before = candidates(fs, base, parts, sep, n - 1);
        let lit = literal_child(fs, base, parts, sep, n);
        let list = (fs.list)(base);
        let enc = encoded_children(base, list, parts, sep, n);
        let all = candidates(fs, base, parts, sep, n);
        assert(all == before + (lit + enc));
        if i < before.len() {
            assert(all[i] == before[i]);
            lemma_candidate_is_there(fs, base, parts, sep, n - 1, i);
        } else if i < before.len() + lit.len() {
            assert(all[i] == lit[i - before.len()]);
        } else {
            let m = i - before.len() - lit.len();
            assert(all[i] == enc[m]);
            let at = lemma_encoded_child_name(base, list, parts, sep, n, m);
            assert((fs.list)(base)[at].1);
        }
    }
}

proof fn lemma_walk_is_there(
    fs: Fs,
    base: Seq<char>,
    parts: Seq<Seq<char>>,
    sep: Seq<char>,
    found: Seq<Seq<char>>,
    x: Seq<char>,
)
    requires
        true_lists(fs),
        parts.len() > 0 || (fs.is_dir)(base),
    ensures
        walked(fs, base, parts, sep, found).contains(x) ==> found.contains(x) || (fs.is_dir)(x),
    decreases parts.len(), 1int, 0int,
{
    if found.len() < 2 {
        if parts.len() == 0 {
            let w = found.push(base);
            if w.contains(x) {
                let i = choose|i: int| 0 <= i < w.len() && w[i] == x;
                if i < found.len() {
                    assert(found[i] == x);
                }
            }
        } else {
            lemma_walk_from_is_there(fs, base, parts, sep, found, 0, x);
        }
    }
}

proof fn lemma_walk_from_is_there(
    fs: Fs,
    base: Seq<char>,
    parts: Seq<Seq<char>>,
    sep: Seq<char>,
    found: Seq<Seq<char>>,
    i: int,
    x: Seq<char>,
)
    requires
        true_lists(fs),
        0 <= i,
    ensures
        ({
            let c = candidates(fs, base, parts, sep, parts.len() as int);
            walked_from(fs, c, parts, sep, found, i).contains(x) ==> found.contains(x)
                || (fs.is_dir)(x)
        }),
    decreases
            parts.len(),
            0int,
            candidates(fs, base, parts, sep, parts.len() as int).len() - i,
{
    let c = candidates(fs, base, parts, sep, parts.len() as int);
    if i < c.len() && found.len() < 2 && 1 <= c[i].1 <= parts.len() {
        lemma_candidate_is_there(fs, base, parts, sep, parts.len() as int, i);
        let more = walked(fs, c[i].0, parts.skip(c[i].1), sep, found);
        lemma_walk_is_there(fs, c[i].0, parts.skip(c[i].1), sep, found, x);
        lemma_walk_from_is_there(fs, base, parts, sep, more, i + 1, x);
    }
}

/// Whatever directories there are, the path that a name is decoded to has that
/// name: encoding it gives the name again. A path that is said to be known is
/// that of a directory of this machine; away from it, every separator is taken
/// for a slash.
pub proof fn lemma_decoded_path_has_the_name(fs: Fs, name: Seq<char>, sep: char, local: bool)
    requires
        plain_lists(fs),
        true_lists(fs),
        sep != '/',
        (sep as u32) < 0x10000,
        name_text(name, sep),
        begins(name, seq![sep]),
    ensures
        ({
            let (path, confidence) = decoded(fs, name, seq![sep], local);
            &&& encoded(path, seq![sep]) == name
            &&& confidence != DecodeConfidence::Unresolved
            &&& confidence == DecodeConfidence::Exact ==> local && (fs.is_dir)(path)
            &&& !local ==> path == slashed(name, sep)
        }),
{
    reveal_strlit("/");
    assert("/"@ =~= seq!['/']);
    let t = seq![sep];
    let rest = name.skip(1);
    let parts = parts_of(rest, t);
    lemma_join_parts(rest, t);
    assert(name.subrange(0, 1) =~= t);
    assert(name[0] == name.subrange(0, 1)[0]);
    assert(name =~= t + rest);
    assert(stem("/"@, sep) + tail(parts, sep) =~= name);
    assert forall|i: int| 0 <= i < rest.len() implies ascii_alphanumeric(#[trigger] rest[i])
        || rest[i] == sep by {
        assert(name[i + 1] == rest[i]);
    }
    lemma_slashed_parts(rest, sep);
    assert(naive_path(parts) =~= slashed(name, sep));
    lemma_slashed_encodes(name, sep);
    if local {
        let full = walked(fs, "/"@, parts, t, Seq::empty());
        if full.len() > 0 {
            assert(full.contains(full[0]));
            lemma_walk_sound(fs, "/"@, parts, sep, Seq::empty(), name, full[0]);
            lemma_walk_is_there(fs, "/"@, parts, t, Seq::empty(), full[0]);
        } else {
            let (ancestor, consumed) = deepest(fs, "/"@, parts, t);
            lemma_deepest_sound(fs, "/"@, parts, sep, name);
            if consumed >= parts.len() {
                lemma_deepest_is_found(fs, "/"@, parts, t);
            }
            if consumed > 0 {
                let left = parts.skip(consumed);
                let leaf = join(left, t);
                if leaf.len() > 0 {
                    assert(ascii_alphanumeric(leaf[0]) || leaf[0] == sep);
                }
                let slash = seq!['/'];
                let path = joined(ancestor, leaf);
                assert(path =~= ancestor + (slash + leaf));
                lemma_encoded_concat(ancestor, slash + leaf, t);
                lemma_encoded_concat(slash, leaf, t);
                assert(encoded(slash, t) =~= t) by {
                    assert(slash.drop_last() =~= Seq::<char>::empty());
                    assert(encoded(Seq::<char>::empty(), t) =~= Seq::<char>::empty());
                    assert(!ascii_alphanumeric('/'));
                }
                lemma_short_encoding(leaf, sep);
                assert(encoded(path, t) =~= stem(ancestor, sep) + (t + leaf));
            }
        }
    }
}

} // verus!
