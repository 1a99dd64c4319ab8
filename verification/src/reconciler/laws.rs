//! What is rewritten in an artifact, and what is left alone.
use vstd::prelude::*;

use crate::chars::alphanumeric;
use crate::documents::{
    json_read, place, rounded, shallow, text_at, toml_read, undated, with_text, Leaf, Step,
};
use crate::error::Error;
use crate::reconciler::{
    candidates, field_rewrite, first_mentioned, guarded, json_rewrite, mentions, moved,
    prefix_moved, stands_at, toml_rewrite, ArtifactRead, Rewritten,
};
use crate::text::{begins, split};

verus! {

/// A path at the old root is at the new one, and a path below it is at the same
/// place below the new one, whichever separator follows; every other path is
/// left alone.
pub proof fn lemma_paths_move_with_their_root(
    value: Seq<char>,
    old: Seq<char>,
    new: Seq<char>,
    rest: Seq<char>,
)
    ensures
        moved(old, old, new) == Some(new),
        moved(old.push('/') + rest, old, new) == Some(new.push('/') + rest),
        moved(old.push('\\') + rest, old, new) == Some(new.push('\\') + rest),
        moved(value, old, new) is Some ==> value == old || (value.len() > old.len()
            && value.take(old.len() as int) == old && (value[old.len() as int] == '/'
            || value[old.len() as int] == '\\')),
{
    let n = old.len() as int;
    let a = old.push('/') + rest;
    let b = old.push('\\') + rest;
    assert(a.subrange(0, n + 1) =~= old.push('/'));
    assert(b.subrange(0, n + 1) =~= old.push('\\'));
    assert(a.skip(n + 1) =~= rest);
    assert(b.skip(n + 1) =~= rest);
    assert(a.len() != old.len() && b.len() != old.len());
    if begins(b, old.push('/')) {
        assert(b.subrange(0, n + 1)[n] == '/');
        assert(b.subrange(0, n + 1)[n] == '\\');
    }
    if begins(value, old.push('/')) {
        assert(value.subrange(0, n + 1)[n] == '/');
        assert(value.take(n) =~= value.subrange(0, n + 1).take(n));
        assert(old.push('/').take(n) =~= old);
    } else if begins(value, old.push('\\')) {
        assert(value.subrange(0, n + 1)[n] == '\\');
        assert(value.take(n) =~= value.subrange(0, n + 1).take(n));
        assert(old.push('\\').take(n) =~= old);
    }
}

/// A value is rewritten if any of the pairs applies to it.
pub proof fn lemma_any_pair_may_apply(value: Seq<char>, pairs: Seq<(Seq<char>, Seq<char>)>)
    ensures
        prefix_moved(value, pairs) is Some <==> exists|i: int|
            0 <= i < pairs.len() && moved(value, (#[trigger] pairs[i]).0, pairs[i].1) is Some,
    decreases pairs.len(),
{
    if pairs.len() > 0 {
        if moved(value, pairs[0].0, pairs[0].1) is None {
            let rest = pairs.skip(1);
            lemma_any_pair_may_apply(value, rest);
            assert(forall|i: int| 0 <= i < rest.len() ==> #[trigger] rest[i] == pairs[i + 1]);
            if prefix_moved(value, pairs) is Some {
                let i = choose|i: int|
                    0 <= i < rest.len() && moved(value, (#[trigger] rest[i]).0, rest[i].1) is Some;
                assert(moved(value, pairs[i + 1].0, pairs[i + 1].1) is Some);
            }
            if exists|i: int|
                0 <= i < pairs.len() && moved(value, (#[trigger] pairs[i]).0, pairs[i].1) is Some {
                let i = choose|i: int|
                    0 <= i < pairs.len() && moved(
                        value,
                        (#[trigger] pairs[i]).0,
                        pairs[i].1,
                    ) is Some;
                assert(rest[i - 1] == pairs[i]);
            }
        } else {
            assert(moved(value, pairs[0].0, pairs[0].1) is Some);
        }
    }
}

/// At this place of the text stands the path, and what follows it does not go
/// on its last name: no letter or digit, and none of `-`, `_` and `.`.
pub open spec fn whole_at(s: Seq<char>, old: Seq<char>, i: int) -> bool {
    let end = i + old.len();
    &&& 0 <= i
    &&& end <= s.len()
    &&& s.subrange(i, end) == old
    &&& end < s.len() ==> !alphanumeric(s[end]) && s[end] != '-' && s[end] != '_' && s[end] != '.'
}

proof fn lemma_whole_at_start(s: Seq<char>, old: Seq<char>)
    ensures
        stands_at(s, old) == whole_at(s, old, 0),
{
    let n = old.len() as int;
    if n <= s.len() && n < s.len() {
        assert(s.skip(n)[0] == s[n]);
    }
}

proof fn lemma_whole_later(s: Seq<char>, old: Seq<char>, i: int)
    requires
        s.len() > 0,
        0 <= i,
    ensures
        whole_at(s.skip(1), old, i) == whole_at(s, old, i + 1),
{
    if i + old.len() <= s.len() - 1 {
        assert(s.skip(1).subrange(i, i + old.len()) =~= s.subrange(i + 1, i + 1 + old.len()));
    }
}

/// A text mentions a path exactly if the path stands somewhere in it as a whole.
pub proof fn lemma_mentions_are_whole_paths(s: Seq<char>, old: Seq<char>)
    requires
        old.len() > 0,
    ensures
        mentions(s, old) <==> exists|i: int| #[trigger] whole_at(s, old, i),
    decreases s.len(),
{
    if s.len() >= old.len() {
        let t = s.skip(1);
        lemma_mentions_are_whole_paths(t, old);
        lemma_whole_at_start(s, old);
        if exists|i: int| #[trigger] whole_at(s, old, i) {
            let i = choose|i: int| #[trigger] whole_at(s, old, i);
            if i > 0 {
                lemma_whole_later(s, old, i - 1);
                assert(whole_at(t, old, i - 1));
            }
        }
        if exists|i: int| #[trigger] whole_at(t, old, i) {
            let i = choose|i: int| #[trigger] whole_at(t, old, i);
            lemma_whole_later(s, old, i);
            assert(whole_at(s, old, i + 1));
        }
        if stands_at(s, old) {
            assert(whole_at(s, old, 0));
        }
    }
}

/// A plain text is rewritten from its start: up to the first place where the
/// path stands as a whole nothing changes, there the new path takes its place,
/// and so on behind it.
pub proof fn lemma_first_mention_is_replaced(
    s: Seq<char>,
    old: Seq<char>,
    new: Seq<char>,
    i: int,
)
    requires
        old.len() > 0,
        whole_at(s, old, i),
        forall|j: int| 0 <= j < i ==> !#[trigger] whole_at(s, old, j),
    ensures
        guarded(s, old, new) == s.take(i) + new + guarded(
            s.skip(i + old.len()),
            old,
            new,
        ),
    decreases i,
{
    lemma_whole_at_start(s, old);
    if i == 0 {
        assert(s.take(0) + new =~= new);
    } else {
        assert(!whole_at(s, old, 0));
        let t = s.skip(1);
        assert forall|j: int| 0 <= j < i - 1 implies !#[trigger] whole_at(t, old, j) by {
            lemma_whole_later(s, old, j);
        }
        lemma_whole_later(s, old, i - 1);
        lemma_first_mention_is_replaced(t, old, new, i - 1);
        assert(t.skip(i - 1 + old.len()) =~= s.skip(i + old.len()));
        let tail = guarded(s.skip(i + old.len()), old, new);
        assert(seq![s[0]] + (t.take(i - 1) + new + tail) =~= s.take(i) + new + tail);
    }
}

/// The pair of the roots themselves is always tried. Others are tried only
/// where `/tmp` and `/var` are links into `/private`: both roots without that
/// directory, before it, and both below it, after it.
pub proof fn lemma_roots_are_tried_in_both_forms(
    old: Seq<char>,
    new: Seq<char>,
    a: Seq<char>,
    b: Seq<char>,
)
    requires
        a.len() > 0,
        b.len() > 0,
    ensures
        candidates(old, new, false) == seq![(old, new)],
        candidates("/private"@ + a, "/private"@ + b, true) == seq![
            (a, b),
            ("/private"@ + a, "/private"@ + b),
        ],
        candidates("/tmp/"@ + a, new, true) == seq![
            ("/tmp/"@ + a, new),
            ("/private"@ + ("/tmp/"@ + a), "/private"@ + new),
        ],
        candidates("/var/"@ + a, new, true) == seq![
            ("/var/"@ + a, new),
            ("/private"@ + ("/var/"@ + a), "/private"@ + new),
        ],
        forall|private: bool| (#[trigger] candidates(old, new, private)).contains((old, new)),
{
    let p = "/private"@;
    let v = "/var/"@;
    let t = "/tmp/"@;
    reveal_strlit("/private");
    reveal_strlit("/var/");
    reveal_strlit("/tmp/");
    assert(candidates(old, new, false) =~= seq![(old, new)]);
    let pa = p + a;
    let pb = p + b;
    assert(pa.subrange(0, p.len() as int) =~= p);
    assert(pb.subrange(0, p.len() as int) =~= p);
    assert(pa.skip(p.len() as int) =~= a);
    assert(pb.skip(p.len() as int) =~= b);
    assert(pa[1] == 'p');
    if begins(pa, v) {
        assert(pa.subrange(0, 5)[1] == v[1]);
    }
    if begins(pa, t) {
        assert(pa.subrange(0, 5)[1] == t[1]);
    }
    assert(candidates(pa, pb, true) =~= seq![(a, b), (pa, pb)]);
    let ta = t + a;
    let va = v + a;
    assert(ta.subrange(0, 5) =~= t);
    assert(va.subrange(0, 5) =~= v);
    if begins(ta, p) {
        assert(ta.subrange(0, 8)[1] == p[1]);
    }
    if begins(va, p) {
        assert(va.subrange(0, 8)[1] == p[1]);
    }
    assert(candidates(ta, new, true) =~= seq![(ta, new), (p + ta, p + new)]);
    assert(candidates(va, new, true) =~= seq![(va, new), (p + va, p + new)]);
    assert forall|private: bool| (#[trigger] candidates(old, new, private)).contains((old, new)) by {
        let c = candidates(old, new, private);
        if c[0] == (old, new) {
        } else {
            assert(c[1] == (old, new));
        }
    }
}

/// An artifact of more than thirty-two mebibytes is left alone, and so is one
/// that is no text; one that could not be read is an error.
pub proof fn lemma_only_texts_of_some_size_are_rewritten(read: ArtifactRead)
    ensures
        read matches ArtifactRead::Text { size, text } ==> read.failure() is None && ((
        size matches Some(n) && n > 32 * 1024 * 1024) ==> read.usable() is None) && (!(
        size matches Some(n) && n > 32 * 1024 * 1024) ==> read.usable() == Some(text@)),
        read is NotText ==> read.failure() is None && read.usable() is None,
        read matches ArtifactRead::Failed { size: None, message } ==> read.failure() == Some(
            message@,
        ),
{
}

/// A field of a JSON document is rewritten and nothing else: the text under the
/// field is the value at its new root, and every other leaf is as it was, but
/// for the last digits of floating numbers.
pub proof fn lemma_only_the_field_changes(
    path: Seq<char>,
    text: Seq<char>,
    field: Seq<char>,
    pairs: Seq<(Seq<char>, Seq<char>)>,
    w: Rewritten,
)
    requires
        json_rewrite(path, text, field, pairs, Ok(Some(w))),
    ensures
        json_read(text) is Ok,
        json_read(w.text@) is Ok,
        ({
            let before = json_read(text)->Ok_0;
            let now = rounded(json_read(w.text@)->Ok_0);
            let at = place(split(field, '.'));
            &&& 0 <= w.pair < pairs.len()
            &&& before.contains_key(at)
            &&& before[at] matches Leaf::Text(value) && now.contains_key(at) && (
            now[at] matches Leaf::Text(new) && moved(
                value,
                pairs[w.pair as int].0,
                pairs[w.pair as int].1,
            ) == Some(new))
            &&& forall|p: Seq<Step>|
                #![trigger now.contains_key(p)]
                p != at ==> now.contains_key(p) == rounded(before).contains_key(p) && (
                now.contains_key(p) ==> now[p] == rounded(before)[p])
        }),
{
    let before = json_read(text)->Ok_0;
    let keys = split(field, '.');
    let value = text_at(before, keys)->0;
    crate::reconciler::lemma_reported_pair_applies(value, pairs);
    let (new, i) = prefix_moved(value, pairs)->0;
    crate::documents::lemma_rounded(before, keys, new);
}

/// A document is rewritten by its format: a JSON or TOML document in the field
/// that is named, and anything else as a plain text, wherever the path stands.
pub proof fn lemma_format_decides(
    path: Seq<char>,
    text: String,
    field: Seq<char>,
    format: Seq<char>,
    pairs: Seq<(Seq<char>, Seq<char>)>,
    r: Result<Option<Rewritten>, Error>,
)
    requires
        field_rewrite(path, ArtifactRead::Text { size: None, text }, field, format, pairs, r),
    ensures
        format != "json"@ && format != "toml"@ ==> (r matches Ok(w) && match w {
            Some(x) => first_mentioned(text@, pairs, x.pair as int) && x.text@ == guarded(
                text@,
                pairs[x.pair as int].0,
                pairs[x.pair as int].1,
            ),
            None => forall|j: int| 0 <= j < pairs.len() ==> !mentions(text@, (#[trigger] pairs[j]).0),
        }),
        format == "json"@ && json_read(text@) is Err ==> r is Err,
        format == "toml"@ && toml_read(text@) is Err ==> r is Err,
        format == "json"@ && (json_read(text@) matches Ok(m) && text_at(m, split(field, '.')) is None)
            ==> r matches Ok(None),
        format == "toml"@ && (toml_read(text@) matches Ok(m) && text_at(m, split(field, '.')) is None)
            ==> r matches Ok(None),
{
    reveal_strlit("json");
    reveal_strlit("toml");
    assert("json"@[0] != "toml"@[0]);
}

/// A field of a TOML document is rewritten and nothing else, as far as the
/// document that was written can be read again.
pub proof fn lemma_only_the_toml_field_changes(
    path: Seq<char>,
    text: Seq<char>,
    field: Seq<char>,
    pairs: Seq<(Seq<char>, Seq<char>)>,
    w: Rewritten,
)
    requires
        toml_rewrite(path, text, field, pairs, Ok(Some(w))),
        toml_read(text) matches Ok(m) ==> undated(m) && shallow(m),
    ensures
        toml_read(text) is Ok,
        toml_read(w.text@) is Ok,
        ({
            let before = toml_read(text)->Ok_0;
            let now = toml_read(w.text@)->Ok_0;
            let at = place(split(field, '.'));
            &&& 0 <= w.pair < pairs.len()
            &&& before.contains_key(at)
            &&& before[at] matches Leaf::Text(value) && now.contains_key(at) && (
            now[at] matches Leaf::Text(new) && moved(
                value,
                pairs[w.pair as int].0,
                pairs[w.pair as int].1,
            ) == Some(new))
            &&& forall|p: Seq<Step>|
                #![trigger now.contains_key(p)]
                p != at ==> now.contains_key(p) == before.contains_key(p) && (now.contains_key(p)
                    ==> now[p] == before[p])
        }),
{
    let before = toml_read(text)->Ok_0;
    let keys = split(field, '.');
    let value = text_at(before, keys)->0;
    crate::reconciler::lemma_reported_pair_applies(value, pairs);
    let (new, i) = prefix_moved(value, pairs)->0;
    let rewritten = with_text(before, keys, new);
    assert(before.contains_key(place(keys)));
    assert(rewritten.dom() =~= before.dom());
    assert(undated(rewritten) && shallow(rewritten)) by {
        assert forall|p: Seq<Step>| #[trigger] rewritten.contains_key(p) implies before.contains_key(
            p,
        ) by {}
    }
}

} // verus!
