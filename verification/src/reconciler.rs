//! Rewriting the paths inside session artifacts after a project has moved.
pub mod laws;

use vstd::prelude::*;

use crate::chars::{alphanumeric, is_alphanumeric};
use crate::documents::{
    calm, json_field, json_leaves, json_nested, json_parse, json_pretty, json_print, json_read,
    json_set, lemma_rounded, place, rounded, shallow, text_at, toml_calm, toml_field, toml_leaves,
    toml_parse, toml_pretty, toml_print, toml_read, toml_set, undated, with_text, Leaves, Step,
};
use crate::error::Error;
use crate::event_log::LogEntry;
use crate::text::{
    begins, chars_of, found_at, occurs_at, opt_view, owned, same, split, starts_with,
    strip_prefix, views,
};
use crate::tools::PathFieldSpec;

verus! {

/// A root and the root that takes its place.
pub struct PathPair {
    pub old: String,
    pub new: String,
}

impl View for PathPair {
    type V = (Seq<char>, Seq<char>);

    open spec fn view(&self) -> (Seq<char>, Seq<char>) {
        (self.old@, self.new@)
    }
}

impl PathPair {
    /// A pair of roots.
    pub fn new(old: &str, new: &str) -> (r: PathPair)
        ensures
            r@ == (old@, new@),
    {
        PathPair { old: owned(old), new: owned(new) }
    }
}

/// The value under the new root, when it lies at or below the old one.
pub open spec fn moved(value: Seq<char>, old: Seq<char>, new: Seq<char>) -> Option<Seq<char>> {
    if value == old {
        Some(new)
    } else if begins(value, old.push('/')) {
        Some(new.push('/') + value.skip(old.len() as int + 1))
    } else if begins(value, old.push('\\')) {
        Some(new.push('\\') + value.skip(old.len() as int + 1))
    } else {
        None
    }
}

/// The value after the first pair that applies, with the position of that pair.
pub open spec fn prefix_moved(value: Seq<char>, pairs: Seq<(Seq<char>, Seq<char>)>) -> Option<
    (Seq<char>, int),
>
    decreases pairs.len(),
{
    if pairs.len() == 0 {
        None
    } else {
        match moved(value, pairs[0].0, pairs[0].1) {
            Some(v) => Some((v, 0)),
            None => match prefix_moved(value, pairs.skip(1)) {
                Some((v, i)) => Some((v, i + 1)),
                None => None,
            },
        }
    }
}

fn move_value(value: &str, old: &str, new: &str) -> (r: Option<String>)
    ensures
        opt_view(r) == moved(value@, old@, new@),
{
    if same(value, old) {
        return Some(owned(new));
    }
    let mut slash = owned(old);
    slash.push('/');
    match strip_prefix(value, &slash) {
        Some(rest) => {
            let mut out = owned(new);
            out.push('/');
            return Some(out.concat(&rest));
        },
        None => {},
    }
    let mut back = owned(old);
    back.push('\\');
    match strip_prefix(value, &back) {
        Some(rest) => {
            let mut out = owned(new);
            out.push('\\');
            Some(out.concat(&rest))
        },
        None => None,
    }
}

/// Rewrite the root of `value` by the first pair that applies. A path that
/// only begins with the same characters, such as `code-backup` beside `code`,
/// is left alone.
pub fn replace_path_prefix(value: &str, pairs: &Vec<PathPair>) -> (r: Option<(String, usize)>)
    ensures
        match r {
            Some((v, i)) => prefix_moved(value@, views(pairs@)) == Some((v@, i as int)) && i
                < pairs@.len(),
            None => prefix_moved(value@, views(pairs@)) is None,
        },
{
    let ghost all = views(pairs@);
    let mut i: usize = 0;
    assert(all.skip(0) =~= all);
    while i < pairs.len()
        invariant
            all == views(pairs@),
            i <= pairs@.len(),
            prefix_moved(value@, all) == match prefix_moved(value@, all.skip(i as int)) {
                Some((v, k)) => Some((v, k + i)),
                None => None,
            },
        decreases pairs@.len() - i,
    {
        proof {
            assert(all.skip(i as int)[0] == pairs@[i as int]@);
            assert(all.skip(i as int).skip(1) =~= all.skip(i + 1));
        }
        match move_value(value, &pairs[i].old, &pairs[i].new) {
            Some(v) => {
                return Some((v, i));
            },
            None => {},
        }
        i = i + 1;
    }
    None
}

/// A path that shares only characters with the old root is left alone: what
/// follows the root must be a separator.
pub proof fn lemma_siblings_are_left_alone(value: Seq<char>, old: Seq<char>, new: Seq<char>)
    requires
        begins(value, old),
        value.len() > old.len(),
        value[old.len() as int] != '/',
        value[old.len() as int] != '\\',
    ensures
        moved(value, old, new) is None,
{
    if begins(value, old.push('/')) {
        assert(value.subrange(0, old.len() as int + 1)[old.len() as int] == '/');
    }
    if begins(value, old.push('\\')) {
        assert(value.subrange(0, old.len() as int + 1)[old.len() as int] == '\\');
    }
}

/// Undoing a rewrite with its pair swapped gives back the value.
pub proof fn lemma_move_is_undone(value: Seq<char>, old: Seq<char>, new: Seq<char>)
    requires
        moved(value, old, new) is Some,
    ensures
        moved(moved(value, old, new)->0, new, old) == Some(value),
{
    let w = moved(value, old, new)->0;
    if value != old {
        let sep = if begins(value, old.push('/')) {
            '/'
        } else {
            '\\'
        };
        let rest = value.skip(old.len() as int + 1);
        assert(begins(value, old.push(sep)));
        assert(w == new.push(sep) + rest);
        assert(value =~= old.push(sep) + rest) by {
            assert(value.subrange(0, old.len() as int + 1) =~= old.push(sep));
            assert(value =~= value.subrange(0, old.len() as int + 1) + rest);
        }
        assert(w.subrange(0, new.len() as int + 1) =~= new.push(sep));
        assert(begins(w, new.push(sep)));
        assert(w.skip(new.len() as int + 1) =~= rest);
        if sep == '\\' && begins(w, new.push('/')) {
            assert(w.subrange(0, new.len() as int + 1)[new.len() as int] == '/');
        }
        assert(w != new);
    }
}

/// The pair at the position that a rewrite reports is the one that was applied.
pub proof fn lemma_reported_pair_applies(value: Seq<char>, pairs: Seq<(Seq<char>, Seq<char>)>)
    requires
        prefix_moved(value, pairs) is Some,
    ensures
        ({
            let (v, i) = prefix_moved(value, pairs)->0;
            &&& 0 <= i < pairs.len()
            &&& moved(value, pairs[i].0, pairs[i].1) == Some(v)
            &&& forall|j: int|
                0 <= j < i ==> moved(value, (#[trigger] pairs[j]).0, pairs[j].1) is None
        }),
    decreases pairs.len(),
{
    if moved(value, pairs[0].0, pairs[0].1) is None {
        let rest = pairs.skip(1);
        lemma_reported_pair_applies(value, rest);
        let (v, i) = prefix_moved(value, pairs)->0;
        assert(rest[i - 1] == pairs[i]);
        assert forall|j: int| 0 <= j < i implies moved(
            value,
            (#[trigger] pairs[j]).0,
            pairs[j].1,
        ) is None by {
            if j > 0 {
                assert(rest[j - 1] == pairs[j]);
            }
        }
    }
}

/// `c` can go on a name in a path.
pub open spec fn continues_segment(c: char) -> bool {
    alphanumeric(c) || c == '-' || c == '_' || c == '.'
}

/// A path that ends here is not the beginning of a longer name.
pub open spec fn boundary(rest: Seq<char>) -> bool {
    rest.len() == 0 || !continues_segment(rest[0])
}

/// The text begins with `old`, and `old` ends there at a boundary.
pub open spec fn stands_at(s: Seq<char>, old: Seq<char>) -> bool {
    occurs_at(s, old, 0) && boundary(s.skip(old.len() as int))
}

/// Every occurrence of `old` that ends at a boundary, taken from the left,
/// replaced by `new`. An occurrence that does not end at one is passed over by
/// a single character, as another may overlap it.
pub open spec fn guarded(s: Seq<char>, old: Seq<char>, new: Seq<char>) -> Seq<char>
    decreases s.len(),
{
    if old.len() == 0 || s.len() < old.len() {
        s
    } else if stands_at(s, old) {
        new + guarded(s.skip(old.len() as int), old, new)
    } else {
        seq![s[0]] + guarded(s.skip(1), old, new)
    }
}

/// Some occurrence of `old` ends at a boundary.
pub open spec fn mentions(s: Seq<char>, old: Seq<char>) -> bool
    decreases s.len(),
{
    if old.len() == 0 || s.len() < old.len() {
        false
    } else {
        stands_at(s, old) || mentions(s.skip(1), old)
    }
}

/// Replace every occurrence of the path `old` that is not the beginning of a
/// longer name; nothing when there is none.
pub fn replace_all_with_boundary(content: &str, old: &str, new: &str) -> (r: Option<String>)
    requires
        old@.len() > 0,
    ensures
        match r {
            Some(t) => mentions(content@, old@) && t@ == guarded(content@, old@, new@),
            None => !mentions(content@, old@),
        },
{
    let v = chars_of(content);
    let w = chars_of(old);
    let mut out = String::new();
    let mut replaced = false;
    let mut i: usize = 0;
    let ghost all = content@;
    assert(all.skip(0) =~= all);
    assert(out@ + guarded(all, old@, new@) =~= guarded(all, old@, new@));
    while i < v.len()
        invariant
            old@.len() > 0,
            v@ == all,
            w@ == old@,
            content@ == all,
            i <= v@.len(),
            out@ + guarded(all.skip(i as int), old@, new@) == guarded(all, old@, new@),
            replaced ==> mentions(all, old@),
            !replaced ==> mentions(all.skip(i as int), old@) == mentions(all, old@),
        decreases v@.len() - i,
    {
        let ghost rest = all.skip(i as int);
        let ghost before = out@;
        let here = found_at(&v, &w, i);
        assert(here == occurs_at(rest, old@, 0)) by {
            if i + old@.len() <= all.len() {
                assert(rest.subrange(0, old@.len() as int) =~= all.subrange(
                    i as int,
                    i + old@.len(),
                ));
            }
        }
        let mut stands = false;
        if here {
            let k: usize = i + w.len();
            stands = k == v.len() || !(is_alphanumeric(v[k]) || v[k] == '-' || v[k] == '_' || v[k]
                == '.');
            assert(rest.skip(old@.len() as int) =~= all.skip(k as int));
            assert(stands == boundary(all.skip(k as int)));
        }
        assert(stands == stands_at(rest, old@));
        if stands {
            let k: usize = i + w.len();
            assert(rest.skip(old@.len() as int) =~= all.skip(k as int));
            out.append(new);
            replaced = true;
            let ghost tail = guarded(all.skip(k as int), old@, new@);
            assert(before + (new@ + tail) =~= out@ + tail);
            i = k;
        } else {
            assert(rest.skip(1) =~= all.skip(i + 1));
            out.push(v[i]);
            proof {
                let tail = guarded(all.skip(i + 1), old@, new@);
                if rest.len() < old@.len() {
                    assert(tail =~= all.skip(i + 1));
                    assert(guarded(rest, old@, new@) =~= rest);
                    assert(before + rest =~= out@ + tail);
                } else {
                    assert(before + (seq![rest[0]] + tail) =~= out@ + tail);
                }
            }
            i = i + 1;
        }
    }
    assert(guarded(all.skip(i as int), old@, new@) =~= Seq::<char>::empty());
    assert(out@ =~= guarded(all, old@, new@));
    if replaced {
        Some(out)
    } else {
        None
    }
}

/// A text that mentions the path only as the beginning of longer names is not
/// changed.
pub proof fn lemma_unmentioned_is_unchanged(s: Seq<char>, old: Seq<char>, new: Seq<char>)
    requires
        !mentions(s, old),
    ensures
        guarded(s, old, new) == s,
    decreases s.len(),
{
    if old.len() > 0 && s.len() >= old.len() {
        lemma_unmentioned_is_unchanged(s.skip(1), old, new);
        assert(seq![s[0]] + s.skip(1) =~= s);
    }
}

/// The pairs of roots to try, in order. Where `/tmp` and `/var` are symlinks
/// into `/private`, both forms of a path are tried.
pub open spec fn candidates(
    old: Seq<char>,
    new: Seq<char>,
    private_root: bool,
) -> Seq<(Seq<char>, Seq<char>)> {
    let p = "/private"@;
    let short = if private_root && begins(old, p) && begins(new, p) && old.len() > p.len()
        && new.len() > p.len() {
        seq![(old.skip(p.len() as int), new.skip(p.len() as int))]
    } else {
        Seq::empty()
    };
    let long = if private_root && (begins(old, "/var/"@) || begins(old, "/tmp/"@)) {
        seq![(p + old, p + new)]
    } else {
        Seq::empty()
    };
    short.push((old, new)) + long
}

/// The pairs of roots to try, in order; `private_root` says whether `/tmp` and
/// `/var` are symlinks into `/private` on this platform.
pub fn path_pair_candidates(old: &str, new: &str, private_root: bool) -> (r: Vec<PathPair>)
    ensures
        views(r@) == candidates(old@, new@, private_root),
{
    let mut out: Vec<PathPair> = Vec::new();
    assert(views(out@) =~= Seq::<(Seq<char>, Seq<char>)>::empty());
    if private_root {
        match (strip_prefix(old, "/private"), strip_prefix(new, "/private")) {
            (Some(o), Some(n)) => {
                if !o.as_str().is_empty() && !n.as_str().is_empty() {
                    out.push(PathPair { old: o, new: n });
                    assert(views(out@) =~= seq![(o@, n@)]);
                }
            },
            _ => {},
        }
    }
    let ghost short = views(out@);
    out.push(PathPair { old: owned(old), new: owned(new) });
    assert(views(out@) =~= short.push((old@, new@)));
    if private_root && (starts_with(old, "/var/") || starts_with(old, "/tmp/")) {
        let o = owned("/private").concat(old);
        let n = owned("/private").concat(new);
        let ghost before = views(out@);
        out.push(PathPair { old: o, new: n });
        assert(views(out@) =~= before + seq![("/private"@ + old@, "/private"@ + new@)]);
    } else {
        assert(views(out@) =~= short.push((old@, new@)) + Seq::<(Seq<char>, Seq<char>)>::empty());
    }
    assert(views(out@) =~= candidates(old@, new@, private_root));
    out
}

/// The largest artifact that is loaded to be rewritten.
pub const MAX_ARTIFACT_BYTES: u64 = 33554432;

/// What came of reading an artifact.
#[derive(Debug)]
pub enum ArtifactRead {
    /// Its text.
    Text { size: Option<u64>, text: String },
    /// It is no text.
    NotText { size: Option<u64> },
    /// It could not be read.
    Failed { size: Option<u64>, message: String },
}

impl ArtifactRead {
    /// The size of the artifact, when it is known.
    pub open spec fn size(self) -> Option<u64> {
        match self {
            ArtifactRead::Text { size, .. } => size,
            ArtifactRead::NotText { size } => size,
            ArtifactRead::Failed { size, .. } => size,
        }
    }

    /// The artifact is too large to be loaded.
    pub open spec fn too_large(self) -> bool {
        self.size() matches Some(n) && n > MAX_ARTIFACT_BYTES
    }

    /// The text that is rewritten, if there is one.
    pub open spec fn usable(self) -> Option<Seq<char>> {
        match self {
            ArtifactRead::Text { text, .. } => if self.too_large() {
                None
            } else {
                Some(text@)
            },
            _ => None,
        }
    }

    /// Why the artifact could not be read.
    pub open spec fn failure(self) -> Option<Seq<char>> {
        match self {
            ArtifactRead::Failed { message, .. } => if self.too_large() {
                None
            } else {
                Some(message@)
            },
            _ => None,
        }
    }
}

/// The text of an artifact. One that is too large or no text is skipped, so
/// that it does not stand in the way of the others.
pub fn read_artifact(read: &ArtifactRead) -> (r: Result<Option<String>, Error>)
    ensures
        match r {
            Ok(t) => read.failure() is None && opt_view(t) == read.usable(),
            Err(e) => read.failure() matches Some(m) && (e matches Error::Io(s) && s@ == m),
        },
{
    let size: Option<u64> = match read {
        ArtifactRead::Text { size, .. } => *size,
        ArtifactRead::NotText { size } => *size,
        ArtifactRead::Failed { size, .. } => *size,
    };
    match size {
        Some(n) => {
            if n > MAX_ARTIFACT_BYTES {
                return Ok(None);
            }
        },
        None => {},
    }
    match read {
        ArtifactRead::Text { text, .. } => Ok(Some(text.clone())),
        ArtifactRead::NotText { .. } => Ok(None),
        ArtifactRead::Failed { message, .. } => Err(Error::Io(message.clone())),
    }
}

/// A rewritten artifact.
#[derive(Debug)]
pub struct Rewritten {
    /// The new text.
    pub text: String,
    /// The position of the pair that was applied.
    pub pair: usize,
}

fn reconcile_error(path: &str, detail: String) -> (e: Error)
    ensures
        e matches Error::Reconcile { path: p, detail: d } && p@ == path@ && d == detail,
{
    Error::Reconcile { path: owned(path), detail }
}

/// The error of a document that cannot be read.
pub open spec fn is_reconcile_error(e: Error, path: Seq<char>, detail: Seq<char>) -> bool {
    e matches Error::Reconcile { path: p, detail: d } && p@ == path && d@ == detail
}

/// The rewrite of one text of a JSON document.
pub open spec fn json_rewrite(
    path: Seq<char>,
    text: Seq<char>,
    field: Seq<char>,
    pairs: Seq<(Seq<char>, Seq<char>)>,
    r: Result<Option<Rewritten>, Error>,
) -> bool {
    match json_read(text) {
        Err(m) => r matches Err(e) && is_reconcile_error(e, path, "invalid JSON: "@ + m),
        Ok(leaves) => match text_at(leaves, split(field, '.')) {
            None => r matches Ok(None),
            Some(value) => match prefix_moved(value, pairs) {
                None => r matches Ok(None),
                Some((new, i)) => r matches Ok(Some(w)) && w.pair == i && i < pairs.len()
                    && json_holds(w.text@, with_text(leaves, split(field, '.'), new)),
            },
        },
    }
}

/// The text is that of the JSON document, and is read as it, but for the last
/// digits of floating numbers.
pub open spec fn json_holds(text: Seq<char>, leaves: Leaves) -> bool {
    text == json_print(leaves) && (json_read(text) matches Ok(m) && rounded(m) == rounded(leaves))
}

/// Rewrite one field of a JSON document; everything else stays as it is.
pub fn rewrite_json_field(path: &str, text: &str, field: &str, pairs: &Vec<PathPair>) -> (r: Result<
    Option<Rewritten>,
    Error,
>)
    ensures
        json_rewrite(path@, text@, field@, views(pairs@), r),
{
    match json_parse(text) {
        Err(e) => Err(reconcile_error(path, owned("invalid JSON: ").concat(&e))),
        Ok(mut value) => {
            match json_set_field(&mut value, field, pairs) {
                None => Ok(None),
                Some(i) => match json_pretty(&value) {
                    Ok(t) => Ok(Some(Rewritten { text: t, pair: i })),
                    Err(e) => Err(
                        reconcile_error(path, owned("failed to serialize JSON: ").concat(&e)),
                    ),
                },
            }
        },
    }
}

/// Rewrite the text under a field by the first pair that applies.
pub fn json_set_field(value: &mut serde_json::Value, field: &str, pairs: &Vec<PathPair>) -> (r:
    Option<usize>)
    ensures
        match text_at(json_leaves(*old(value)), split(field@, '.')) {
            None => r is None && *final(value) == *old(value),
            Some(t) => match prefix_moved(t, views(pairs@)) {
                None => r is None && *final(value) == *old(value),
                Some((new, i)) => r matches Some(k) && k == i && k < pairs@.len() && json_leaves(
                    *final(value),
                ) == with_text(json_leaves(*old(value)), split(field@, '.'), new) && json_nested(
                    *final(value),
                ) <= json_nested(*old(value)),
            },
        },
{
    match json_field(value, field) {
        None => None,
        Some(t) => match replace_path_prefix(&t, pairs) {
            None => None,
            Some((new, i)) => {
                json_set(value, field, &new);
                Some(i)
            },
        },
    }
}

/// Rewriting a JSON document back, with the pair that was applied swapped, gives
/// back the document, but for the last digits of floating numbers.
pub proof fn lemma_document_is_restored(
    path: Seq<char>,
    text: Seq<char>,
    field: Seq<char>,
    pairs: Seq<(Seq<char>, Seq<char>)>,
    w: Rewritten,
    r: Result<Option<Rewritten>, Error>,
)
    requires
        json_rewrite(path, text, field, pairs, Ok(Some(w))),
        json_rewrite(
            path,
            w.text@,
            field,
            seq![(pairs[w.pair as int].1, pairs[w.pair as int].0)],
            r,
        ),
    ensures
        r matches Ok(Some(back)) && (json_read(back.text@) matches Ok(m) && rounded(m) == rounded(
            json_read(text)->Ok_0,
        )),
{
    let keys = split(field, '.');
    let leaves = json_read(text)->Ok_0;
    let value = text_at(leaves, keys)->0;
    let (old_root, new_root) = pairs[w.pair as int];
    lemma_reported_pair_applies(value, pairs);
    lemma_move_is_undone(value, old_root, new_root);
    let new = moved(value, old_root, new_root)->0;
    let there = json_read(w.text@)->Ok_0;
    lemma_rounded(leaves, keys, new);
    lemma_rounded(with_text(leaves, keys, new), keys, value);
    lemma_rounded(there, keys, value);
    assert(text_at(with_text(leaves, keys, new), keys) == Some(new));
    assert(with_text(with_text(leaves, keys, new), keys, value) =~= leaves);
}

/// The rewrite of one text of a TOML document.
pub open spec fn toml_rewrite(
    path: Seq<char>,
    text: Seq<char>,
    field: Seq<char>,
    pairs: Seq<(Seq<char>, Seq<char>)>,
    r: Result<Option<Rewritten>, Error>,
) -> bool {
    match toml_read(text) {
        Err(m) => r matches Err(e) && is_reconcile_error(e, path, "invalid TOML: "@ + m),
        Ok(leaves) => match text_at(leaves, split(field, '.')) {
            None => r matches Ok(None),
            Some(value) => match prefix_moved(value, pairs) {
                None => r matches Ok(None),
                Some((new, i)) => {
                    let rewritten = with_text(leaves, split(field, '.'), new);
                    if calm(rewritten) {
                        r matches Ok(Some(w)) && w.pair == i && i < pairs.len() && toml_holds(
                            w.text@,
                            rewritten,
                        )
                    } else {
                        r matches Err(e) && is_reconcile_error(
                            e,
                            path,
                            "failed to serialize TOML: too many quotes in a row"@,
                        )
                    }
                },
            },
        },
    }
}

/// The text is that of the TOML document, and is read as it, where the document
/// does not use the key that is kept for dates and can be read, as it can where
/// it is not too deep.
pub open spec fn toml_holds(text: Seq<char>, leaves: Leaves) -> bool {
    &&& text == toml_print(leaves)
    &&& undated(leaves) ==> (toml_read(text) matches Ok(m) ==> m == leaves) && (shallow(leaves)
        ==> toml_read(text) is Ok)
}

/// Rewrite one field of a TOML document; everything else stays as it is.
pub fn rewrite_toml_field(path: &str, text: &str, field: &str, pairs: &Vec<PathPair>) -> (r: Result<
    Option<Rewritten>,
    Error,
>)
    ensures
        toml_rewrite(path@, text@, field@, views(pairs@), r),
{
    match toml_parse(text) {
        Err(e) => Err(reconcile_error(path, owned("invalid TOML: ").concat(&e))),
        Ok(mut value) => {
            match toml_set_field(&mut value, field, pairs) {
                None => Ok(None),
                Some(i) => {
                    if !toml_calm(&value) {
                        return Err(
                            reconcile_error(
                                path,
                                owned("failed to serialize TOML: too many quotes in a row"),
                            ),
                        );
                    }
                    proof {
                        assert(split(field@, '.').len() > 0);
                        let p = place(split(field@, '.'));
                        assert(p.len() > 0 && toml_leaves(value).contains_key(p));
                    }
                    match toml_pretty(&value) {
                        Ok(t) => Ok(Some(Rewritten { text: t, pair: i })),
                        Err(e) => Err(
                            reconcile_error(path, owned("failed to serialize TOML: ").concat(&e)),
                        ),
                    }
                },
            }
        },
    }
}

/// Rewrite the text under a field by the first pair that applies.
pub fn toml_set_field(value: &mut toml::Value, field: &str, pairs: &Vec<PathPair>) -> (r: Option<
    usize,
>)
    ensures
        match text_at(toml_leaves(*old(value)), split(field@, '.')) {
            None => r is None && *final(value) == *old(value),
            Some(t) => match prefix_moved(t, views(pairs@)) {
                None => r is None && *final(value) == *old(value),
                Some((new, i)) => r matches Some(k) && k == i && k < pairs@.len() && toml_leaves(
                    *final(value),
                ) == with_text(toml_leaves(*old(value)), split(field@, '.'), new),
            },
        },
{
    match toml_field(value, field) {
        None => None,
        Some(t) => match replace_path_prefix(&t, pairs) {
            None => None,
            Some((new, i)) => {
                toml_set(value, field, &new);
                Some(i)
            },
        },
    }
}

/// Rewriting a TOML document back, with the pair that was applied swapped, gives
/// back the document, where it can be
/// written and read again.
pub proof fn lemma_toml_document_is_restored(
    path: Seq<char>,
    text: Seq<char>,
    field: Seq<char>,
    pairs: Seq<(Seq<char>, Seq<char>)>,
    w: Rewritten,
    r: Result<Option<Rewritten>, Error>,
)
    requires
        toml_rewrite(path, text, field, pairs, Ok(Some(w))),
        toml_rewrite(
            path,
            w.text@,
            field,
            seq![(pairs[w.pair as int].1, pairs[w.pair as int].0)],
            r,
        ),
        toml_read(text) matches Ok(m) ==> calm(m) && undated(m) && shallow(m),
    ensures
        r matches Ok(Some(back)) && toml_read(back.text@) == toml_read(text),
{
    let keys = split(field, '.');
    let leaves = toml_read(text)->Ok_0;
    let value = text_at(leaves, keys)->0;
    let (old_root, new_root) = pairs[w.pair as int];
    lemma_reported_pair_applies(value, pairs);
    lemma_move_is_undone(value, old_root, new_root);
    let new = moved(value, old_root, new_root)->0;
    assert(with_text(with_text(leaves, keys, new), keys, value) =~= leaves);
    let rewritten = with_text(leaves, keys, new);
    assert(leaves.contains_key(place(keys)));
    assert(rewritten.dom() =~= leaves.dom());
    assert(undated(rewritten) && shallow(rewritten)) by {
        assert forall|p: Seq<Step>| #[trigger] rewritten.contains_key(p) implies leaves.contains_key(
            p,
        ) by {}
    }
}

/// No old root is empty.
pub open spec fn nonempty_roots(pairs: Seq<(Seq<char>, Seq<char>)>) -> bool {
    forall|i: int| 0 <= i < pairs.len() ==> (#[trigger] pairs[i]).0.len() > 0
}

/// A plain text can be searched for the old roots; a document has no need of that.
pub open spec fn searchable(format: Seq<char>, pairs: Seq<(Seq<char>, Seq<char>)>) -> bool {
    format == "json"@ || format == "toml"@ || nonempty_roots(pairs)
}

/// The first pair whose old root is mentioned in a text.
pub open spec fn first_mentioned(text: Seq<char>, pairs: Seq<(Seq<char>, Seq<char>)>, i: int) -> bool {
    &&& 0 <= i < pairs.len()
    &&& mentions(text, pairs[i].0)
    &&& forall|j: int| 0 <= j < i ==> !mentions(text, (#[trigger] pairs[j]).0)
}

/// The rewrite of a plain text.
pub open spec fn text_rewrite(
    text: Seq<char>,
    pairs: Seq<(Seq<char>, Seq<char>)>,
    r: Option<Rewritten>,
) -> bool {
    match r {
        Some(w) => first_mentioned(text, pairs, w.pair as int) && w.text@ == guarded(
            text,
            pairs[w.pair as int].0,
            pairs[w.pair as int].1,
        ),
        None => forall|j: int| 0 <= j < pairs.len() ==> !mentions(text, (#[trigger] pairs[j]).0),
    }
}

/// Rewrite a plain text by the first pair whose old root is mentioned in it.
pub fn rewrite_text(text: &str, pairs: &Vec<PathPair>) -> (r: Option<Rewritten>)
    requires
        nonempty_roots(views(pairs@)),
    ensures
        text_rewrite(text@, views(pairs@), r),
{
    let ghost all = views(pairs@);
    let mut i: usize = 0;
    while i < pairs.len()
        invariant
            all == views(pairs@),
            nonempty_roots(all),
            i <= pairs@.len(),
            forall|j: int| 0 <= j < i ==> !mentions(text@, (#[trigger] all[j]).0),
        decreases pairs@.len() - i,
    {
        assert(all[i as int] == pairs@[i as int]@);
        match replace_all_with_boundary(text, &pairs[i].old, &pairs[i].new) {
            Some(t) => {
                return Some(Rewritten { text: t, pair: i });
            },
            None => {},
        }
        i = i + 1;
    }
    None
}

/// The rewrite of an artifact, by its format.
pub open spec fn field_rewrite(
    path: Seq<char>,
    read: ArtifactRead,
    field: Seq<char>,
    format: Seq<char>,
    pairs: Seq<(Seq<char>, Seq<char>)>,
    r: Result<Option<Rewritten>, Error>,
) -> bool {
    match read.failure() {
        Some(m) => r matches Err(e) && (e matches Error::Io(s) && s@ == m),
        None => match read.usable() {
            None => r matches Ok(None),
            Some(text) => if format == "json"@ {
                json_rewrite(path, text, field, pairs, r)
            } else if format == "toml"@ {
                toml_rewrite(path, text, field, pairs, r)
            } else {
                r matches Ok(w) && text_rewrite(text, pairs, w)
            },
        },
    }
}

/// Rewrite one field of an artifact, in the way that its format asks for.
pub fn rewrite_field(
    path: &str,
    read: &ArtifactRead,
    field_spec: &PathFieldSpec,
    pairs: &Vec<PathPair>,
) -> (r: Result<Option<Rewritten>, Error>)
    requires
        searchable(field_spec@.format, views(pairs@)),
    ensures
        field_rewrite(path@, *read, field_spec@.field, field_spec@.format, views(pairs@), r),
{
    let text = match read_artifact(read) {
        Err(e) => {
            return Err(e);
        },
        Ok(None) => {
            return Ok(None);
        },
        Ok(Some(t)) => t,
    };
    if same(&field_spec.format, "json") {
        rewrite_json_field(path, &text, &field_spec.field, pairs)
    } else if same(&field_spec.format, "toml") {
        rewrite_toml_field(path, &text, &field_spec.field, pairs)
    } else {
        Ok(rewrite_text(&text, pairs))
    }
}

/// What an undo of a recorded rewrite comes to.
#[derive(Debug)]
pub enum UndoOutcome {
    /// A dry run: there is a file to rewrite.
    Would,
    /// This text is to be written.
    Write { text: String },
    /// The value is not there any more.
    Unchanged,
}

/// Reverse a recorded rewrite: the new value is rewritten back to the old one.
/// `read` is looked at only when the file is there and the run is real.
pub fn undo_event(entry: &LogEntry, exists: bool, dry_run: bool, read: &ArtifactRead) -> (r: Result<
    UndoOutcome,
    Error,
>)
    requires
        exists && !dry_run ==> searchable(
            entry.format@,
            seq![(entry.new_value@, entry.old_value@)],
        ),
    ensures
        !exists ==> (r matches Err(e) && is_reconcile_error(
            e,
            entry.file_path@,
            "target file no longer exists"@,
        )),
        exists && dry_run ==> r matches Ok(UndoOutcome::Would),
        exists && !dry_run ==> {
            let pairs = seq![(entry.new_value@, entry.old_value@)];
            match r {
                Err(e) => field_rewrite(
                    entry.file_path@,
                    *read,
                    entry.field@,
                    entry.format@,
                    pairs,
                    Err(e),
                ),
                Ok(UndoOutcome::Write { text }) => field_rewrite(
                    entry.file_path@,
                    *read,
                    entry.field@,
                    entry.format@,
                    pairs,
                    Ok(Some(Rewritten { text, pair: 0 })),
                ),
                Ok(UndoOutcome::Unchanged) => field_rewrite(
                    entry.file_path@,
                    *read,
                    entry.field@,
                    entry.format@,
                    pairs,
                    Ok(None),
                ),
                Ok(UndoOutcome::Would) => false,
            }
        },
{
    if !exists {
        return Err(reconcile_error(&entry.file_path, owned("target file no longer exists")));
    }
    if dry_run {
        return Ok(UndoOutcome::Would);
    }
    let spec = PathFieldSpec {
        file: String::new(),
        field: entry.field.clone(),
        format: entry.format.clone(),
    };
    let mut pairs: Vec<PathPair> = Vec::new();
    pairs.push(PathPair { old: entry.new_value.clone(), new: entry.old_value.clone() });
    assert(views(pairs@) =~= seq![(entry.new_value@, entry.old_value@)]);
    match rewrite_field(&entry.file_path, read, &spec, &pairs) {
        Err(e) => Err(e),
        Ok(None) => Ok(UndoOutcome::Unchanged),
        Ok(Some(w)) => Ok(UndoOutcome::Write { text: w.text }),
    }
}

} // verus!
