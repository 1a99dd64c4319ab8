//! JSON and TOML documents, seen through the values that they hold.
//!
//! A document is opaque but for its leaves: each text, number, boolean, date,
//! null, empty array and empty object in it, under the steps that lead to it
//! from the root, which are the keys of objects or tables and the positions in
//! arrays. Two documents with the same leaves are the same document.
use vstd::prelude::*;

use crate::text::{chars_of, split, split_on, views};

verus! {

/// A step into a document.
pub enum Step {
    /// To the value under a key of an object or a table.
    Key(Seq<char>),
    /// To the value at a position of an array.
    At(nat),
}

/// A value of a document with no other value inside it.
pub enum Leaf {
    /// A string.
    Text(Seq<char>),
    /// A floating number of a JSON document, as it is written.
    Float(Seq<char>),
    /// Anything else, as it is written.
    Other(Seq<char>),
}

/// The leaves of a document, each under the steps that lead to it.
pub type Leaves = Map<Seq<Step>, Leaf>;

/// The leaves below a step.
pub open spec fn below(m: Leaves, step: Step) -> Leaves {
    Map::new(|p: Seq<Step>| m.contains_key(seq![step] + p), |p: Seq<Step>| m[seq![step] + p])
}

/// The leaves with those below a step replaced by `sub`.
pub open spec fn grafted(m: Leaves, step: Step, sub: Leaves) -> Leaves {
    Map::new(
        |p: Seq<Step>|
            if p.len() > 0 && p[0] == step {
                sub.contains_key(p.skip(1))
            } else {
                m.contains_key(p)
            },
        |p: Seq<Step>|
            if p.len() > 0 && p[0] == step {
                sub[p.skip(1)]
            } else {
                m[p]
            },
    )
}

/// The document that is a single text.
pub open spec fn single(s: Seq<char>) -> Leaves {
    Map::empty().insert(Seq::empty(), Leaf::Text(s))
}

/// Nothing in the document lies below the step.
pub open spec fn bare(m: Leaves, step: Step) -> bool {
    forall|p: Seq<Step>| p.len() > 0 && p[0] == step ==> !(#[trigger] m.contains_key(p))
}

/// The steps that keys make.
pub open spec fn place(keys: Seq<Seq<char>>) -> Seq<Step> {
    Seq::new(keys.len(), |i: int| Step::Key(keys[i]))
}

/// The text under the keys.
pub open spec fn text_at(m: Leaves, keys: Seq<Seq<char>>) -> Option<Seq<char>> {
    if m.contains_key(place(keys)) {
        match m[place(keys)] {
            Leaf::Text(s) => Some(s),
            _ => None,
        }
    } else {
        None
    }
}

/// The document with the text under the keys replaced.
pub open spec fn with_text(m: Leaves, keys: Seq<Seq<char>>, new: Seq<char>) -> Leaves {
    m.insert(place(keys), Leaf::Text(new))
}

/// A JSON document.
#[verifier::external_type_specification]
#[verifier::external_body]
pub struct ExJson(serde_json::Value);

/// A TOML document.
#[verifier::external_type_specification]
#[verifier::external_body]
pub struct ExToml(toml::Value);

/// The leaves of a JSON document.
pub uninterp spec fn json_leaves(v: serde_json::Value) -> Map<Seq<Step>, Leaf>;

/// How deeply the arrays and objects of a JSON document are nested.
pub uninterp spec fn json_nested(v: serde_json::Value) -> nat;

/// How deeply `serde_json::from_str` lets arrays and objects be nested.
pub open spec fn json_limit() -> nat {
    127
}

/// The text that `serde_json::to_string_pretty` makes of a document with these
/// leaves.
pub uninterp spec fn json_print(leaves: Map<Seq<Step>, Leaf>) -> Seq<char>;

/// The text that `toml::to_string_pretty` makes of a document with these leaves.
pub uninterp spec fn toml_print(leaves: Map<Seq<Step>, Leaf>) -> Seq<char>;

/// The document with one floating number as good as any other.
pub open spec fn rounded(m: Leaves) -> Leaves {
    Map::new(
        |p: Seq<Step>| m.contains_key(p),
        |p: Seq<Step>|
            match m[p] {
                Leaf::Float(_) => Leaf::Float(Seq::empty()),
                leaf => leaf,
            },
    )
}

/// Rounding changes no text, and goes with replacing one.
pub proof fn lemma_rounded(m: Leaves, keys: Seq<Seq<char>>, new: Seq<char>)
    ensures
        text_at(rounded(m), keys) == text_at(m, keys),
        rounded(with_text(m, keys, new)) == with_text(rounded(m), keys, new),
{
    assert(rounded(with_text(m, keys, new)) =~= with_text(rounded(m), keys, new));
}

/// The leaves of a TOML document.
pub uninterp spec fn toml_leaves(v: toml::Value) -> Map<Seq<Step>, Leaf>;

/// How deeply the arrays and tables of a TOML document are nested.
pub uninterp spec fn toml_nested(v: toml::Value) -> nat;

/// The number of steps to a leaf that `toml::from_str` always bears.
pub open spec fn toml_limit() -> nat {
    78
}

/// What `serde_json::from_str` makes of a text: the leaves of the document, or
/// the message about what is wrong with it.
pub uninterp spec fn json_read(text: Seq<char>) -> Result<Map<Seq<Step>, Leaf>, Seq<char>>;

/// What `toml::from_str` makes of a text: the leaves of the document, or the
/// message about what is wrong with it.
pub uninterp spec fn toml_read(text: Seq<char>) -> Result<Map<Seq<Step>, Leaf>, Seq<char>>;

/// `serde_json::from_str` into a `serde_json::Value`; an error is turned into
/// its message. A document that is nested too deeply is an error.
#[verifier::external_body]
pub(crate) fn json_parse(text: &str) -> (r: Result<serde_json::Value, String>)
    ensures
        match r {
            Ok(v) => json_read(text@) == Ok::<Leaves, Seq<char>>(json_leaves(v)) && json_nested(v)
                <= json_limit(),
            Err(e) => json_read(text@) == Err::<Leaves, Seq<char>>(e@),
        },
{
    serde_json::from_str(text).map_err(|e| e.to_string())
}

/// `serde_json::Value::get` with a string: the value under the key, when the
/// document is an object that has it.
#[verifier::external_body]
pub(crate) fn json_get<'a>(v: &'a serde_json::Value, key: &str) -> (r: Option<
    &'a serde_json::Value,
>)
    ensures
        match r {
            Some(c) => json_leaves(*c) == below(json_leaves(*v), Step::Key(key@)),
            None => bare(json_leaves(*v), Step::Key(key@)),
        },
{
    v.get(key)
}

/// `serde_json::Value::get_mut` with a string: a place for the value under the
/// key, when the document is an object that has it. What is put there takes
/// the place of what was below the key; nothing else changes. The document is
/// nested one deeper than that, or as deeply as before.
#[verifier::external_body]
pub(crate) fn json_get_mut<'a>(v: &'a mut serde_json::Value, key: &str) -> (r: Option<
    &'a mut serde_json::Value,
>)
    ensures
        match r {
            Some(c) => json_leaves(*c) == below(json_leaves(*old(v)), Step::Key(key@)) && json_leaves(
                *final(v),
            ) == grafted(json_leaves(*old(v)), Step::Key(key@), json_leaves(*final(c))) && json_nested(*c)
                < json_nested(*old(v)) && (json_nested(*final(v)) <= json_nested(*old(v))
                || json_nested(*final(v)) <= json_nested(*final(c)) + 1),
            None => *final(v) == *old(v) && bare(json_leaves(*old(v)), Step::Key(key@)),
        },
{
    v.get_mut(key)
}

/// `serde_json::Value::as_str`: the text of a document that is a string.
#[verifier::external_body]
pub(crate) fn json_str(v: &serde_json::Value) -> (r: Option<String>)
    ensures
        match r {
            Some(s) => json_leaves(*v) == single(s@),
            None => text_at(json_leaves(*v), Seq::empty()) is None,
        },
{
    v.as_str().map(|s| s.to_string())
}

/// `serde_json::Value::String`: the document that is a single string, and has
/// nothing nested in it.
#[verifier::external_body]
pub(crate) fn json_of(s: &str) -> (r: serde_json::Value)
    ensures
        json_leaves(r) == single(s@),
        json_nested(r) == 0,
{
    serde_json::Value::String(s.to_string())
}

/// `serde_json::to_string_pretty` on a `serde_json::Value`, which always
/// succeeds, as the keys of its objects are strings. The text can be read
/// again where it is not nested too deeply for the reader, and is then the same
/// document, but that a floating number may be read with an error in its last
/// digit.
#[verifier::external_body]
pub(crate) fn json_pretty(v: &serde_json::Value) -> (r: Result<String, String>)
    ensures
        r is Ok,
        r matches Ok(t) ==> t@ == json_print(json_leaves(*v)),
        r matches Ok(t) ==> (json_nested(*v) <= json_limit() ==> (json_read(t@) matches Ok(m)
            && rounded(m) == rounded(json_leaves(*v)))),
{
    serde_json::to_string_pretty(v).map_err(|e| e.to_string())
}

/// `toml::from_str` into a `toml::Value`; an error is turned into its message.
#[verifier::external_body]
pub(crate) fn toml_parse(text: &str) -> (r: Result<toml::Value, String>)
    ensures
        match r {
            Ok(v) => toml_read(text@) == Ok::<Leaves, Seq<char>>(toml_leaves(v)),
            Err(e) => toml_read(text@) == Err::<Leaves, Seq<char>>(e@),
        },
{
    toml::from_str(text).map_err(|e| e.to_string())
}

/// `toml::Value::get` with a string: the value under the key, when the
/// document is a table that has it.
#[verifier::external_body]
pub(crate) fn toml_get<'a>(v: &'a toml::Value, key: &str) -> (r: Option<&'a toml::Value>)
    ensures
        match r {
            Some(c) => toml_leaves(*c) == below(toml_leaves(*v), Step::Key(key@)),
            None => bare(toml_leaves(*v), Step::Key(key@)),
        },
{
    v.get(key)
}

/// `toml::Value::get_mut` with a string: a place for the value under the key,
/// when the document is a table that has it. What is put there takes the place
/// of what was below the key; nothing else changes.
#[verifier::external_body]
pub(crate) fn toml_get_mut<'a>(v: &'a mut toml::Value, key: &str) -> (r: Option<
    &'a mut toml::Value,
>)
    ensures
        match r {
            Some(c) => toml_leaves(*c) == below(toml_leaves(*old(v)), Step::Key(key@)) && toml_leaves(
                *final(v),
            ) == grafted(toml_leaves(*old(v)), Step::Key(key@), toml_leaves(*final(c))),
            None => *final(v) == *old(v) && bare(toml_leaves(*old(v)), Step::Key(key@)),
        },
{
    v.get_mut(key)
}

/// `toml::Value::as_str`: the text of a document that is a string.
#[verifier::external_body]
pub(crate) fn toml_str(v: &toml::Value) -> (r: Option<String>)
    ensures
        match r {
            Some(s) => toml_leaves(*v) == single(s@),
            None => text_at(toml_leaves(*v), Seq::empty()) is None,
        },
{
    v.as_str().map(|s| s.to_string())
}

/// `toml::Value::String`: the document that is a single string.
#[verifier::external_body]
pub(crate) fn toml_of(s: &str) -> (r: toml::Value)
    ensures
        toml_leaves(r) == single(s@),
{
    toml::Value::String(s.to_string())
}

/// The values inside a `toml::Value`: those of a table (`toml::map::Map::values`)
/// or of an array, and none of any other value. Every leaf of the document but
/// one at its root lies in one of them, and each is what lies below one step,
/// with less nesting.
#[verifier::external_body]
pub(crate) fn toml_parts(v: &toml::Value) -> (r: Vec<toml::Value>)
    ensures
        forall|i: int|
            0 <= i < r@.len() ==> toml_nested(#[trigger] r@[i]) < toml_nested(*v) && is_part(
                toml_leaves(*v),
                toml_leaves(r@[i]),
            ),
        forall|p: Seq<Step>| #[trigger]
            toml_leaves(*v).contains_key(p) && p.len() > 0 ==> exists|i: int|
                0 <= i < r@.len() && toml_leaves(#[trigger] r@[i]) == below(toml_leaves(*v), p[0]),
{
    match v {
        toml::Value::Table(t) => t.values().cloned().collect(),
        toml::Value::Array(a) => a.clone(),
        _ => Vec::new(),
    }
}

/// `c` is what lies below some step of the document.
pub open spec fn is_part(m: Leaves, c: Leaves) -> bool {
    exists|step: Step| c == #[trigger] below(m, step)
}

/// No step is the key that the `toml` crate keeps for dates.
pub open spec fn undated(m: Leaves) -> bool {
    forall|p: Seq<Step>| #[trigger]
        m.contains_key(p) ==> !p.contains(Step::Key("$__toml_private_datetime"@))
}

/// No leaf lies too deep to be read again.
pub open spec fn shallow(m: Leaves) -> bool {
    forall|p: Seq<Step>| #[trigger] m.contains_key(p) ==> p.len() <= toml_limit()
}

/// The quotes in a row that the `toml` crate can count.
pub const MAX_QUOTES: usize = 255;

/// From position `i` on, more than the countable number of the character.
pub open spec fn run_at(s: Seq<char>, i: int, c: char) -> bool {
    &&& 0 <= i
    &&& i + MAX_QUOTES < s.len()
    &&& forall|j: int| i <= j <= i + MAX_QUOTES ==> #[trigger] s[j] == c
}

/// Too many equal quotes stand in a row.
pub open spec fn overquoted(s: Seq<char>) -> bool {
    (exists|i: int| #[trigger] run_at(s, i, '\'')) || (exists|i: int| #[trigger]
        run_at(s, i, '"'))
}

/// No text of the document has too many equal quotes in a row.
pub open spec fn calm(m: Leaves) -> bool {
    forall|p: Seq<Step>| #[trigger]
        m.contains_key(p) && (m[p] is Text) ==> !overquoted(m[p]->Text_0)
}

/// `toml::to_string_pretty` on a `toml::Value`, which succeeds on a table that
/// holds anything. The text is read again as the same document where that is
/// not too deep for the reader, and also where it is but can be read. Nothing
/// is claimed of what is read of a document with the key that the crate keeps
/// for dates, as the reader may take the table that holds it for a date. The
/// crate counts equal quotes in a row in a byte, so that a document with more
/// of them is left out.
#[verifier::external_body]
pub(crate) fn toml_pretty(v: &toml::Value) -> (r: Result<String, String>)
    requires
        calm(toml_leaves(*v)),
    ensures
        (exists|p: Seq<Step>|
            p.len() > 0 && p[0] is Key && #[trigger] toml_leaves(*v).contains_key(p)) ==> r is Ok,
        r matches Ok(t) ==> t@ == toml_print(toml_leaves(*v)),
        r matches Ok(t) ==> (undated(toml_leaves(*v)) ==> (toml_read(t@) matches Ok(m) ==> m
            == toml_leaves(*v))),
        r matches Ok(t) ==> (undated(toml_leaves(*v)) && shallow(toml_leaves(*v)) ==> toml_read(
            t@,
        ) == Ok::<Leaves, Seq<char>>(toml_leaves(*v))),
{
    toml::to_string_pretty(v).map_err(|e| e.to_string())
}

/// Too many equal quotes stand in a row.
pub(crate) fn has_run(s: &str) -> (r: bool)
    ensures
        r == overquoted(s@),
{
    let v = chars_of(s);
    let ghost t = s@;
    let mut singles: usize = 0;
    let mut doubles: usize = 0;
    let mut i: usize = 0;
    while i < v.len()
        invariant
            v@ == t,
            t == s@,
            i <= v@.len(),
            counted(t, i as int, singles as int, '\''),
            counted(t, i as int, doubles as int, '"'),
        decreases v@.len() - i,
    {
        proof {
            lemma_counted(t, i as int, singles as int, '\'');
            lemma_counted(t, i as int, doubles as int, '"');
        }
        let c: char = v[i];
        if c == '\'' {
            singles = singles + 1;
        } else {
            singles = 0;
        }
        if c == '"' {
            doubles = doubles + 1;
        } else {
            doubles = 0;
        }
        i = i + 1;
        if singles > MAX_QUOTES {
            assert(run_at(t, i - MAX_QUOTES - 1, '\''));
            return true;
        }
        if doubles > MAX_QUOTES {
            assert(run_at(t, i - MAX_QUOTES - 1, '"'));
            return true;
        }
    }
    false
}

/// The first `i` characters end with `n` of `c`, and hold no run of them.
spec fn counted(s: Seq<char>, i: int, n: int, c: char) -> bool {
    &&& 0 <= n <= i <= s.len()
    &&& n <= MAX_QUOTES
    &&& forall|j: int| i - n <= j < i ==> #[trigger] s[j] == c
    &&& n < i ==> s[i - n - 1] != c
    &&& forall|k: int| k + MAX_QUOTES < i ==> !#[trigger] run_at(s, k, c)
}

proof fn lemma_counted(s: Seq<char>, i: int, n: int, c: char)
    requires
        counted(s, i, n, c),
        i < s.len(),
    ensures
        s[i] == c && n < MAX_QUOTES ==> counted(s, i + 1, n + 1, c),
        s[i] == c && n == MAX_QUOTES ==> run_at(s, i - MAX_QUOTES, c),
        s[i] != c ==> counted(s, i + 1, 0, c),
{
    assert forall|k: int| k + MAX_QUOTES < i + 1 && !(s[i] == c && n == MAX_QUOTES) implies
        !#[trigger] run_at(s, k, c) by {
        if run_at(s, k, c) && k + MAX_QUOTES == i {
            if s[i] == c {
                assert(n < i);
                assert(k <= i - n - 1 <= k + MAX_QUOTES);
                assert(s[i - n - 1] == c);
            }
        }
    }
}

/// No text of the document has too many equal quotes in a row.
pub(crate) fn toml_calm(v: &toml::Value) -> (r: bool)
    ensures
        r == calm(toml_leaves(*v)),
    decreases toml_nested(*v),
{
    let ghost m = toml_leaves(*v);
    assert(place(Seq::empty()) =~= Seq::<Step>::empty());
    if let Some(s) = toml_str(v) {
        let long = has_run(&s);
        proof {
            assert(m.contains_key(Seq::empty()) && m[Seq::<Step>::empty()] == Leaf::Text(s@));
        }
        return !long;
    }
    let parts = toml_parts(v);
    let mut i: usize = 0;
    while i < parts.len()
        invariant
            m == toml_leaves(*v),
            i <= parts@.len(),
            forall|k: int|
                0 <= k < parts@.len() ==> toml_nested(#[trigger] parts@[k]) < toml_nested(*v)
                    && is_part(m, toml_leaves(parts@[k])),
            forall|k: int| 0 <= k < i ==> calm(toml_leaves(#[trigger] parts@[k])),
        decreases parts@.len() - i,
    {
        assert(is_part(m, toml_leaves(parts@[i as int])));
        if !toml_calm(&parts[i]) {
            proof {
                let c = toml_leaves(parts@[i as int]);
                let step = choose|step: Step| c == #[trigger] below(m, step);
                let q = choose|q: Seq<Step>| #[trigger]
                    c.contains_key(q) && (c[q] is Text) && overquoted(c[q]->Text_0);
                assert(m.contains_key(seq![step] + q) && m[seq![step] + q] == c[q]);
            }
            return false;
        }
        i = i + 1;
    }
    assert forall|p: Seq<Step>| #[trigger] m.contains_key(p) && (m[p] is Text) implies !overquoted(
        m[p]->Text_0,
    ) by {
        if p.len() == 0 {
            assert(p =~= Seq::<Step>::empty());
        } else {
            let k = choose|k: int|
                0 <= k < parts@.len() && toml_leaves(#[trigger] parts@[k]) == below(m, p[0]);
            let c = toml_leaves(parts@[k]);
            assert(calm(c));
            assert(seq![p[0]] + p.skip(1) =~= p);
            assert(c.contains_key(p.skip(1)) && c[p.skip(1)] == m[p]);
        }
    }
    true
}

proof fn lemma_descend(m: Leaves, keys: Seq<Seq<char>>, i: int)
    requires
        0 <= i < keys.len(),
    ensures
        text_at(m, keys.skip(i)) == text_at(below(m, Step::Key(keys[i])), keys.skip(i + 1)),
        place(keys.skip(i)).len() > 0,
        place(keys.skip(i))[0] == Step::Key(keys[i]),
        place(keys.skip(i)).skip(1) == place(keys.skip(i + 1)),
{
    let p = place(keys.skip(i));
    assert(p.skip(1) =~= place(keys.skip(i + 1)));
    assert(seq![Step::Key(keys[i])] + place(keys.skip(i + 1)) =~= p);
}

proof fn lemma_graft_insert(m: Leaves, path: Seq<Step>, leaf: Leaf)
    requires
        path.len() > 0,
    ensures
        grafted(m, path[0], below(m, path[0]).insert(path.skip(1), leaf)) == m.insert(path, leaf),
{
    let a = grafted(m, path[0], below(m, path[0]).insert(path.skip(1), leaf));
    let b = m.insert(path, leaf);
    assert forall|p: Seq<Step>| a.contains_key(p) == b.contains_key(p) by {
        if p.len() > 0 && p[0] == path[0] {
            assert(seq![path[0]] + p.skip(1) =~= p);
            if p.skip(1) == path.skip(1) {
                assert(p =~= seq![path[0]] + path.skip(1));
                assert(path =~= seq![path[0]] + path.skip(1));
            }
        }
    }
    assert forall|p: Seq<Step>| a.contains_key(p) implies a[p] == b[p] by {
        if p.len() > 0 && p[0] == path[0] {
            assert(seq![path[0]] + p.skip(1) =~= p);
            if p.skip(1) == path.skip(1) {
                assert(p =~= seq![path[0]] + path.skip(1));
                assert(path =~= seq![path[0]] + path.skip(1));
            }
        }
    }
    assert(a =~= b);
}

/// The text under the keys from the `i`-th on.
pub(crate) fn json_find(v: &serde_json::Value, keys: &Vec<String>, i: usize) -> (r: Option<String>)
    requires
        i <= keys@.len(),
    ensures
        crate::text::opt_view(r) == text_at(json_leaves(*v), views(keys@).skip(i as int)),
    decreases keys@.len() - i,
{
    let ghost ks = views(keys@);
    if i == keys.len() {
        assert(ks.skip(i as int) =~= Seq::<Seq<char>>::empty());
        assert(place(Seq::empty()) =~= Seq::<Step>::empty());
        return json_str(v);
    }
    proof {
        lemma_descend(json_leaves(*v), ks, i as int);
    }
    match json_get(v, &keys[i]) {
        Some(c) => json_find(c, keys, i + 1),
        None => None,
    }
}

/// Put a text in the place of another.
fn json_put(v: &mut serde_json::Value, keys: &Vec<String>, i: usize, new: &str)
    requires
        i <= keys@.len(),
        text_at(json_leaves(*old(v)), views(keys@).skip(i as int)) is Some,
    ensures
        json_leaves(*final(v)) == with_text(
            json_leaves(*old(v)),
            views(keys@).skip(i as int),
            new@,
        ),
        json_nested(*final(v)) <= json_nested(*old(v)),
    decreases keys@.len() - i,
{
    let ghost ks = views(keys@);
    let ghost before = json_leaves(*v);
    if i == keys.len() {
        assert(ks.skip(i as int) =~= Seq::<Seq<char>>::empty());
        let was = json_str(v);
        *v = json_of(new);
        assert(place(ks.skip(i as int)) =~= Seq::<Step>::empty());
        assert(json_leaves(*v) =~= before.insert(Seq::empty(), Leaf::Text(new@)));
        return;
    }
    proof {
        lemma_descend(before, ks, i as int);
        lemma_graft_insert(before, place(ks.skip(i as int)), Leaf::Text(new@));
    }
    match json_get_mut(v, &keys[i]) {
        Some(c) => json_put(c, keys, i + 1, new),
        None => {},
    }
}

/// The text under the keys from the `i`-th on.
pub(crate) fn toml_find(v: &toml::Value, keys: &Vec<String>, i: usize) -> (r: Option<String>)
    requires
        i <= keys@.len(),
    ensures
        crate::text::opt_view(r) == text_at(toml_leaves(*v), views(keys@).skip(i as int)),
    decreases keys@.len() - i,
{
    let ghost ks = views(keys@);
    if i == keys.len() {
        assert(ks.skip(i as int) =~= Seq::<Seq<char>>::empty());
        assert(place(Seq::empty()) =~= Seq::<Step>::empty());
        return toml_str(v);
    }
    proof {
        lemma_descend(toml_leaves(*v), ks, i as int);
    }
    match toml_get(v, &keys[i]) {
        Some(c) => toml_find(c, keys, i + 1),
        None => None,
    }
}

/// Put a text in the place of another.
fn toml_put(v: &mut toml::Value, keys: &Vec<String>, i: usize, new: &str)
    requires
        i <= keys@.len(),
        text_at(toml_leaves(*old(v)), views(keys@).skip(i as int)) is Some,
    ensures
        toml_leaves(*final(v)) == with_text(
            toml_leaves(*old(v)),
            views(keys@).skip(i as int),
            new@,
        ),
    decreases keys@.len() - i,
{
    let ghost ks = views(keys@);
    let ghost before = toml_leaves(*v);
    if i == keys.len() {
        assert(ks.skip(i as int) =~= Seq::<Seq<char>>::empty());
        let was = toml_str(v);
        *v = toml_of(new);
        assert(place(ks.skip(i as int)) =~= Seq::<Step>::empty());
        assert(toml_leaves(*v) =~= before.insert(Seq::empty(), Leaf::Text(new@)));
        return;
    }
    proof {
        lemma_descend(before, ks, i as int);
        lemma_graft_insert(before, place(ks.skip(i as int)), Leaf::Text(new@));
    }
    match toml_get_mut(v, &keys[i]) {
        Some(c) => toml_put(c, keys, i + 1, new),
        None => {},
    }
}

/// The text of a JSON document under a dot-separated field.
pub fn json_field(v: &serde_json::Value, field: &str) -> (r: Option<String>)
    ensures
        crate::text::opt_view(r) == text_at(json_leaves(*v), split(field@, '.')),
{
    let keys = split_on(field, '.');
    assert(views(keys@).skip(0) =~= views(keys@));
    json_find(v, &keys, 0)
}

/// Put a text under a dot-separated field that holds one.
pub(crate) fn json_set(v: &mut serde_json::Value, field: &str, new: &str)
    requires
        text_at(json_leaves(*old(v)), split(field@, '.')) is Some,
    ensures
        json_leaves(*final(v)) == with_text(json_leaves(*old(v)), split(field@, '.'), new@),
        json_nested(*final(v)) <= json_nested(*old(v)),
{
    let keys = split_on(field, '.');
    assert(views(keys@).skip(0) =~= views(keys@));
    json_put(v, &keys, 0, new);
}

/// The text of a TOML document under a dot-separated field.
pub fn toml_field(v: &toml::Value, field: &str) -> (r: Option<String>)
    ensures
        crate::text::opt_view(r) == text_at(toml_leaves(*v), split(field@, '.')),
{
    let keys = split_on(field, '.');
    assert(views(keys@).skip(0) =~= views(keys@));
    toml_find(v, &keys, 0)
}

/// Put a text under a dot-separated field that holds one.
pub(crate) fn toml_set(v: &mut toml::Value, field: &str, new: &str)
    requires
        text_at(toml_leaves(*old(v)), split(field@, '.')) is Some,
    ensures
        toml_leaves(*final(v)) == with_text(toml_leaves(*old(v)), split(field@, '.'), new@),
{
    let keys = split_on(field, '.');
    assert(views(keys@).skip(0) =~= views(keys@));
    toml_put(v, &keys, 0, new);
}

} // verus!
