//! Which session stores there are, and where.
use vstd::prelude::*;

use crate::order::{
    before, is_before, lemma_before_irreflexive, lemma_before_total, lemma_before_transitive,
};
use crate::text::{begins, chars_of, opt_view, same, string_of, strip_prefix, trim, trimmed, views};
use crate::tools::{HomeDirDiscovery, LayoutView, SessionStore, StoreView, ToolDefinition, ToolView};

verus! {

/// A variable of the environment.
#[derive(Debug, PartialEq, Eq)]
pub struct EnvVar {
    pub name: String,
    pub value: String,
}

/// The value of a variable, when it is set.
pub open spec fn env_value(env: Seq<EnvVar>, name: Seq<char>) -> Option<Seq<char>>
    decreases env.len(),
{
    if env.len() == 0 {
        None
    } else if env[0].name@ == name {
        Some(env[0].value@)
    } else {
        env_value(env.skip(1), name)
    }
}

fn env_lookup(env: &Vec<EnvVar>, name: &str) -> (r: Option<String>)
    ensures
        opt_view(r) == env_value(env@, name@),
{
    let mut i: usize = 0;
    assert(env@.skip(0) =~= env@);
    while i < env.len()
        invariant
            i <= env@.len(),
            env_value(env@, name@) == env_value(env@.skip(i as int), name@),
        decreases env@.len() - i,
    {
        let ghost rest = env@.skip(i as int);
        assert(rest[0] == env@[i as int]);
        assert(rest.skip(1) =~= env@.skip(i + 1));
        if same(&env[i].name, name) {
            return Some(env[i].value.clone());
        }
        i = i + 1;
    }
    None
}

/// The text without the copies of a character at its end.
pub open spec fn without_trailing(s: Seq<char>, c: char) -> Seq<char>
    decreases s.len(),
{
    if s.len() > 0 && s.last() == c {
        without_trailing(s.drop_last(), c)
    } else {
        s
    }
}

/// The text without the copies of a character at its end.
pub fn trim_trailing(s: &str, c: char) -> (r: String)
    ensures
        r@ == without_trailing(s@, c),
{
    let v = chars_of(s);
    let mut n: usize = v.len();
    assert(s@.take(n as int) =~= s@);
    while n > 0 && v[n - 1] == c
        invariant
            v@ == s@,
            n <= v@.len(),
            without_trailing(s@, c) == without_trailing(s@.take(n as int), c),
        decreases n,
    {
        assert(s@.take(n as int).drop_last() =~= s@.take(n - 1));
        n = n - 1;
    }
    assert(s@.subrange(0, n as int) =~= s@.take(n as int));
    string_of(&v, 0, n)
}

/// The directory that the environment gives a tool in place of its usual one.
pub open spec fn env_root(layout: Option<LayoutView>, env: Option<Seq<EnvVar>>) -> Option<
    Seq<char>,
> {
    match (env, layout) {
        (Some(e), Some(l)) => if l.discovery == HomeDirDiscovery::Env {
            match l.env_var {
                Some(name) => match env_value(e, name) {
                    Some(v) => if trimmed(v).len() > 0 {
                        Some(v)
                    } else {
                        None
                    },
                    None => None,
                },
                None => None,
            }
        } else {
            None
        },
        _ => None,
    }
}

/// What follows a directory in a path below it: nothing, or a part that starts
/// with the separator.
pub open spec fn rest_below(path: Seq<char>, dir: Seq<char>) -> Option<Seq<char>> {
    if begins(path, dir) && (path.len() == dir.len() || path[dir.len() as int] == '/') {
        Some(path.skip(dir.len() as int))
    } else {
        None
    }
}

/// The store where the tool itself would look for it.
pub open spec fn rooted(
    store: StoreView,
    layout: Option<LayoutView>,
    env: Option<Seq<EnvVar>>,
) -> StoreView {
    match env_root(layout, env) {
        Some(root) => match rest_below(store.path(), layout->0.default_path) {
            Some(rest) => store.at(without_trailing(root, '/') + rest),
            None => store,
        },
        None => store,
    }
}

/// The stores that the tools declare, where the tools would look for them.
pub open spec fn declared(tools: Seq<ToolView>, env: Option<Seq<EnvVar>>) -> Seq<
    (Seq<char>, StoreView),
>
    decreases tools.len(),
{
    if tools.len() == 0 {
        seq![]
    } else {
        let rest = declared(tools.drop_last(), env);
        let tool = tools.last();
        match tool.session_store {
            Some(store) => rest.push((tool.name, rooted(store, tool.home_dir_layout, env))),
            None => rest,
        }
    }
}

/// How many of the leading stores stay before one of this name.
pub open spec fn place_of(list: Seq<(Seq<char>, StoreView)>, name: Seq<char>) -> int
    decreases list.len(),
{
    if list.len() == 0 || !before(name, list.last().0) {
        list.len() as int
    } else {
        place_of(list.drop_last(), name)
    }
}

/// The stores in the order of their tools' names; those of one name stay in
/// the order in which they were declared.
pub open spec fn by_name(list: Seq<(Seq<char>, StoreView)>) -> Seq<(Seq<char>, StoreView)>
    decreases list.len(),
{
    if list.len() == 0 {
        seq![]
    } else {
        let rest = by_name(list.drop_last());
        rest.insert(place_of(rest, list.last().0), list.last())
    }
}

proof fn lemma_place(list: Seq<(Seq<char>, StoreView)>, name: Seq<char>)
    ensures
        0 <= place_of(list, name) <= list.len(),
        forall|i: int|
            place_of(list, name) <= i < list.len() ==> before(name, (#[trigger] list[i]).0),
        place_of(list, name) > 0 ==> !before(name, list[place_of(list, name) - 1].0),
    decreases list.len(),
{
    if list.len() > 0 && before(name, list.last().0) {
        let d = list.drop_last();
        lemma_place(d, name);
        assert forall|i: int| place_of(list, name) <= i < list.len() implies before(
            name,
            (#[trigger] list[i]).0,
        ) by {
            if i < d.len() {
                assert(list[i] == d[i]);
            }
        }
    }
}

/// The names never go down.
pub open spec fn ascending(list: Seq<(Seq<char>, StoreView)>) -> bool {
    forall|i: int, j: int|
        0 <= i < j < list.len() ==> !before((#[trigger] list[j]).0, (#[trigger] list[i]).0)
}

/// The order of a census does not depend on the order of the tools: the stores
/// come out in the order of the names, and they are the stores that went in.
pub proof fn lemma_stores_are_sorted(list: Seq<(Seq<char>, StoreView)>)
    ensures
        ascending(by_name(list)),
        by_name(list).len() == list.len(),
        by_name(list).to_multiset() == list.to_multiset(),
    decreases list.len(),
{
    broadcast use vstd::seq_lib::group_to_multiset_ensures;

    if list.len() > 0 {
        let d = list.drop_last();
        let x = list.last();
        lemma_stores_are_sorted(d);
        let s = by_name(d);
        let k = place_of(s, x.0);
        lemma_place(s, x.0);
        let r = s.insert(k, x);
        assert(list =~= d.push(x));
        assert forall|i: int, j: int| 0 <= i < j < r.len() implies !before(
            (#[trigger] r[j]).0,
            (#[trigger] r[i]).0,
        ) by {
            let a = if i < k {
                i
            } else {
                i - 1
            };
            let b = if j < k {
                j
            } else {
                j - 1
            };
            if j == k {
                assert(r[i] == s[i]);
                if before(x.0, s[i].0) {
                    let p = k - 1;
                    if i != p {
                        assert(!before(s[p].0, s[i].0));
                        lemma_before_total(s[p].0, s[i].0);
                        if s[p].0 != s[i].0 {
                            lemma_before_transitive(x.0, s[i].0, s[p].0);
                        }
                    }
                }
            } else if i == k {
                assert(r[j] == s[b]);
                assert(before(x.0, s[b].0));
                if before(s[b].0, x.0) {
                    lemma_before_transitive(x.0, s[b].0, x.0);
                    lemma_before_irreflexive(x.0);
                }
            } else {
                assert(r[i] == s[a] && r[j] == s[b]);
            }
        }
        assert(r =~= s.take(k).push(x) + s.skip(k));
        assert(s =~= s.take(k) + s.skip(k));
        vstd::seq_lib::lemma_multiset_commutative(s.take(k).push(x), s.skip(k));
        vstd::seq_lib::lemma_multiset_commutative(s.take(k), s.skip(k));
        assert(r.to_multiset() =~= d.push(x).to_multiset());
    }
}

fn insert_by_name(list: &mut Vec<(String, SessionStore)>, x: (String, SessionStore))
    ensures
        views(final(list)@) == views(old(list)@).insert(place_of(views(old(list)@), x.0@), x@),
{
    let ghost start = views(list@);
    let mut i: usize = list.len();
    assert(start.take(i as int) =~= start);
    proof {
        lemma_place(start, x.0@);
    }
    while i > 0 && is_before(&x.0, &list[i - 1].0)
        invariant
            views(list@) == start,
            i <= list@.len(),
            place_of(start, x.0@) == place_of(start.take(i as int), x.0@),
        decreases i,
    {
        assert(start.take(i as int).drop_last() =~= start.take(i - 1));
        assert(start[i - 1] == list@[i - 1]@);
        i = i - 1;
    }
    if i > 0 {
        assert(start[i - 1] == list@[i - 1]@);
        assert(start.take(i as int).last() == start[i - 1]);
    }
    assert(place_of(start, x.0@) == i);
    list.insert(i, x);
    assert(views(list@) =~= start.insert(i as int, x@));
}

fn find_root(tool: &ToolDefinition, env: &Option<Vec<EnvVar>>) -> (r: Option<String>)
    ensures
        opt_view(r) == env_root(tool@.home_dir_layout, opt_view(*env)),
{
    match (env, &tool.home_dir_layout) {
        (Some(e), Some(l)) => {
            if matches!(l.discovery, HomeDirDiscovery::Env) {
                if let Some(name) = &l.env_var {
                    if let Some(v) = env_lookup(e, name) {
                        let text = trim(&v);
                        if text.unicode_len() > 0 {
                            return Some(v);
                        }
                    }
                }
            }
            None
        },
        _ => None,
    }
}

fn find_rest(path: &str, dir: &str) -> (r: Option<String>)
    ensures
        opt_view(r) == rest_below(path@, dir@),
{
    match strip_prefix(path, dir) {
        Some(rest) => {
            let n = rest.unicode_len();
            if n == 0 || rest.as_str().get_char(0) == '/' {
                if n > 0 {
                    assert(rest@[0] == path@[dir@.len() as int]);
                }
                Some(rest)
            } else {
                assert(rest@[0] == path@[dir@.len() as int]);
                None
            }
        },
        None => None,
    }
}

/// The declared session stores, each where its tool would look for it, in the
/// order of the tools' names. A tool that is found through the environment
/// keeps its store under the directory that the variable names. Without an
/// environment, as for another machine's home, the declarations stand.
pub fn resolve_stores(tools: &Vec<ToolDefinition>, env: &Option<Vec<EnvVar>>) -> (r: Vec<
    (String, SessionStore),
>)
    ensures
        views(r@) == by_name(declared(views(tools@), opt_view(*env))),
{
    let ghost e = opt_view(*env);
    let ghost ts = views(tools@);
    let mut out: Vec<(String, SessionStore)> = Vec::new();
    let mut i: usize = 0;
    assert(ts.take(0) =~= Seq::<ToolView>::empty());
    assert(views(out@) =~= Seq::<(Seq<char>, StoreView)>::empty());
    while i < tools.len()
        invariant
            ts == views(tools@),
            e == (opt_view(*env)),
            i <= tools@.len(),
            views(out@) == by_name(declared(ts.take(i as int), e)),
        decreases tools@.len() - i,
    {
        let tool = &tools[i];
        proof {
            assert(ts.take(i + 1).drop_last() =~= ts.take(i as int));
            assert(ts.take(i + 1).last() == tool@);
        }
        if let Some(declared_store) = &tool.session_store {
            let mut store = declared_store.clone();
            if let Some(root) = find_root(tool, env) {
                if let Some(l) = &tool.home_dir_layout {
                    if let Some(rest) = find_rest(store.path(), &l.default_path) {
                        let to = trim_trailing(&root, '/').concat(&rest);
                        store.set_path(to);
                    }
                }
            }
            let ghost before_it = declared(ts.take(i as int), e);
            let entry = (tool.name.clone(), store);
            assert(entry@ == (tool@.name, rooted(
                tool@.session_store->0,
                tool@.home_dir_layout,
                e,
            )));
            assert(before_it.push(entry@).drop_last() =~= before_it);
            insert_by_name(&mut out, entry);
        }
        i = i + 1;
    }
    assert(ts.take(i as int) =~= ts);
    out
}

/// The declarations stand as they are on another machine's home: nothing is
/// moved.
pub proof fn lemma_foreign_stores_stay(
    store: StoreView,
    layout: Option<LayoutView>,
)
    ensures
        rooted(store, layout, None) == store,
{
}

} // verus!
