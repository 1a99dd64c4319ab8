//! Which projects are known, and under which paths.
use vstd::prelude::*;

use crate::known::{
    forms_of, inside, known_keys, moved_forms, moved_keys, moved_to, resolved_keys, KeyPair,
};
use crate::paths::{absolute, below, comps, joined, last_name, parent_of, same_path, under};
use crate::sessions::census::GroupView;
use crate::sessions::decode::DecodeConfidence;

verus! {

/// A key that can be moved: absolute, no root, and the home directory is
/// neither at it nor in it.
pub open spec fn movable(key: Seq<char>, home: Option<Seq<char>>) -> bool {
    &&& key.len() > 0
    &&& key[0] == '/'
    &&& comps(key).len() > 1
    &&& home matches Some(h) ==> !comps(key).is_prefix_of(comps(h))
}

/// Every key that can be moved is found by its path as it was recorded and,
/// where its links resolve to another path, by that path too; nothing else is
/// found.
pub proof fn lemma_keys_are_found_by_both_forms(
    keys: Seq<Seq<char>>,
    resolved: Seq<Option<Seq<char>>>,
    home: Option<Seq<char>>,
)
    requires
        resolved.len() >= keys.len(),
    ensures
        ({
            let forms = forms_of(keys, resolved, home);
            &&& forall|i: int|
                0 <= i < keys.len() && movable(#[trigger] keys[i], home) ==> forms.contains(
                    (keys[i], keys[i]),
                )
            &&& forall|i: int|
                0 <= i < keys.len() && movable(#[trigger] keys[i], home) ==> (
                resolved[i] matches Some(actual) ==> !same_path(actual, keys[i])
                    ==> forms.contains((actual, keys[i])))
            &&& forall|e: (Seq<char>, Seq<char>)| #[trigger]
                forms.contains(e) ==> exists|i: int|
                    0 <= i < keys.len() && movable(#[trigger] keys[i], home) && e.1 == keys[i] && (
                    e.0 == keys[i] || resolved[i] == Some(e.0))
        }),
    decreases keys.len(),
{
    let forms = forms_of(keys, resolved, home);
    if keys.len() > 0 {
        let d = keys.drop_last();
        let n = keys.len() - 1;
        lemma_keys_are_found_by_both_forms(d, resolved, home);
        let rest = forms_of(d, resolved, home);
        assert(forall|i: int| 0 <= i < n ==> #[trigger] d[i] == keys[i]);
        assert forall|e: (Seq<char>, Seq<char>)| #[trigger] rest.contains(
            e,
        ) implies forms.contains(e) by {
            let k = choose|k: int| 0 <= k < rest.len() && rest[k] == e;
            assert(forms[k] == e);
        }
        let key = keys[n];
        if movable(key, home) {
            assert(forms[forms.len() - 1] == (key, key));
            if let Some(actual) = resolved[n] {
                if !same_path(actual, key) {
                    assert(forms[rest.len() as int] == (actual, key));
                }
            }
        }
        assert forall|i: int| 0 <= i < keys.len() && movable(
            #[trigger] keys[i],
            home,
        ) implies forms.contains((keys[i], keys[i])) by {
            if i < n {
                assert(rest.contains((d[i], d[i])));
            }
        }
        assert forall|i: int| 0 <= i < keys.len() && movable(#[trigger] keys[i], home) implies (
        resolved[i] matches Some(actual) ==> !same_path(actual, keys[i]) ==> forms.contains(
            (actual, keys[i]),
        )) by {
            if i < n {
                if let Some(actual) = resolved[i] {
                    if !same_path(actual, keys[i]) {
                        assert(movable(d[i], home));
                        assert(rest.contains((actual, d[i])));
                    }
                }
            }
        }
        assert forall|e: (Seq<char>, Seq<char>)| #[trigger] forms.contains(e) implies exists|i: int|
            0 <= i < keys.len() && movable(#[trigger] keys[i], home) && e.1 == keys[i] && (e.0
                == keys[i] || resolved[i] == Some(e.0)) by {
            let k = choose|k: int| 0 <= k < forms.len() && forms[k] == e;
            if k < rest.len() {
                assert(rest[k] == e);
                assert(rest.contains(e));
                let i = choose|i: int|
                    0 <= i < d.len() && movable(#[trigger] d[i], home) && e.1 == d[i] && (e.0
                        == d[i] || resolved[i] == Some(e.0));
                assert(keys[i] == d[i]);
            } else {
                assert(movable(keys[n], home));
            }
        }
    }
}

/// The keys are the paths of the sessions' projects, but for those that could
/// not be resolved, and those of the registered projects.
pub proof fn lemma_keys_are_resolved_paths(groups: Seq<GroupView>, projects: Seq<Seq<char>>)
    ensures
        forall|i: int|
            0 <= i < groups.len() && !((#[trigger] groups[i]).confidence is Unresolved)
                ==> known_keys(groups, projects).contains(groups[i].project_path),
        forall|i: int|
            0 <= i < projects.len() ==> known_keys(groups, projects).contains(
                #[trigger] projects[i],
            ),
        forall|k: Seq<char>| #[trigger]
            known_keys(groups, projects).contains(k) ==> projects.contains(k) || exists|i: int|
                0 <= i < groups.len() && !((#[trigger] groups[i]).confidence is Unresolved)
                    && groups[i].project_path == k,
{
    lemma_resolved_keys(groups);
    let a = resolved_keys(groups);
    let all = known_keys(groups, projects);
    assert forall|k: Seq<char>| #[trigger] a.contains(k) implies all.contains(k) by {
        let i = choose|i: int| 0 <= i < a.len() && a[i] == k;
        assert(all[i] == k);
    }
    assert forall|i: int|
        0 <= i < groups.len() && !((
        #[trigger] groups[i]).confidence is Unresolved) implies all.contains(
        groups[i].project_path,
    ) by {
        assert(a.contains(groups[i].project_path));
    }
    assert forall|i: int| 0 <= i < projects.len() implies all.contains(#[trigger] projects[i]) by {
        assert(all[a.len() + i] == projects[i]);
    }
    assert forall|k: Seq<char>| #[trigger] all.contains(k) implies projects.contains(k) || exists|
        i: int,
    |
        0 <= i < groups.len() && !((#[trigger] groups[i]).confidence is Unresolved)
            && groups[i].project_path == k by {
        let i = choose|i: int| 0 <= i < all.len() && all[i] == k;
        if i < a.len() {
            assert(a[i] == k);
            assert(a.contains(k));
        } else {
            assert(projects[i - a.len()] == k);
        }
    }
}

proof fn lemma_resolved_keys(groups: Seq<GroupView>)
    ensures
        forall|i: int|
            0 <= i < groups.len() && !((#[trigger] groups[i]).confidence is Unresolved)
                ==> resolved_keys(groups).contains(groups[i].project_path),
        forall|k: Seq<char>| #[trigger]
            resolved_keys(groups).contains(k) ==> exists|i: int|
                0 <= i < groups.len() && !((#[trigger] groups[i]).confidence is Unresolved)
                    && groups[i].project_path == k,
    decreases groups.len(),
{
    let all = resolved_keys(groups);
    if groups.len() > 0 {
        let d = groups.drop_last();
        let n = groups.len() - 1;
        lemma_resolved_keys(d);
        let rest = resolved_keys(d);
        assert forall|i: int|
            0 <= i < groups.len() && !((
            #[trigger] groups[i]).confidence is Unresolved) implies all.contains(
            groups[i].project_path,
        ) by {
            if i < n {
                assert(d[i] == groups[i]);
                let k = choose|k: int| 0 <= k < rest.len() && rest[k] == d[i].project_path;
                assert(all[k] == rest[k]);
            } else {
                assert(all[rest.len() as int] == groups[n].project_path);
            }
        }
        assert forall|k: Seq<char>| #[trigger] all.contains(k) implies exists|i: int|
            0 <= i < groups.len() && !((#[trigger] groups[i]).confidence is Unresolved)
                && groups[i].project_path == k by {
            let x = choose|x: int| 0 <= x < all.len() && all[x] == k;
            if x < rest.len() {
                assert(rest[x] == k);
                assert(rest.contains(k));
                let i = choose|i: int|
                    0 <= i < d.len() && !((#[trigger] d[i]).confidence is Unresolved)
                        && d[i].project_path == k;
                assert(groups[i] == d[i]);
            } else {
                assert(groups[n].project_path == k);
            }
        }
    }
}

/// A directory that has moved is looked for by the path that it was moved from
/// and, where the links above it resolve to another path, by its name there.
pub proof fn lemma_moved_directory_has_both_forms(from: Seq<char>, actual_parent: Option<Seq<char>>)
    ensures
        moved_forms(from, actual_parent).len() > 0,
        moved_forms(from, actual_parent)[0] == from,
        parent_of(from) is Some && (last_name(from) matches Some(name)
            && actual_parent matches Some(q) && !same_path(joined(q, name), from)) ==> moved_forms(
            from,
            actual_parent,
        ) == seq![from, joined(actual_parent->0, last_name(from)->0)],
        actual_parent is None ==> moved_forms(from, actual_parent) == seq![from],
{
}

/// What of a path lies below the first of the directories that hold it.
pub proof fn lemma_first_holder_counts(form: Seq<char>, dirs: Seq<Seq<char>>)
    ensures
        match inside(form, dirs) {
            Some(rel) => exists|k: int|
                0 <= k < dirs.len() && below(form, #[trigger] dirs[k]) == Some(rel) && forall|j: int|
                    0 <= j < k ==> !under(form, #[trigger] dirs[j]),
            None => forall|j: int| 0 <= j < dirs.len() ==> !under(form, #[trigger] dirs[j]),
        },
    decreases dirs.len(),
{
    if dirs.len() > 0 {
        if below(form, dirs[0]) is None {
            let rest = dirs.skip(1);
            lemma_first_holder_counts(form, rest);
            assert(forall|j: int| 0 <= j < rest.len() ==> #[trigger] rest[j] == dirs[j + 1]);
            match inside(form, dirs) {
                Some(rel) => {
                    let k = choose|k: int|
                        0 <= k < rest.len() && below(form, #[trigger] rest[k]) == Some(rel)
                            && forall|j: int| 0 <= j < k ==> !under(form, #[trigger] rest[j]);
                    assert(below(form, dirs[k + 1]) == Some(rel));
                    assert forall|j: int| 0 <= j < k + 1 implies !under(form, #[trigger] dirs[j]) by {
                        if j > 0 {
                            assert(rest[j - 1] == dirs[j]);
                        }
                    }
                },
                None => {
                    assert forall|j: int| 0 <= j < dirs.len() implies !under(
                        form,
                        #[trigger] dirs[j],
                    ) by {
                        if j > 0 {
                            assert(rest[j - 1] == dirs[j]);
                        }
                    }
                },
            }
        } else {
            assert(below(form, dirs[0]) is Some);
        }
    }
}

} // verus!
