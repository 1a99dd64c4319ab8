//! What detection finds, and what a walk for projects reaches.
use vstd::prelude::*;

use crate::detector::{
    all_detected, detected, existing, lemma_rooted, matching, mount_level, pushed, root_for, skippable,
    DetectionView, PatternSight, ProjectWalkView, ToolSight,
};
use crate::paths::parts::{lemma_joined_name, lemma_names_are_plain, lemma_parent};
use crate::paths::{absolute, comps, joined, last_name, parent_of};
use crate::picks::{
    lemma_picked, lemma_picked_more, lemma_picked_none, lemma_same_choice, picked,
};
use crate::text::begins;
use crate::tools::{FieldView, ToolView};

verus! {

proof fn lemma_matching_picks(patterns: Seq<Seq<char>>, sights: Seq<PatternSight>)
    ensures
        picked(
            patterns,
            matching(patterns, sights),
            |i: int| sights[i].exists || sights[i].globbed,
        ),
    decreases patterns.len(),
{
    let keep = |i: int| sights[i].exists || sights[i].globbed;
    if patterns.len() == 0 {
        lemma_picked_none(patterns, matching(patterns, sights), keep);
    } else {
        lemma_matching_picks(patterns.drop_last(), sights);
        lemma_picked_more(patterns, matching(patterns.drop_last(), sights), keep);
    }
}

/// Where the files of the path fields lie in a project.
pub open spec fn field_places(root: Seq<char>, fields: Seq<FieldView>) -> Seq<Seq<char>> {
    Seq::new(fields.len(), |i: int| joined(root, fields[i].file))
}

proof fn lemma_existing_picks(root: Seq<char>, fields: Seq<FieldView>, flags: Seq<bool>)
    ensures
        picked(
            field_places(root, fields),
            existing(root, fields, flags),
            |i: int| flags[i],
        ),
    decreases fields.len(),
{
    let keep = |i: int| flags[i];
    let all = field_places(root, fields);
    if fields.len() == 0 {
        lemma_picked_none(all, existing(root, fields, flags), keep);
    } else {
        let d = fields.drop_last();
        lemma_existing_picks(root, d, flags);
        assert(all.drop_last() =~= field_places(root, d));
        lemma_picked_more(all, existing(root, d, flags), keep);
    }
}

/// A tool is detected in a project exactly if something is seen of one of its
/// patterns, by the letter or by glob. What is reported are all patterns of
/// which something is seen, and the places of all path fields whose files
/// exist, and no others, each in the order of the definition.
pub proof fn lemma_detection_is_exact(root: Seq<char>, tool: ToolView, sight: ToolSight)
    requires
        sight.patterns@.len() == tool.session_patterns.len(),
        sight.files@.len() == tool.path_fields.len(),
    ensures
        detected(root, tool, sight) is Some <==> exists|i: int|
            0 <= i < tool.session_patterns.len() && ((#[trigger] sight.patterns@[i]).exists
                || sight.patterns@[i].globbed),
        detected(root, tool, sight) matches Some(d) ==> {
            &&& d.tool_name == tool.name
            &&& d.display_name == tool.display_name
            &&& forall|i: int|
                0 <= i < tool.session_patterns.len() && (sight.patterns@[i].exists
                    || sight.patterns@[i].globbed) ==> d.matched_patterns.contains(
                    #[trigger] tool.session_patterns[i],
                )
            &&& forall|p: Seq<char>| #[trigger]
                d.matched_patterns.contains(p) ==> exists|i: int|
                    0 <= i < tool.session_patterns.len() && (sight.patterns@[i].exists
                        || sight.patterns@[i].globbed) && #[trigger] tool.session_patterns[i] == p
            &&& picked(
                tool.session_patterns,
                d.matched_patterns,
                |i: int| sight.patterns@[i].exists || sight.patterns@[i].globbed,
            )
            &&& forall|i: int|
                0 <= i < tool.path_fields.len() && sight.files@[i] ==> d.artifact_files.contains(
                    joined(root, (#[trigger] tool.path_fields[i]).file),
                )
            &&& forall|p: Seq<char>| #[trigger]
                d.artifact_files.contains(p) ==> exists|i: int|
                    0 <= i < tool.path_fields.len() && sight.files@[i] && joined(
                        root,
                        (#[trigger] tool.path_fields[i]).file,
                    ) == p
            &&& picked(
                field_places(root, tool.path_fields),
                d.artifact_files,
                |i: int| sight.files@[i],
            )
        },
{
    let ps = tool.session_patterns;
    let m = matching(ps, sight.patterns@);
    let keep = |i: int| sight.patterns@[i].exists || sight.patterns@[i].globbed;
    lemma_matching_picks(ps, sight.patterns@);
    lemma_picked(ps, m, keep);
    if detected(root, tool, sight) is Some {
        let i = choose|i: int| 0 <= i < ps.len() && #[trigger] keep(i);
        assert(sight.patterns@[i].exists || sight.patterns@[i].globbed);
    }
    if exists|i: int|
        0 <= i < ps.len() && ((#[trigger] sight.patterns@[i]).exists
            || sight.patterns@[i].globbed) {
        let i = choose|i: int|
            0 <= i < ps.len() && ((#[trigger] sight.patterns@[i]).exists
                || sight.patterns@[i].globbed);
        assert(keep(i));
    }
    if let Some(d) = detected(root, tool, sight) {
        let fs = tool.path_fields;
        let all = field_places(root, fs);
        let flag = |i: int| sight.files@[i];
        lemma_existing_picks(root, fs, sight.files@);
        lemma_picked(all, d.artifact_files, flag);
        assert forall|i: int| 0 <= i < fs.len() && sight.files@[i] implies d.artifact_files.contains(
            joined(root, (#[trigger] fs[i]).file),
        ) by {
            assert(flag(i) && all[i] == joined(root, fs[i].file));
        }
        assert forall|p: Seq<char>| #[trigger] d.artifact_files.contains(p) implies exists|i: int|
            0 <= i < fs.len() && sight.files@[i] && joined(root, (#[trigger] fs[i]).file) == p by {
            let i = choose|i: int| 0 <= i < all.len() && flag(i) && #[trigger] all[i] == p;
            assert(joined(root, fs[i].file) == p);
        }
        assert forall|p: Seq<char>| #[trigger] d.matched_patterns.contains(p) implies exists|i: int|
            0 <= i < ps.len() && (sight.patterns@[i].exists || sight.patterns@[i].globbed)
                && #[trigger] ps[i] == p by {
            let i = choose|i: int| 0 <= i < ps.len() && keep(i) && #[trigger] ps[i] == p;
            assert(ps[i] == p);
        }
        assert forall|i: int|
            0 <= i < ps.len() && (sight.patterns@[i].exists
                || sight.patterns@[i].globbed) implies d.matched_patterns.contains(
            #[trigger] ps[i],
        ) by {
            assert(keep(i));
        }
    }
}

/// What is detected of each tool, as a list of the same length.
pub open spec fn each_detected(
    root: Seq<char>,
    tools: Seq<ToolView>,
    sights: Seq<ToolSight>,
) -> Seq<DetectionView> {
    Seq::new(tools.len(), |i: int| detected(root, tools[i], sights[i])->0)
}

/// Something is seen of a pattern.
pub open spec fn any_seen(sights: Seq<PatternSight>) -> bool {
    exists|i: int|
        0 <= i < sights.len() && ((#[trigger] sights[i]).exists || sights[i].globbed)
}

/// A project's tools are all those of which something is seen in it, in the
/// order of the registry.
pub proof fn lemma_all_tools_are_detected(
    root: Seq<char>,
    tools: Seq<ToolView>,
    sights: Seq<ToolSight>,
)
    requires
        sights.len() >= tools.len(),
        forall|i: int|
            0 <= i < tools.len() ==> (#[trigger] sights[i]).patterns@.len()
                == tools[i].session_patterns.len() && sights[i].files@.len()
                == tools[i].path_fields.len(),
    ensures
        picked(
            each_detected(root, tools, sights),
            all_detected(root, tools, sights),
            |i: int| any_seen(sights[i].patterns@),
        ),
        all_detected(root, tools, sights).len() > 0 <==> exists|i: int|
            0 <= i < tools.len() && any_seen((#[trigger] sights[i]).patterns@),
    decreases tools.len(),
{
    let keep = |i: int| any_seen(sights[i].patterns@);
    let all = each_detected(root, tools, sights);
    let out = all_detected(root, tools, sights);
    if tools.len() == 0 {
        lemma_picked_none(all, out, keep);
    } else {
        let d = tools.drop_last();
        let n = tools.len() - 1;
        assert(forall|i: int| 0 <= i < d.len() ==> #[trigger] d[i] == tools[i]);
        lemma_all_tools_are_detected(root, d, sights);
        assert(all.drop_last() =~= each_detected(root, d, sights));
        lemma_picked_more(all, all_detected(root, d, sights), keep);
        assert(sights[n].patterns@.len() == tools[n].session_patterns.len());
        lemma_detection_is_exact(root, tools[n], sights[n]);
    }
    lemma_picked(all, out, keep);
    if out.len() > 0 {
        let i = choose|i: int| 0 <= i < tools.len() && #[trigger] keep(i);
        assert(any_seen(sights[i].patterns@));
    }
    if exists|i: int| 0 <= i < tools.len() && any_seen((#[trigger] sights[i]).patterns@) {
        let i = choose|i: int| 0 <= i < tools.len() && any_seen((#[trigger] sights[i]).patterns@);
        assert(keep(i));
    }
}

/// A directory by its name: dependencies, build trees and application state are
/// never searched, nor is what is hidden; everything else is.
pub proof fn lemma_skipped_names(base: Seq<char>, name: Seq<char>)
    requires
        base.len() > 0,
        name.len() > 0,
        !name.contains('/'),
        name != seq!['.'],
        name != seq!['.', '.'],
    ensures
        skippable(joined(base, name)) <==> (name[0] == '.' || name == "node_modules"@ || name
            == "target"@ || name == "vendor"@ || name == "__pycache__"@ || name == "dist"@ || name
            == "build"@ || name == "Library"@),
{
    reveal_strlit(".");
    lemma_joined_name(base, name);
    let c = comps(joined(base, name));
    assert(c.last() == name);
    if name =~= seq!['/'] {
        assert(name[0] == '/');
        assert(name.contains('/'));
    }
    assert(last_name(joined(base, name)) == Some(name));
    assert(begins(name, "."@) == (name[0] == '.')) by {
        if name[0] == '.' {
            assert(name.subrange(0, 1) =~= "."@);
        } else if begins(name, "."@) {
            assert(name.subrange(0, 1)[0] == "."@[0]);
        }
    }
}

/// Where the entries of a directory lie, and how deep.
pub open spec fn entry_places(dir: Seq<char>, depth: nat, children: Seq<(Seq<char>, bool)>) -> Seq<
    (Seq<char>, nat),
> {
    Seq::new(children.len(), |i: int| (joined(dir, children[i].0), depth))
}

proof fn lemma_pushed_picks(
    stack: Seq<(Seq<char>, nat)>,
    dir: Seq<char>,
    depth: nat,
    children: Seq<(Seq<char>, bool)>,
)
    ensures
        stack.is_prefix_of(pushed(stack, dir, depth, children)),
        picked(
            entry_places(dir, depth, children),
            pushed(stack, dir, depth, children).skip(stack.len() as int),
            |i: int| children[i].1 && !skippable(joined(dir, children[i].0)),
        ),
    decreases children.len(),
{
    let keep = |i: int| children[i].1 && !skippable(joined(dir, children[i].0));
    let all = entry_places(dir, depth, children);
    let out = pushed(stack, dir, depth, children);
    let n = stack.len() as int;
    if children.len() == 0 {
        lemma_picked_none(all, out.skip(n), keep);
        assert(stack =~= out.subrange(0, n));
    } else {
        let d = children.drop_last();
        let rest = pushed(stack, dir, depth, d);
        lemma_pushed_picks(stack, dir, depth, d);
        assert(all.drop_last() =~= entry_places(dir, depth, d));
        let kept = |i: int| d[i].1 && !skippable(joined(dir, d[i].0));
        lemma_same_choice(all.drop_last(), rest.skip(n), kept, keep);
        lemma_picked_more(all, rest.skip(n), keep);
        assert(stack =~= rest.subrange(0, n));
        assert(out.subrange(0, n) =~= stack);
        if keep(children.len() - 1) {
            assert(out.skip(n) =~= rest.skip(n).push(all.last()));
        }
    }
}

/// The home directory is at the directory, or in it.
pub open spec fn holds_home(dir: Seq<char>, home: Option<Seq<char>>) -> bool {
    home matches Some(h) && comps(dir).len() <= comps(h).len() && comps(h).take(
        comps(dir).len() as int,
    ) == comps(dir)
}

/// Visiting a directory takes that directory from those that are to be visited
/// and no other, as long as there are not too many. It is counted as a project
/// exactly if it has artifacts and the home directory is not in it; if it is
/// not counted, and not too deep, those of its entries that are directories and
/// not to be skipped come on top.
pub proof fn lemma_visit_keeps_the_others(
    w: ProjectWalkView,
    has_artifacts: bool,
    children: Seq<(Seq<char>, bool)>,
)
    requires
        w.stack.len() > 0,
        w.visited < 50_000,
    ensures
        ({
            let v = w.visited(has_artifacts, children);
            let (dir, depth) = w.stack.last();
            let others = w.stack.drop_last();
            let project = has_artifacts && !holds_home(dir, w.home);
            let more = v.stack.skip(others.len() as int);
            &&& others.is_prefix_of(v.stack)
            &&& v.visited == w.visited + 1
            &&& v.truncated == w.truncated
            &&& v.max_depth == w.max_depth
            &&& v.home == w.home
            &&& project ==> v.found == w.found.push(dir) && more.len() == 0
            &&& !project ==> v.found == w.found
            &&& !project && depth >= w.max_depth ==> more.len() == 0
            &&& !project && depth < w.max_depth ==> picked(
                entry_places(dir, depth + 1, children),
                more,
                |i: int| children[i].1 && !skippable(joined(dir, children[i].0)),
            )
        }),
{
    let v = w.visited(has_artifacts, children);
    let (dir, depth) = w.stack.last();
    let others = w.stack.drop_last();
    lemma_pushed_picks(others, dir, depth + 1, children);
    assert(others =~= others.subrange(0, others.len() as int));
    if let Some(h) = w.home {
        let n = comps(dir).len() as int;
        if comps(dir).is_prefix_of(comps(h)) {
            assert(comps(h).take(n) =~= comps(dir));
        } else if n <= comps(h).len() && comps(h).take(n) == comps(dir) {
            assert(comps(dir) =~= comps(h).subrange(0, n));
        }
    }
}

/// Too many directories end the walk, and it says so; what was found stays.
pub proof fn lemma_walk_ends_at_the_cap(
    w: ProjectWalkView,
    has_artifacts: bool,
    children: Seq<(Seq<char>, bool)>,
)
    requires
        w.stack.len() > 0,
        w.visited >= 50_000,
    ensures
        w.visited(has_artifacts, children).truncated,
        w.visited(has_artifacts, children).stack.len() == 0,
        w.visited(has_artifacts, children).found == w.found,
{
}

/// A tree of directories: which of them have artifacts, and what is in each.
pub struct Tree {
    pub artifacts: spec_fn(Seq<char>) -> bool,
    pub children: spec_fn(Seq<char>) -> Seq<(Seq<char>, bool)>,
}

/// The walk after `n` directories of a tree.
pub open spec fn walked(tree: Tree, w: ProjectWalkView, n: nat) -> ProjectWalkView
    decreases n,
{
    if n == 0 {
        w
    } else {
        let v = walked(tree, w, (n - 1) as nat);
        let dir = v.stack.last().0;
        v.visited((tree.artifacts)(dir), (tree.children)(dir))
    }
}

/// The directory was visited, so deep, as the `k`-th of the walk.
pub open spec fn visited_at(
    tree: Tree,
    w: ProjectWalkView,
    k: nat,
    dir: Seq<char>,
    depth: nat,
) -> bool {
    walked(tree, w, k).stack.len() > 0 && walked(tree, w, k).stack.last() == (dir, depth)
}

/// The directory was visited, so deep, among the first `n`.
pub open spec fn reached(tree: Tree, w: ProjectWalkView, n: nat, dir: Seq<char>, depth: nat) -> bool {
    exists|k: nat| k < n && #[trigger] visited_at(tree, w, k, dir, depth)
}

/// The walk has gone on for `n` directories, and was not cut short.
pub open spec fn goes_on(tree: Tree, w: ProjectWalkView, n: nat) -> bool {
    &&& w.visited + n <= 50_000
    &&& forall|k: nat| k < n ==> (#[trigger] walked(tree, w, k)).stack.len() > 0
}

proof fn lemma_walked_so_far(tree: Tree, w: ProjectWalkView, n: nat, k: nat)
    requires
        goes_on(tree, w, n),
        k <= n,
    ensures
        walked(tree, w, k).visited == w.visited + k,
        walked(tree, w, k).truncated == w.truncated,
        walked(tree, w, k).max_depth == w.max_depth,
        walked(tree, w, k).home == w.home,
    decreases k,
{
    if k > 0 {
        let j = (k - 1) as nat;
        lemma_walked_so_far(tree, w, n, j);
        let v = walked(tree, w, j);
        let dir = v.stack.last().0;
        lemma_visit_keeps_the_others(v, (tree.artifacts)(dir), (tree.children)(dir));
    }
}

/// What is to be visited is visited before the walk is over.
proof fn lemma_turn_comes(tree: Tree, w: ProjectWalkView, n: nat, k: nat, i: int)
    requires
        goes_on(tree, w, n),
        walked(tree, w, n).stack.len() == 0,
        k <= n,
        0 <= i < walked(tree, w, k).stack.len(),
    ensures
        ({
            let (dir, depth) = walked(tree, w, k).stack[i];
            reached(tree, w, n, dir, depth)
        }),
    decreases n - k,
{
    let v = walked(tree, w, k);
    let (dir, depth) = v.stack[i];
    if i == v.stack.len() - 1 {
        assert(visited_at(tree, w, k, dir, depth));
    } else {
        let top = v.stack.last().0;
        lemma_walked_so_far(tree, w, n, k);
        lemma_visit_keeps_the_others(v, (tree.artifacts)(top), (tree.children)(top));
        let next = walked(tree, w, k + 1);
        assert(next == v.visited((tree.artifacts)(top), (tree.children)(top)));
        let others = v.stack.drop_last();
        assert(others =~= next.stack.subrange(0, others.len() as int));
        assert(next.stack[i] == others[i]);
        lemma_turn_comes(tree, w, n, k + 1, i);
    }
}

/// What was found stays found.
proof fn lemma_found_stays(tree: Tree, w: ProjectWalkView, n: nat, k: nat, p: Seq<char>)
    requires
        goes_on(tree, w, n),
        k <= n,
        walked(tree, w, k).found.contains(p),
    ensures
        walked(tree, w, n).found.contains(p),
    decreases n - k,
{
    if k < n {
        let v = walked(tree, w, k);
        let top = v.stack.last().0;
        lemma_walked_so_far(tree, w, n, k);
        lemma_visit_keeps_the_others(v, (tree.artifacts)(top), (tree.children)(top));
        let next = walked(tree, w, k + 1);
        assert(next == v.visited((tree.artifacts)(top), (tree.children)(top)));
        let i = choose|i: int| 0 <= i < v.found.len() && v.found[i] == p;
        assert(next.found[i] == p);
        lemma_found_stays(tree, w, n, k + 1, p);
    }
}

/// A project that was found was visited, and has artifacts.
proof fn lemma_found_was_visited(tree: Tree, w: ProjectWalkView, n: nat, k: nat)
    requires
        w.found.len() == 0,
        goes_on(tree, w, n),
        k <= n,
    ensures
        forall|i: int|
            0 <= i < walked(tree, w, k).found.len() ==> {
                let p = #[trigger] walked(tree, w, k).found[i];
                &&& (tree.artifacts)(p)
                &&& !holds_home(p, w.home)
                &&& exists|depth: nat| #[trigger] reached(tree, w, n, p, depth)
            },
    decreases k,
{
    if k > 0 {
        let j = (k - 1) as nat;
        let v = walked(tree, w, j);
        let (top, depth) = v.stack.last();
        lemma_found_was_visited(tree, w, n, j);
        lemma_walked_so_far(tree, w, n, j);
        lemma_visit_keeps_the_others(v, (tree.artifacts)(top), (tree.children)(top));
        let now = walked(tree, w, k);
        assert forall|i: int| 0 <= i < now.found.len() implies {
            let p = #[trigger] now.found[i];
            &&& (tree.artifacts)(p)
            &&& !holds_home(p, w.home)
            &&& exists|depth: nat| #[trigger] reached(tree, w, n, p, depth)
        } by {
            if i < v.found.len() {
                assert(now.found[i] == v.found[i]);
            } else {
                assert(visited_at(tree, w, j, top, depth));
                assert(reached(tree, w, n, top, depth));
            }
        }
    }
}

/// A walk that is over, and was not cut short, has visited the directory that
/// it began with and, for every directory that it visited, that is no project
/// and not too deep, all directories in it that are not to be skipped. The
/// projects that it found are those of the visited directories that have
/// artifacts and do not hold the home directory.
pub proof fn lemma_walk_reaches_everything(
    tree: Tree,
    root: Seq<char>,
    max_depth: nat,
    home: Option<Seq<char>>,
    n: nat,
)
    requires
        ({
            let w = ProjectWalkView {
                stack: seq![(root, 0nat)],
                visited: 0,
                found: seq![],
                truncated: false,
                max_depth,
                home,
            };
            goes_on(tree, w, n) && walked(tree, w, n).stack.len() == 0
        }),
    ensures
        ({
            let w = ProjectWalkView {
                stack: seq![(root, 0nat)],
                visited: 0,
                found: seq![],
                truncated: false,
                max_depth,
                home,
            };
            let found = walked(tree, w, n).found;
            &&& !walked(tree, w, n).truncated
            &&& reached(tree, w, n, root, 0)
            &&& forall|dir: Seq<char>, depth: nat, i: int|
                #![trigger reached(tree, w, n, dir, depth), (tree.children)(dir)[i]]
                reached(tree, w, n, dir, depth) && depth < max_depth && !((tree.artifacts)(dir)
                    && !holds_home(dir, home)) && 0 <= i < (tree.children)(dir).len()
                    && (tree.children)(dir)[i].1 && !skippable(
                    joined(dir, (tree.children)(dir)[i].0),
                ) ==> reached(tree, w, n, joined(dir, (tree.children)(dir)[i].0), depth + 1)
            &&& forall|p: Seq<char>| #[trigger]
                found.contains(p) <==> (tree.artifacts)(p) && !holds_home(p, home) && exists|
                    depth: nat,
                | #[trigger]
                    reached(tree, w, n, p, depth)
        }),
{
    let w = ProjectWalkView {
        stack: seq![(root, 0nat)],
        visited: 0,
        found: seq![],
        truncated: false,
        max_depth,
        home,
    };
    let found = walked(tree, w, n).found;
    lemma_walked_so_far(tree, w, n, n);
    assert(walked(tree, w, 0) == w);
    lemma_turn_comes(tree, w, n, 0, 0);
    lemma_found_was_visited(tree, w, n, n);
    assert forall|dir: Seq<char>, depth: nat, i: int|
        #![trigger reached(tree, w, n, dir, depth), (tree.children)(dir)[i]]
        reached(tree, w, n, dir, depth) && depth < max_depth && !((tree.artifacts)(dir)
            && !holds_home(dir, home)) && 0 <= i < (tree.children)(dir).len() && (tree.children)(
            dir,
        )[i].1 && !skippable(joined(dir, (tree.children)(dir)[i].0)) implies reached(
        tree,
        w,
        n,
        joined(dir, (tree.children)(dir)[i].0),
        depth + 1,
    ) by {
        let k = choose|k: nat| k < n && #[trigger] visited_at(tree, w, k, dir, depth);
        let v = walked(tree, w, k);
        let cs = (tree.children)(dir);
        let keep = |i: int| cs[i].1 && !skippable(joined(dir, cs[i].0));
        lemma_walked_so_far(tree, w, n, k);
        lemma_visit_keeps_the_others(v, (tree.artifacts)(dir), cs);
        let next = walked(tree, w, k + 1);
        assert(next == v.visited((tree.artifacts)(dir), cs));
        let others = v.stack.drop_last();
        let more = next.stack.skip(others.len() as int);
        let all = entry_places(dir, depth + 1, cs);
        lemma_picked(all, more, keep);
        assert(keep(i));
        assert(more.contains(all[i]));
        let m = choose|m: int| 0 <= m < more.len() && more[m] == all[i];
        assert(next.stack[others.len() + m] == all[i]);
        lemma_turn_comes(tree, w, n, k + 1, others.len() + m);
    }
    assert forall|p: Seq<char>| #[trigger] found.contains(p) <==> (tree.artifacts)(p)
        && !holds_home(p, home) && exists|depth: nat| #[trigger] reached(tree, w, n, p, depth) by {
        if found.contains(p) {
            let i = choose|i: int| 0 <= i < found.len() && found[i] == p;
            assert(walked(tree, w, n).found[i] == p);
        }
        if (tree.artifacts)(p) && !holds_home(p, home) && exists|depth: nat| #[trigger]
            reached(tree, w, n, p, depth) {
            let depth = choose|depth: nat| #[trigger] reached(tree, w, n, p, depth);
            let k = choose|k: nat| k < n && #[trigger] visited_at(tree, w, k, p, depth);
            let v = walked(tree, w, k);
            lemma_walked_so_far(tree, w, n, k);
            lemma_visit_keeps_the_others(v, (tree.artifacts)(p), (tree.children)(p));
            let next = walked(tree, w, k + 1);
            assert(next == v.visited((tree.artifacts)(p), (tree.children)(p)));
            assert(next.found[v.found.len() as int] == p);
            lemma_found_stays(tree, w, n, k + 1, p);
        }
    }
}

/// A project below the home directory is watched by the top directory there
/// that holds it, unless that is hidden or holds application state; any other
/// by its parent or, where that is a mount level or holds the home directory,
/// by itself. The home directory and those above it are not watched.
pub proof fn lemma_root_is_the_top_directory(p: Seq<char>, home: Seq<char>)
    requires
        absolute(home),
    ensures
        ({
            let n = comps(home).len() as int;
            let inside = comps(p).len() > n && comps(p).take(n) == comps(home);
            let top = comps(p)[n];
            let kept = top[0] != '.' && top != "Library"@;
            &&& holds_home(p, Some(home)) ==> root_for(p, home) is None
            &&& inside ==> (root_for(p, home) is Some <==> kept)
            &&& inside && kept ==> comps(root_for(p, home)->0) == comps(home).push(top)
            &&& !inside && !holds_home(p, Some(home)) ==> (root_for(p, home) matches Some(r) && (
            r == p || (parent_of(p) == Some(r) && comps(r) == comps(p).drop_last())))
            &&& !inside && !holds_home(p, Some(home)) && (parent_of(p) matches Some(q)
                && !mount_level(q) && !holds_home(q, Some(home))) ==> root_for(p, home)
                == parent_of(p)
            &&& !inside && !holds_home(p, Some(home)) && (parent_of(p) matches Some(q) && (
            mount_level(q) || holds_home(q, Some(home)))) ==> root_for(p, home) == Some(p)
        }),
{
    reveal_strlit(".");
    let n = comps(home).len() as int;
    lemma_holds_home(p, home);
    lemma_parent(p);
    if let Some(q) = parent_of(p) {
        lemma_holds_home(q, home);
    }
    if comps(home).is_prefix_of(comps(p)) {
        assert(comps(p).take(n) =~= comps(home));
        if comps(p).len() == n {
            assert(comps(p) =~= comps(home));
            assert(comps(p) =~= comps(home).subrange(0, n));
        }
    }
    if comps(p).len() > n && comps(p).take(n) == comps(home) {
        let first = comps(p)[n];
        assert(comps(home) =~= comps(p).subrange(0, n));
        assert(comps(home)[0] == seq!['/']);
        assert(comps(p)[0] == comps(home)[0]);
        lemma_rooted(p);
        lemma_names_are_plain(p, n);
        lemma_joined_name(home, first);
        assert(begins(first, "."@) == (first[0] == '.')) by {
            if first[0] == '.' {
                assert(first.subrange(0, 1) =~= "."@);
            } else if begins(first, "."@) {
                assert(first.subrange(0, 1)[0] == "."@[0]);
            }
        }
    }
}

proof fn lemma_holds_home(dir: Seq<char>, home: Seq<char>)
    ensures
        holds_home(dir, Some(home)) == comps(dir).is_prefix_of(comps(home)),
{
    let n = comps(dir).len() as int;
    if comps(dir).is_prefix_of(comps(home)) {
        assert(comps(home).take(n) =~= comps(dir));
    } else if n <= comps(home).len() && comps(home).take(n) == comps(dir) {
        assert(comps(dir) =~= comps(home).subrange(0, n));
    }
}

/// The root, the directories of mounted volumes and of homes, and those of what
/// is temporary or varies are mount levels, and no others.
pub proof fn lemma_mount_levels(p: Seq<char>)
    ensures
        mount_level(p) <==> comps(p).len() == 0 || (comps(p).len() == 1 && p[0] == '/') || p
            == "/Volumes"@ || p == "/mnt"@ || p == "/media"@ || p == "/Users"@ || p == "/home"@
            || p == "/private"@ || p == "/tmp"@ || p == "/var"@,
{
    if comps(p).len() == 1 && p.len() == 0 {
        assert(crate::paths::spans(p, 0) =~= Seq::empty());
        assert(comps(p) =~= Seq::empty());
    }
}

} // verus!
