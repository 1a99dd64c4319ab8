//! What handling a move comes to for the projects that it carries.
use vstd::prelude::*;

use crate::daemon::{
    artifacts_in, artifacts_of, detected_in, event_step, pid_step, project_ops,
    projects_step, reconciles, registered_in, watch_candidates, EventReply, EventStepView, PidReply,
    PidStepView, ProjectOpView,
};
use crate::detector::{DetectionResult, DetectionView};
use crate::known::KeyPair;
use crate::paths::parent_of;
use crate::picks::{
    lemma_picked, lemma_picked_more, lemma_picked_none, lemma_same_choice, picked,
};
use crate::text::views;
use crate::tools::{lemma_position, lookup, position, ToolView};
use crate::watcher::EventView;

verus! {

/// A tool of this name is known.
pub open spec fn is_known(tools: Seq<ToolView>, name: Seq<char>) -> bool {
    exists|j: int| 0 <= j < tools.len() && (#[trigger] tools[j]).name == name
}

proof fn lemma_is_known(tools: Seq<ToolView>, name: Seq<char>)
    ensures
        lookup(tools, name) is Some <==> is_known(tools, name),
{
    lemma_position(tools, name);
    let k = position(tools, name);
    if k < tools.len() {
        assert(tools[k].name == name);
    }
}

/// Some of the results is of this tool, and it has this file.
pub open spec fn has_artifact(
    results: Seq<DetectionResult>,
    tool: Seq<char>,
    file: Seq<char>,
) -> bool {
    exists|k: int, x: int|
        0 <= k < results.len() && 0 <= x < results[k].artifact_files@.len()
            && results[k].tool_name@ == tool && (#[trigger] results[k].artifact_files@[x])@ == file
}

/// The replies are to a move, and the projects that it carries are these.
pub open spec fn carries(seen: Seq<EventReply>, pairs: Seq<KeyPair>) -> bool {
    &&& seen.len() >= 3
    &&& seen[0] == EventReply::Flag(true)
    &&& seen[1] matches EventReply::Known(p) && p@ == pairs
    &&& pairs.len() > 0
}

/// The project was looked at, at its new path, in step `at`, and there these
/// were found.
pub open spec fn looked_at(
    event: EventView,
    tools: Seq<ToolView>,
    seen: Seq<EventReply>,
    pair: KeyPair,
    at: int,
) -> bool {
    &&& 3 <= at < seen.len()
    &&& event_step(event, tools, seen.take(at)) == EventStepView::Detect {
        from: pair.first@,
        to: pair.second@,
    }
}

/// What was asked for as the step `m`.
pub open spec fn asked(
    event: EventView,
    tools: Seq<ToolView>,
    seen: Seq<EventReply>,
    m: int,
    op: ProjectOpView,
) -> bool {
    event_step(event, tools, seen.take(m)) == EventStepView::Do(op)
}

/// The operation is about a project that the move carries and that was looked
/// at in step `at`. Artifacts are rewritten from the project's recorded path to
/// the path at which they were detected, for a tool that was detected there and
/// is known. The new path is registered, with the artifacts that were detected
/// there, and the recorded one is forgotten; both only if the recorded path was
/// registered or something was detected.
pub open spec fn fits(
    op: ProjectOpView,
    tools: Seq<ToolView>,
    pair: KeyPair,
    reply: EventReply,
) -> bool {
    reply matches EventReply::Detected { results, registered } && match op {
        ProjectOpView::Reconcile { tool, from, to } => {
            &&& from == pair.first@
            &&& to == pair.second@
            &&& is_known(tools, tool)
            &&& exists|k: int| 0 <= k < results@.len() && (#[trigger] results@[k]).tool_name@ == tool
        },
        ProjectOpView::Register { path, artifacts } => {
            &&& path == pair.second@
            &&& registered || results@.len() > 0
            &&& forall|tool: Seq<char>, file: Seq<char>| #[trigger]
                artifacts.contains((tool, file)) <==> has_artifact(results@, tool, file)
        },
        ProjectOpView::Unregister { path } => {
            &&& path == pair.first@
            &&& registered || results@.len() > 0
        },
    }
}

/// The operation fits one of the projects.
pub open spec fn fits_one(
    event: EventView,
    tools: Seq<ToolView>,
    seen: Seq<EventReply>,
    pairs: Seq<KeyPair>,
    op: ProjectOpView,
    i: int,
    at: int,
) -> bool {
    &&& 0 <= i < pairs.len()
    &&& looked_at(event, tools, seen, pairs[i], at)
    &&& fits(op, tools, pairs[i], seen[at])
}

spec fn ops_at(
    ps: Seq<(Seq<char>, Seq<char>)>,
    tools: Seq<ToolView>,
    seen: Seq<EventReply>,
    i: int,
    at: int,
) -> Seq<ProjectOpView> {
    project_ops(detected_in(seen[at]), registered_in(seen[at]), tools, ps[i].0, ps[i].1)
}

/// Where the replies about the `i`-th project begin.
spec fn begin(
    ps: Seq<(Seq<char>, Seq<char>)>,
    tools: Seq<ToolView>,
    seen: Seq<EventReply>,
    i: int,
) -> int
    decreases i,
{
    if i <= 0 {
        3
    } else {
        let at = begin(ps, tools, seen, i - 1);
        at + 1 + ops_at(ps, tools, seen, i - 1, at).len()
    }
}

/// The begin of a project does not come before that of another before it.
proof fn lemma_begin(
    ps: Seq<(Seq<char>, Seq<char>)>,
    tools: Seq<ToolView>,
    seen: Seq<EventReply>,
    i: int,
    j: int,
)
    requires
        0 <= i <= j,
    ensures
        3 <= begin(ps, tools, seen, i) <= begin(ps, tools, seen, j),
        i < j ==> begin(ps, tools, seen, i) + 1 + ops_at(
            ps,
            tools,
            seen,
            i,
            begin(ps, tools, seen, i),
        ).len() <= begin(ps, tools, seen, j),
    decreases j,
{
    if i < j {
        lemma_begin(ps, tools, seen, i, j - 1);
    } else if i > 0 {
        lemma_begin(ps, tools, seen, i - 1, j - 1);
    }
}

/// The replies so far are past the projects before the `i`-th.
proof fn lemma_past(
    ps: Seq<(Seq<char>, Seq<char>)>,
    tools: Seq<ToolView>,
    seen: Seq<EventReply>,
    i: int,
    m: int,
)
    requires
        0 <= i <= ps.len(),
        begin(ps, tools, seen, i) <= m <= seen.len(),
    ensures
        projects_step(ps, 0, tools, seen.take(m), 3) == projects_step(
            ps,
            i,
            tools,
            seen.take(m),
            begin(ps, tools, seen, i),
        ),
    decreases i,
{
    if i > 0 {
        lemma_begin(ps, tools, seen, i - 1, i);
        lemma_past(ps, tools, seen, i - 1, m);
        let at = begin(ps, tools, seen, i - 1);
        assert(seen.take(m)[at] == seen[at]);
    }
}

/// An operation belongs to one of the projects from the `i`-th on.
proof fn lemma_whose(
    ps: Seq<(Seq<char>, Seq<char>)>,
    tools: Seq<ToolView>,
    seen: Seq<EventReply>,
    i: int,
) -> (j: int)
    requires
        0 <= i <= ps.len(),
        begin(ps, tools, seen, i) <= seen.len(),
        projects_step(ps, i, tools, seen, begin(ps, tools, seen, i)) is Do,
    ensures
        i <= j < ps.len(),
        ({
            let at = begin(ps, tools, seen, j);
            let ops = ops_at(ps, tools, seen, j, at);
            &&& 3 <= at < seen.len()
            &&& seen.len() - at - 1 < ops.len()
            &&& projects_step(ps, i, tools, seen, begin(ps, tools, seen, i)) == EventStepView::Do(
                ops[seen.len() - at - 1],
            )
        }),
    decreases ps.len() - i,
{
    let at = begin(ps, tools, seen, i);
    lemma_begin(ps, tools, seen, i, i);
    let ops = ops_at(ps, tools, seen, i, at);
    if seen.len() - at - 1 < ops.len() {
        i
    } else {
        lemma_whose(ps, tools, seen, i + 1)
    }
}

/// Once all is done, the replies are past all projects.
proof fn lemma_past_all(
    ps: Seq<(Seq<char>, Seq<char>)>,
    tools: Seq<ToolView>,
    seen: Seq<EventReply>,
    i: int,
)
    requires
        0 <= i <= ps.len(),
        begin(ps, tools, seen, i) <= seen.len(),
        projects_step(ps, i, tools, seen, begin(ps, tools, seen, i)) is Finished,
    ensures
        begin(ps, tools, seen, ps.len() as int) <= seen.len(),
        projects_step(ps, i, tools, seen, begin(ps, tools, seen, i)) == EventStepView::Finished(ps),
    decreases ps.len() - i,
{
    if i < ps.len() {
        lemma_past_all(ps, tools, seen, i + 1);
    }
}

/// What rewriting would be asked for, for each tool that was detected.
spec fn each_reconcile(detected: Seq<DetectionView>, from: Seq<char>, to: Seq<char>) -> Seq<
    ProjectOpView,
> {
    Seq::new(
        detected.len(),
        |k: int| ProjectOpView::Reconcile { tool: detected[k].tool_name, from, to },
    )
}

proof fn lemma_reconciles_pick(
    detected: Seq<DetectionView>,
    tools: Seq<ToolView>,
    from: Seq<char>,
    to: Seq<char>,
)
    ensures
        picked(
            each_reconcile(detected, from, to),
            reconciles(detected, tools, from, to),
            |k: int| is_known(tools, detected[k].tool_name),
        ),
    decreases detected.len(),
{
    let keep = |k: int| is_known(tools, detected[k].tool_name);
    let all = each_reconcile(detected, from, to);
    let out = reconciles(detected, tools, from, to);
    if detected.len() == 0 {
        lemma_picked_none(all, out, keep);
    } else {
        let d = detected.drop_last();
        lemma_reconciles_pick(d, tools, from, to);
        let kept = |k: int| is_known(tools, d[k].tool_name);
        assert(all.drop_last() =~= each_reconcile(d, from, to));
        let rest = reconciles(d, tools, from, to);
        lemma_same_choice(all.drop_last(), rest, kept, keep);
        lemma_picked_more(all, rest, keep);
        lemma_is_known(tools, detected.last().tool_name);
    }
}

proof fn lemma_artifacts(results: Seq<DetectionResult>)
    ensures
        forall|tool: Seq<char>, file: Seq<char>| #[trigger]
            artifacts_of(views(results)).contains((tool, file)) <==> has_artifact(
                results,
                tool,
                file,
            ),
    decreases results.len(),
{
    let all = artifacts_of(views(results));
    if results.len() > 0 {
        let d = results.drop_last();
        let n = results.len() - 1;
        let last = results[n];
        lemma_artifacts(d);
        assert(views(results).drop_last() =~= views(d));
        let rest = artifacts_of(views(d));
        let more = artifacts_in(last@.tool_name, last@.artifact_files);
        assert(all == rest + more);
        assert forall|tool: Seq<char>, file: Seq<char>| #[trigger]
            all.contains((tool, file)) <==> has_artifact(results, tool, file) by {
            if all.contains((tool, file)) {
                let i = choose|i: int| 0 <= i < all.len() && all[i] == (tool, file);
                if i < rest.len() {
                    assert(rest[i] == (tool, file));
                    assert(rest.contains((tool, file)));
                    let (k, x) = choose|k: int, x: int|
                        0 <= k < d.len() && 0 <= x < d[k].artifact_files@.len()
                            && d[k].tool_name@ == tool && (#[trigger] d[k].artifact_files@[x])@
                            == file;
                    assert(results[k] == d[k]);
                    assert(results[k].artifact_files@[x]@ == file);
                } else {
                    let x = i - rest.len();
                    assert(more[x] == (tool, file));
                    assert(results[n].artifact_files@[x]@ == file);
                }
            }
            if has_artifact(results, tool, file) {
                let (k, x) = choose|k: int, x: int|
                    0 <= k < results.len() && 0 <= x < results[k].artifact_files@.len()
                        && results[k].tool_name@ == tool && (
                    #[trigger] results[k].artifact_files@[x])@ == file;
                if k < n {
                    assert(d[k] == results[k]);
                    assert(d[k].artifact_files@[x]@ == file);
                    assert(has_artifact(d, tool, file));
                    assert(rest.contains((tool, file)));
                    let i = choose|i: int| 0 <= i < rest.len() && rest[i] == (tool, file);
                    assert(all[i] == (tool, file));
                } else {
                    assert(more[x] == (tool, file));
                    assert(all[rest.len() + x] == (tool, file));
                }
            }
        }
    } else {
        assert(views(results).len() == 0);
        assert(all.len() == 0);
    }
}

/// Whatever handling a move asks to be done in a project fits one of the
/// projects that the move was said to carry: the roles of its recorded path and
/// of its new path are never exchanged, nor those of one project with those of
/// another.
pub proof fn lemma_projects_keep_their_roles(
    event: EventView,
    tools: Seq<ToolView>,
    seen: Seq<EventReply>,
    op: ProjectOpView,
)
    requires
        event_step(event, tools, seen) == EventStepView::Do(op),
    ensures
        event matches EventView::Moved { from: Some(_), to: Some(_) },
        seen.len() > 3,
        seen[0] == EventReply::Flag(true),
        seen[1] matches EventReply::Known(pairs) && carries(seen, pairs@) && exists|
            i: int,
            at: int,
        | #[trigger]
            fits_one(event, tools, seen, pairs@, op, i, at),
{
    let pairs = seen[1]->Known_0@;
    let ps = views(pairs);
    let i = lemma_whose(ps, tools, seen, 0);
    let at = begin(ps, tools, seen, i);
    let (from, to) = ps[i];
    assert(ps[i] == pairs[i]@);
    lemma_past(ps, tools, seen, i, at);
    assert(seen.take(at)[0] == seen[0] && seen.take(at)[1] == seen[1]);
    let found = detected_in(seen[at]);
    let list = reconciles(found, tools, from, to);
    let n = seen.len() - at - 1;
    let keep = |k: int| is_known(tools, found[k].tool_name);
    let all = each_reconcile(found, from, to);
    lemma_reconciles_pick(found, tools, from, to);
    lemma_picked(all, list, keep);
    assert(seen[at] is Detected);
    let results = seen[at]->results@;
    assert(found == views(results));
    if n < list.len() {
        assert(list.contains(list[n]));
        let k = choose|k: int| 0 <= k < all.len() && keep(k) && #[trigger] all[k] == list[n];
        assert(results[k].tool_name@ == found[k].tool_name);
    } else {
        lemma_artifacts(results);
    }
    assert(fits_one(event, tools, seen, pairs, op, i, at));
}

/// Everything that is due to a project was asked for, in steps after `at`: for
/// each tool that was detected and is known the rewriting of its artifacts, and
/// after these, if the recorded path was registered or anything was detected,
/// that the new path is registered and then the recorded one forgotten.
pub open spec fn all_due(
    event: EventView,
    tools: Seq<ToolView>,
    seen: Seq<EventReply>,
    pair: KeyPair,
    at: int,
) -> bool {
    seen[at] matches EventReply::Detected { results, registered } ==> {
        &&& forall|k: int|
            0 <= k < results@.len() && is_known(tools, (#[trigger] results@[k]).tool_name@)
                ==> exists|m: int|
                at < m < seen.len() && #[trigger] asked(
                    event,
                    tools,
                    seen,
                    m,
                    ProjectOpView::Reconcile {
                        tool: results@[k].tool_name@,
                        from: pair.first@,
                        to: pair.second@,
                    },
                )
        &&& registered || results@.len() > 0 ==> exists|m: int| #[trigger]
            replaced_in_registry(event, tools, seen, pair, at, m)
    }
}

/// In the steps `m` and after it the new path is registered and the recorded
/// one forgotten; the artifacts were all rewritten before.
pub open spec fn replaced_in_registry(
    event: EventView,
    tools: Seq<ToolView>,
    seen: Seq<EventReply>,
    pair: KeyPair,
    at: int,
    m: int,
) -> bool {
    &&& at < m
    &&& m + 1 < seen.len()
    &&& event_step(event, tools, seen.take(m)) matches EventStepView::Do(op) && (
    op matches ProjectOpView::Register { path, .. } && path == pair.second@)
    &&& asked(event, tools, seen, m + 1, ProjectOpView::Unregister { path: pair.first@ })
    &&& forall|x: int| at < x < m ==> (#[trigger] event_step(
        event,
        tools,
        seen.take(x),
    ) matches EventStepView::Do(op) && op is Reconcile)
}

/// The project was looked at, and all that is due to it was asked for.
pub open spec fn was_handled(
    event: EventView,
    tools: Seq<ToolView>,
    seen: Seq<EventReply>,
    pair: KeyPair,
) -> bool {
    exists|at: int| #[trigger]
        looked_at(event, tools, seen, pair, at) && all_due(event, tools, seen, pair, at)
}

/// When a move is done with, every project that it carries was looked at, and
/// all that is due to it was asked for; and each is then known at its new path.
pub proof fn lemma_every_project_is_handled(
    event: EventView,
    tools: Seq<ToolView>,
    seen: Seq<EventReply>,
    pairs: Seq<KeyPair>,
)
    requires
        event matches EventView::Moved { from: Some(_), to: Some(_) },
        carries(seen, pairs),
        event_step(event, tools, seen) is Finished,
    ensures
        event_step(event, tools, seen) matches EventStepView::Finished(list) && list.len()
            == pairs.len() && forall|i: int|
            0 <= i < pairs.len() ==> #[trigger] list[i] == (pairs[i].first@, pairs[i].second@),
        event_step(event, tools, seen.take(2)) matches EventStepView::Rekey { pairs: list }
            && list.len() == pairs.len() && forall|i: int|
            0 <= i < pairs.len() ==> #[trigger] list[i] == (pairs[i].first@, pairs[i].second@),
        forall|i: int|
            0 <= i < pairs.len() ==> was_handled(event, tools, seen, #[trigger] pairs[i]),
{
    let ps = views(pairs);
    lemma_past_all(ps, tools, seen, 0);
    assert(seen.take(2)[0] == seen[0] && seen.take(2)[1] == seen[1]);
    assert forall|i: int| 0 <= i < pairs.len() implies was_handled(
        event,
        tools,
        seen,
        #[trigger] pairs[i],
    ) by {
        lemma_one_project_is_handled(event, tools, seen, pairs, i);
    }
}

proof fn lemma_one_project_is_handled(
    event: EventView,
    tools: Seq<ToolView>,
    seen: Seq<EventReply>,
    pairs: Seq<KeyPair>,
    i: int,
)
    requires
        event matches EventView::Moved { from: Some(_), to: Some(_) },
        carries(seen, pairs),
        begin(views(pairs), tools, seen, pairs.len() as int) <= seen.len(),
        0 <= i < pairs.len(),
    ensures
        looked_at(event, tools, seen, pairs[i], begin(views(pairs), tools, seen, i)),
        all_due(event, tools, seen, pairs[i], begin(views(pairs), tools, seen, i)),
{
    let ps = views(pairs);
    let at = begin(ps, tools, seen, i);
    let (from, to) = ps[i];
    assert(ps[i] == pairs[i]@);
    lemma_begin(ps, tools, seen, i, i);
    lemma_begin(ps, tools, seen, i, pairs.len() as int);
    assert(forall|m: int| 3 <= m <= seen.len() ==> (#[trigger] seen.take(m))[0] == seen[0]
        && seen.take(m)[1] == seen[1]);
    lemma_past(ps, tools, seen, i, at);
    let ops = ops_at(ps, tools, seen, i, at);
    assert forall|m: int| at < m <= at + ops.len() implies #[trigger] event_step(
        event,
        tools,
        seen.take(m),
    ) == EventStepView::Do(ops[m - at - 1]) by {
        lemma_past(ps, tools, seen, i, m);
        assert(seen.take(m)[at] == seen[at]);
    }
    if seen[at] is Detected {
        let results = seen[at]->results@;
        let found = detected_in(seen[at]);
        let list = reconciles(found, tools, from, to);
        let keep = |k: int| is_known(tools, found[k].tool_name);
        let all = each_reconcile(found, from, to);
        lemma_reconciles_pick(found, tools, from, to);
        lemma_picked(all, list, keep);
        assert forall|k: int|
            0 <= k < results.len() && is_known(
                tools,
                (#[trigger] results[k]).tool_name@,
            ) implies exists|m: int|
            at < m < seen.len() && #[trigger] asked(
                event,
                tools,
                seen,
                m,
                ProjectOpView::Reconcile { tool: results[k].tool_name@, from, to },
            ) by {
            assert(keep(k));
            assert(list.contains(all[k]));
            let x = choose|x: int| 0 <= x < list.len() && list[x] == all[k];
            let m = at + 1 + x;
            assert(ops[x] == all[k]);
            assert(asked(
                event,
                tools,
                seen,
                m,
                ProjectOpView::Reconcile { tool: results[k].tool_name@, from, to },
            ));
        }
        if registered_in(seen[at]) || results.len() > 0 {
            let m = at + 1 + list.len();
            assert forall|x: int| at < x < m implies (#[trigger] event_step(
                event,
                tools,
                seen.take(x),
            ) matches EventStepView::Do(op) && op is Reconcile) by {
                let y = x - at - 1;
                assert(ops[y] == list[y]);
                assert(list.contains(list[y]));
                let k = choose|k: int| 0 <= k < all.len() && keep(k) && #[trigger] all[k] == list[y];
            }
            assert(replaced_in_registry(event, tools, seen, pairs[i], at, m));
        }
    }
}

/// The directories that may be watched are those that are configured and the
/// parents of the registered projects, and no others.
pub proof fn lemma_watch_candidates(roots: Seq<Seq<char>>, projects: Seq<Seq<char>>)
    ensures
        forall|i: int|
            0 <= i < roots.len() ==> watch_candidates(roots, projects).contains(
                #[trigger] roots[i],
            ),
        forall|i: int|
            0 <= i < projects.len() ==> (parent_of(#[trigger] projects[i]) matches Some(p)
                ==> watch_candidates(roots, projects).contains(p)),
        forall|p: Seq<char>| #[trigger]
            watch_candidates(roots, projects).contains(p) ==> roots.contains(p) || exists|i: int|
                0 <= i < projects.len() && parent_of(#[trigger] projects[i]) == Some(p),
    decreases projects.len(),
{
    let all = watch_candidates(roots, projects);
    if projects.len() > 0 {
        let d = projects.drop_last();
        let n = projects.len() - 1;
        lemma_watch_candidates(roots, d);
        let rest = watch_candidates(roots, d);
        assert forall|p: Seq<char>| #[trigger] rest.contains(p) implies all.contains(p) by {
            let k = choose|k: int| 0 <= k < rest.len() && rest[k] == p;
            assert(all[k] == p);
        }
        assert forall|i: int| 0 <= i < roots.len() implies all.contains(#[trigger] roots[i]) by {
            assert(rest.contains(roots[i]));
        }
        assert forall|i: int| 0 <= i < projects.len() implies (parent_of(
            #[trigger] projects[i],
        ) matches Some(p) ==> all.contains(p)) by {
            if i < n {
                assert(d[i] == projects[i]);
            } else if let Some(p) = parent_of(projects[n]) {
                assert(all[rest.len() as int] == p);
            }
        }
        assert forall|p: Seq<char>| #[trigger] all.contains(p) implies roots.contains(p) || exists|
            i: int,
        |
            0 <= i < projects.len() && parent_of(#[trigger] projects[i]) == Some(p) by {
            let k = choose|k: int| 0 <= k < all.len() && all[k] == p;
            if k < rest.len() {
                assert(rest[k] == p);
                assert(rest.contains(p));
                if !roots.contains(p) {
                    let i = choose|i: int|
                        0 <= i < d.len() && parent_of(#[trigger] d[i]) == Some(p);
                    assert(projects[i] == d[i]);
                }
            } else {
                assert(parent_of(projects[n]) == Some(p));
            }
        }
    } else {
        assert forall|i: int| 0 <= i < roots.len() implies all.contains(#[trigger] roots[i]) by {
            assert(all[i] == roots[i]);
        }
    }
}

/// A move is first found out about: whether what is at the new path is a
/// directory, and then which projects it carries from the old path to the new
/// one. Nothing is done for what is no directory.
pub proof fn lemma_move_is_found_out_about(
    from: Seq<char>,
    to: Seq<char>,
    tools: Seq<ToolView>,
    seen: Seq<EventReply>,
)
    ensures
        ({
            let step = event_step(EventView::Moved { from: Some(from), to: Some(to) }, tools, seen);
            &&& step matches EventStepView::IsDir(p) ==> seen.len() == 0 && p == to
            &&& seen.len() == 0 ==> step is IsDir
            &&& step matches EventStepView::Known { from: f, to: t } ==> seen.len() == 1 && seen[0]
                == EventReply::Flag(true) && f == from && t == to
            &&& seen.len() == 1 && seen[0] == EventReply::Flag(true) ==> step is Known
            &&& seen.len() > 0 && seen[0] != EventReply::Flag(true) ==> (
            step matches EventStepView::Finished(list) && list.len() == 0)
            &&& step matches EventStepView::Rekey { pairs: list } ==> seen.len() == 2 && (
            seen[1] matches EventReply::Known(pairs) && list.len() == pairs@.len() && forall|
                i: int,
            |
                0 <= i < list.len() ==> #[trigger] list[i] == (
                    pairs@[i].first@,
                    pairs@[i].second@,
                ))
            &&& !(step is Vanished)
        }),
{
    let step = event_step(EventView::Moved { from: Some(from), to: Some(to) }, tools, seen);
    if seen.len() >= 3 {
        lemma_about_projects(views(seen[1]->Known_0@), 0, tools, seen, 3);
    }
    if let EventStepView::Rekey { pairs: list } = step {
        let pairs = seen[1]->Known_0@;
        assert(list == views(pairs));
        assert forall|i: int| 0 <= i < list.len() implies #[trigger] list[i] == (
            pairs[i].first@,
            pairs[i].second@,
        ) by {
            assert(list[i] == pairs[i]@);
        }
    }
}

proof fn lemma_about_projects(
    ps: Seq<(Seq<char>, Seq<char>)>,
    i: int,
    tools: Seq<ToolView>,
    seen: Seq<EventReply>,
    at: int,
)
    ensures
        ({
            let step = projects_step(ps, i, tools, seen, at);
            step is Do || step is Detect || step is Finished
        }),
    decreases ps.len() - i,
{
    if i < ps.len() && at < seen.len() {
        let ops = project_ops(
            detected_in(seen[at]),
            registered_in(seen[at]),
            tools,
            ps[i].0,
            ps[i].1,
        );
        if seen.len() - at - 1 >= ops.len() {
            lemma_about_projects(ps, i + 1, tools, seen, at + 1 + ops.len());
        }
    }
}

/// A PID file that is there is an obstacle only where it names another process
/// that is a daemon of this program; then nothing is removed. Any other is
/// removed, once, and created anew. Success is that the file was created.
pub proof fn lemma_pid_file_is_taken_over(seen: Seq<PidReply>, own: u32)
    ensures
        ({
            let held = seen.len() > 1 && (
            seen[1] matches PidReply::Holder { pid: Some(p), daemon } && daemon && p != own);
            let there = seen.len() > 0 && seen[0] is Exists;
            &&& pid_step(seen, own) is Create <==> seen.len() == 0 || (there && seen.len() == 3
                && !held)
            &&& pid_step(seen, own) is Inspect <==> there && seen.len() == 1
            &&& pid_step(seen, own) is Remove <==> there && seen.len() == 2 && !held
            &&& pid_step(seen, own) == PidStepView::Finished(Ok(())) <==> (seen.len() > 0
                && seen[0] is Created) || (there && seen.len() > 3 && !held && seen[3] is Created)
            &&& there && held ==> (pid_step(seen, own) matches PidStepView::Finished(r) && r is Err)
        }),
{
}

} // verus!
