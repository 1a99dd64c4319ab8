//! What a plan re-keys: from the old path to the new one, and nothing is missed.
use vstd::prelude::*;

use crate::activity::{NoOpReason, OutcomeView};
use crate::globs::{glob_match, is_pattern};
use crate::inventory::expanded;
use crate::paths::{joined, same_path};
use crate::picks::{
    lemma_picked, lemma_picked_more, lemma_picked_none, lemma_same_choice, picked, places,
};
use crate::rekey::all::{
    decision, in_course, report_of, store_course, tools_of, undos_of, Handled, StoreOutcomeView,
    StoreStepView,
};
use crate::rekey::apply::{
    action_step, first_failure, lemma_first_failure, rollback_of, ActionStepView, StoreOpView,
    StoreReply,
};
use crate::rekey::plan::{
    count_text, dir_rewrites, file_rewrites, first_entries, steps, CountedView, SightView,
};
use crate::rekey::types::{RekeyError, RekeyErrorView, RekeyPlan, RekeyPlanView, StepView};
use crate::sessions::decode::encoded;
use crate::tools::{plain_ident, StoreView};

verus! {

/// The rewrites of all files, whether they hold the path or not.
spec fn each_rewrite(
    names: Seq<Seq<char>>,
    entries: Seq<CountedView>,
    old: Seq<char>,
    new: Seq<char>,
) -> Seq<StepView> {
    Seq::new(
        entries.len(),
        |i: int|
            StepView::RewriteJsonValue {
                file: names[i],
                from: old,
                to: new,
                occurrences: entries[i].occurrences,
            },
    )
}

spec fn names_in(dir: Seq<char>, entries: Seq<CountedView>) -> Seq<Seq<char>> {
    Seq::new(entries.len(), |i: int| joined(dir, entries[i].name))
}

spec fn names_of(entries: Seq<CountedView>) -> Seq<Seq<char>> {
    Seq::new(entries.len(), |i: int| entries[i].name)
}

proof fn lemma_dir_rewrites_pick(
    entries: Seq<CountedView>,
    pattern: Seq<char>,
    dir: Seq<char>,
    old: Seq<char>,
    new: Seq<char>,
)
    ensures
        picked(
            each_rewrite(names_in(dir, entries), entries, old, new),
            dir_rewrites(entries, pattern, dir, old, new),
            |i: int|
                entries[i].is_file && glob_match(pattern, entries[i].name)
                    && entries[i].occurrences > 0,
        ),
    decreases entries.len(),
{
    let keep = |i: int|
        entries[i].is_file && glob_match(pattern, entries[i].name) && entries[i].occurrences > 0;
    let all = each_rewrite(names_in(dir, entries), entries, old, new);
    if entries.len() == 0 {
        lemma_picked_none(all, dir_rewrites(entries, pattern, dir, old, new), keep);
    } else {
        let d = entries.drop_last();
        let kept = |i: int| d[i].is_file && glob_match(pattern, d[i].name) && d[i].occurrences > 0;
        lemma_dir_rewrites_pick(d, pattern, dir, old, new);
        assert(all.drop_last() =~= each_rewrite(names_in(dir, d), d, old, new));
        let rest = dir_rewrites(d, pattern, dir, old, new);
        lemma_same_choice(all.drop_last(), rest, kept, keep);
        lemma_picked_more(all, rest, keep);
    }
}

proof fn lemma_file_rewrites_pick(files: Seq<CountedView>, old: Seq<char>, new: Seq<char>)
    ensures
        picked(
            each_rewrite(names_of(files), files, old, new),
            file_rewrites(files, old, new),
            |i: int| files[i].occurrences > 0,
        ),
    decreases files.len(),
{
    let keep = |i: int| files[i].occurrences > 0;
    let all = each_rewrite(names_of(files), files, old, new);
    if files.len() == 0 {
        lemma_picked_none(all, file_rewrites(files, old, new), keep);
    } else {
        let d = files.drop_last();
        let kept = |i: int| d[i].occurrences > 0;
        lemma_file_rewrites_pick(d, old, new);
        assert(all.drop_last() =~= each_rewrite(names_of(d), d, old, new));
        let rest = file_rewrites(d, old, new);
        lemma_same_choice(all.drop_last(), rest, kept, keep);
        lemma_picked_more(all, rest, keep);
    }
}

/// The place that a store keeps for a path: below the store's directory, the
/// name that the path is encoded to.
pub open spec fn kept_at(
    home: Seq<char>,
    store: StoreView,
    path: Seq<char>,
    dir: Seq<char>,
) -> bool {
    store matches StoreView::EncodedDir { path: base, separator, .. } && dir == joined(
        expanded(Some(home), base),
        encoded(path, separator),
    )
}

/// The file that a step rewrites is one that was found to hold the old path, as
/// often as is said; in a directory of a store, one that matches its pattern,
/// at the place where it is once the directory has its new name.
pub open spec fn was_found(
    home: Seq<char>,
    store: StoreView,
    new: Seq<char>,
    sight: SightView,
    file: Seq<char>,
    occurrences: usize,
) -> bool {
    match (store, sight) {
        (StoreView::EncodedDir { key_glob: Some(g), .. }, SightView::Dir { entries, .. }) => exists|
            k: int,
            dir: Seq<char>,
        |
            {
                &&& 0 <= k < entries.len()
                &&& #[trigger] kept_at(home, store, new, dir)
                &&& (#[trigger] entries[k]).is_file
                &&& glob_match(g, entries[k].name)
                &&& file == joined(dir, entries[k].name)
                &&& occurrences == entries[k].occurrences
                &&& occurrences > 0
            },
        (StoreView::JsonlField { .. }, SightView::Files { files }) => exists|k: int|
            {
                &&& 0 <= k < files.len()
                &&& file == (#[trigger] files[k]).name
                &&& occurrences == files[k].occurrences
                &&& occurrences > 0
            },
        _ => false,
    }
}

/// Every step of a plan goes from the old path to the new one: the store's
/// directory for the old path becomes that for the new path, first of all;
/// files that hold the old path are made to hold the new one; and so are rows.
pub proof fn lemma_plan_goes_from_old_to_new(
    home: Seq<char>,
    tool: Seq<char>,
    store: StoreView,
    old: Seq<char>,
    new: Seq<char>,
    sight: SightView,
    i: int,
)
    requires
        steps(home, tool, store, old, new, sight) matches Ok(actions) && 0 <= i < actions.len(),
    ensures
        match steps(home, tool, store, old, new, sight)->Ok_0[i] {
            StepView::RenameDir { from, to } => {
                &&& i == 0
                &&& kept_at(home, store, old, from)
                &&& kept_at(home, store, new, to)
                &&& !same_path(from, to)
                &&& sight matches SightView::Dir { is_dir, dest_exists, .. } && is_dir
                    && !dest_exists
            },
            StepView::RewriteJsonValue { file, from, to, occurrences } => {
                &&& from == old
                &&& to == new
                &&& was_found(home, store, new, sight, file, occurrences)
            },
            StepView::UpdateSqliteRows { db, table, column, from, to, rows } => {
                &&& from == old
                &&& to == new
                &&& store matches StoreView::SqliteColumn { path, table: t, path_column, .. } && db
                    == expanded(Some(home), path) && table == t && column == path_column
                &&& sight matches SightView::Rows { is_file, rows: Ok(n) } && is_file && n > 0
                    && (n <= usize::MAX ==> rows == n)
            },
        },
{
    let actions = steps(home, tool, store, old, new, sight)->Ok_0;
    match (store, sight) {
        (
            StoreView::EncodedDir { path, separator, key_glob, key_field },
            SightView::Dir { is_dir, dest_exists, entries },
        ) => {
            let old_dir = joined(expanded(Some(home), path), encoded(old, separator));
            let new_dir = joined(expanded(Some(home), path), encoded(new, separator));
            let h: int = if same_path(new_dir, old_dir) {
                0
            } else {
                1
            };
            if i >= h {
                let g = key_glob->0;
                let some = first_entries(entries);
                let rewrites = dir_rewrites(some, g, new_dir, old, new);
                assert(actions[i] == rewrites[i - h]);
                lemma_dir_rewrites_pick(some, g, new_dir, old, new);
                let keep = |k: int|
                    some[k].is_file && glob_match(g, some[k].name) && some[k].occurrences > 0;
                let all = each_rewrite(names_in(new_dir, some), some, old, new);
                lemma_picked(all, rewrites, keep);
                assert(rewrites.contains(rewrites[i - h]));
                let k = choose|k: int|
                    0 <= k < all.len() && keep(k) && #[trigger] all[k] == rewrites[i - h];
                assert(some[k] == entries[k]);
                assert(kept_at(home, store, new, new_dir));
            }
        },
        (StoreView::JsonlField { .. }, SightView::Files { files }) => {
            let rewrites = file_rewrites(files, old, new);
            lemma_file_rewrites_pick(files, old, new);
            let keep = |k: int| files[k].occurrences > 0;
            let all = each_rewrite(names_of(files), files, old, new);
            lemma_picked(all, rewrites, keep);
            assert(rewrites.contains(rewrites[i]));
            let k = choose|k: int| 0 <= k < all.len() && keep(k) && #[trigger] all[k] == rewrites[i];
            assert(files[k].name == all[k]->RewriteJsonValue_file);
        },
        _ => {},
    }
}

/// A plan misses nothing of what was found of the old path, among the first
/// fifty thousand entries of a directory: the directory is renamed unless it
/// keeps its name, every matching file that holds the path is rewritten, and
/// rows that hold it are updated. There is no plan where the new directory is
/// there beside the old one, or where the rows could not be counted, and only
/// there.
pub proof fn lemma_plan_misses_nothing(
    home: Seq<char>,
    tool: Seq<char>,
    store: StoreView,
    old: Seq<char>,
    new: Seq<char>,
    sight: SightView,
)
    ensures
        match (store, sight) {
            (
                StoreView::EncodedDir { path, separator, key_glob, key_field },
                SightView::Dir { is_dir, dest_exists, entries },
            ) => {
                let from = joined(expanded(Some(home), path), encoded(old, separator));
                let to = joined(expanded(Some(home), path), encoded(new, separator));
                match steps(home, tool, store, old, new, sight) {
                    Err(e) => is_dir && dest_exists && !same_path(from, to) && e
                        == RekeyErrorView::DestinationExists { tool, dest: to },
                    Ok(actions) => {
                        &&& !is_dir ==> actions.len() == 0
                        &&& is_dir ==> !dest_exists || same_path(from, to)
                        &&& is_dir && !same_path(from, to) ==> actions.len() > 0 && actions[0]
                            == StepView::RenameDir { from, to }
                        &&& is_dir && (key_glob matches Some(g) && is_pattern(g)) && key_field is Some
                            ==> forall|k: int|
                            #![trigger entries[k]]
                            0 <= k < entries.len() && k < 50_000 && entries[k].is_file
                                && glob_match(key_glob->0, entries[k].name)
                                && entries[k].occurrences > 0 ==> actions.contains(
                                StepView::RewriteJsonValue {
                                    file: joined(to, entries[k].name),
                                    from: old,
                                    to: new,
                                    occurrences: entries[k].occurrences,
                                },
                            )
                    },
                }
            },
            (
                StoreView::JsonlField { .. },
                SightView::Files { files },
            ) => steps(home, tool, store, old, new, sight) matches Ok(actions) && forall|k: int|
                #![trigger files[k]]
                0 <= k < files.len() && files[k].occurrences > 0 ==> actions.contains(
                    StepView::RewriteJsonValue {
                        file: files[k].name,
                        from: old,
                        to: new,
                        occurrences: files[k].occurrences,
                    },
                ),
            (
                StoreView::SqliteColumn { path, table, path_column, .. },
                SightView::Rows { is_file, rows },
            ) => is_file && plain_ident(table) && plain_ident(path_column) ==> match (
                rows,
                steps(home, tool, store, old, new, sight),
            ) {
                (Ok(n), Ok(actions)) => n > 0 ==> actions.len() == 1
                    && actions[0] is UpdateSqliteRows,
                (Err(m), Err(e)) => e == RekeyErrorView::Failed {
                    tool,
                    path: expanded(Some(home), path),
                    detail: m,
                },
                _ => false,
            },
            _ => true,
        },
{
    match (store, sight) {
        (
            StoreView::EncodedDir { path, separator, key_glob, key_field },
            SightView::Dir { is_dir, dest_exists, entries },
        ) => {
            let from = joined(expanded(Some(home), path), encoded(old, separator));
            let to = joined(expanded(Some(home), path), encoded(new, separator));
            if let Ok(actions) = steps(home, tool, store, old, new, sight) {
                if is_dir && (key_glob matches Some(g) && is_pattern(g)) && key_field is Some {
                    let g = key_glob->0;
                    let some = first_entries(entries);
                    let rewrites = dir_rewrites(some, g, to, old, new);
                    let h = actions.len() - rewrites.len();
                    lemma_dir_rewrites_pick(some, g, to, old, new);
                    let keep = |k: int|
                        some[k].is_file && glob_match(g, some[k].name) && some[k].occurrences > 0;
                    let all = each_rewrite(names_in(to, some), some, old, new);
                    lemma_picked(all, rewrites, keep);
                    assert forall|k: int|
                        #![trigger entries[k]]
                        0 <= k < entries.len() && k < 50_000 && entries[k].is_file && glob_match(
                            g,
                            entries[k].name,
                        ) && entries[k].occurrences > 0 implies actions.contains(
                        StepView::RewriteJsonValue {
                            file: joined(to, entries[k].name),
                            from: old,
                            to: new,
                            occurrences: entries[k].occurrences,
                        },
                    ) by {
                        assert(some[k] == entries[k]);
                        assert(keep(k));
                        assert(rewrites.contains(all[k]));
                        let j = choose|j: int| 0 <= j < rewrites.len() && rewrites[j] == all[k];
                        assert(actions[h + j] == all[k]);
                    }
                }
            }
        },
        (StoreView::JsonlField { .. }, SightView::Files { files }) => {
            let rewrites = file_rewrites(files, old, new);
            lemma_file_rewrites_pick(files, old, new);
            let keep = |k: int| files[k].occurrences > 0;
            let all = each_rewrite(names_of(files), files, old, new);
            lemma_picked(all, rewrites, keep);
            assert forall|k: int|
                #![trigger files[k]]
                0 <= k < files.len() && files[k].occurrences > 0 implies rewrites.contains(
                StepView::RewriteJsonValue {
                    file: files[k].name,
                    from: old,
                    to: new,
                    occurrences: files[k].occurrences,
                },
            ) by {
                assert(keep(k));
                assert(rewrites.contains(all[k]));
            }
        },
        _ => {},
    }
}

/// A step that changes rows puts the new path in the place of the old one: the
/// statement sets the column to its first parameter where it is the second, and
/// these are the new path and the old one. The rows are counted by the same
/// column.
pub proof fn lemma_statement_has_its_parameters(
    tool: Seq<char>,
    step: StepView,
    seen: Seq<StoreReply>,
)
    requires
        step is UpdateSqliteRows,
    ensures
        action_step(tool, step, seen) matches ActionStepView::Do(op) ==> (
        op matches StoreOpView::Update { db, statement, to, from } && db
            == step->UpdateSqliteRows_db && to == step->UpdateSqliteRows_to && from
            == step->UpdateSqliteRows_from && statement == "UPDATE "@ + step->UpdateSqliteRows_table
            + " SET "@ + step->column + " = ?1 WHERE "@ + step->column + " = ?2"@),
        count_text(step->UpdateSqliteRows_table, step->column) == "SELECT COUNT(*) FROM "@
            + step->UpdateSqliteRows_table + " WHERE "@ + step->column + " = ?1"@,
{
}

/// What undoes one store, and the store's tool.
pub open spec fn undone_by(h: Handled, dry_run: bool, undo: RekeyPlanView, tool: Seq<char>) -> bool {
    &&& h.outcome(dry_run) matches StoreOutcomeView::Applied { undo: u, .. } && u == undo
    &&& h.tool@ == tool
}

/// The stores that were re-keyed.
pub open spec fn applied(handled: Seq<Handled>, dry_run: bool) -> spec_fn(int) -> bool {
    |i: int| handled[i].outcome(dry_run) is Applied
}

/// The record of a re-keying is replayed from the last store to the first: it
/// holds the undo of every store that was re-keyed, in the reverse of the order
/// of the stores, which is the order of the tools' names in its label.
pub proof fn lemma_undos_go_backwards(handled: Seq<Handled>, dry_run: bool)
    ensures
        ({
            let undos = undos_of(handled, dry_run);
            let tools = tools_of(handled, dry_run);
            &&& undos.len() == tools.len()
            &&& exists|at: Seq<int>|
                {
                    &&& #[trigger] places(at, handled.len() as int, applied(handled, dry_run))
                    &&& at.len() == undos.len()
                    &&& forall|k: int|
                        0 <= k < at.len() ==> undone_by(
                            handled[#[trigger] at[k]],
                            dry_run,
                            undos[undos.len() - 1 - k],
                            tools[k],
                        )
                }
        }),
    decreases handled.len(),
{
    let keep = applied(handled, dry_run);
    let undos = undos_of(handled, dry_run);
    let tools = tools_of(handled, dry_run);
    if handled.len() == 0 {
        let at = Seq::<int>::empty();
        assert(places(at, 0, keep));
    } else {
        let d = handled.drop_last();
        let n = handled.len() - 1;
        lemma_undos_go_backwards(d, dry_run);
        let kept = applied(d, dry_run);
        let rest = undos_of(d, dry_run);
        let names = tools_of(d, dry_run);
        let at = choose|at: Seq<int>|
            {
                &&& #[trigger] places(at, d.len() as int, kept)
                &&& at.len() == rest.len()
                &&& forall|k: int|
                    0 <= k < at.len() ==> undone_by(
                        d[#[trigger] at[k]],
                        dry_run,
                        rest[rest.len() - 1 - k],
                        names[k],
                    )
            };
        assert(handled[n] == handled.last());
        assert(forall|i: int| 0 <= i < n ==> #[trigger] d[i] == handled[i]);
        let more = if keep(n) {
            at.push(n)
        } else {
            at
        };
        assert(places(more, n + 1, keep)) by {
            assert forall|k: int| 0 <= k < more.len() implies 0 <= #[trigger] more[k] < n + 1 && keep(
                more[k],
            ) by {
                if k < at.len() {
                    assert(kept(at[k]));
                    assert(d[at[k]] == handled[at[k]]);
                }
            }
            assert forall|i: int| 0 <= i < n + 1 && keep(i) implies #[trigger] more.contains(i) by {
                if i < n {
                    assert(d[i] == handled[i]);
                    assert(kept(i));
                    assert(at.contains(i));
                    let k = choose|k: int| 0 <= k < at.len() && at[k] == i;
                    assert(more[k] == i);
                } else {
                    assert(more[at.len() as int] == i);
                }
            }
        }
        assert forall|k: int| 0 <= k < more.len() implies undone_by(
            handled[#[trigger] more[k]],
            dry_run,
            undos[undos.len() - 1 - k],
            tools[k],
        ) by {
            if k < at.len() {
                assert(more[k] == at[k]);
                assert(undone_by(d[at[k]], dry_run, rest[rest.len() - 1 - k], names[k]));
                assert(d[at[k]] == handled[at[k]]);
            }
        }
    }
}

/// A report says that a store was re-keyed exactly if its plan was carried out;
/// it tells an error exactly if the store was refused or a step failed. What is
/// recorded of it is the same: so many actions, nothing, or a refusal.
pub proof fn lemma_reports_are_true(
    tool: Seq<char>,
    outcome: StoreOutcomeView,
    old: Seq<char>,
    new: Seq<char>,
)
    ensures
        ({
            let r = report_of(tool, outcome, old, new);
            let d = decision(r, new);
            &&& r.tool == tool
            &&& r.applied <==> outcome is Applied
            &&& r.error is Some <==> outcome is Refused || outcome is Failed
            &&& outcome matches StoreOutcomeView::Applied { plan, .. } ==> r.plan == plan
            &&& outcome matches StoreOutcomeView::Planned(plan) ==> r.plan == plan
            &&& d.tool_name == Some(tool)
            &&& d.project_path == Some(new)
            &&& d.outcome is Refused <==> r.error is Some
            &&& r.error is None && r.applied && 0 < r.plan.actions.len() <= usize::MAX ==> d.outcome
                == OutcomeView::Acted { actions: r.plan.actions.len() as usize }
            &&& r.error is None && !r.applied ==> d.outcome == OutcomeView::NoOp {
                reason: NoOpReason::NoStoreForProject,
            }
        }),
{
}

/// The steps of a plan are done in their order, each only after all before it
/// went well. After a failure the steps before it are undone, from the last to
/// the first, each by its inverse, and no others.
pub proof fn lemma_steps_go_forwards_and_back(
    p: RekeyPlan,
    done: Seq<Result<(), RekeyError>>,
    undone: Seq<Result<(), RekeyError>>,
)
    requires
        in_course(Ok(p), done, undone),
    ensures
        store_course(Ok(p), false, done, undone) matches StoreStepView::Do(a) ==> {
            &&& done.len() < p@.actions.len()
            &&& a == p@.actions[done.len() as int]
            &&& forall|i: int| 0 <= i < done.len() ==> (#[trigger] done[i]) is Ok
        },
        store_course(Ok(p), false, done, undone) matches StoreStepView::Undo(a) ==> exists|k: int|
            {
                &&& 0 <= k < done.len()
                &&& (#[trigger] done[k]) is Err
                &&& forall|i: int| 0 <= i < k ==> (#[trigger] done[i]) is Ok
                &&& undone.len() < k
                &&& a == p@.actions[k - 1 - undone.len()].inverse()
                &&& forall|i: int| 0 <= i < undone.len() ==> (#[trigger] undone[i]) is Ok
            },
        p@.actions.len() > 0 && (forall|i: int| 0 <= i < done.len() ==> (#[trigger] done[i]) is Ok)
            ==> (done.len() < p@.actions.len() <==> store_course(
            Ok(p),
            false,
            done,
            undone,
        ) is Do),
        store_course(Ok(p), true, done, undone) is Finished,
{
    lemma_first_failure(done);
    lemma_first_failure(undone);
    let k = first_failure(done);
    if k < done.len() {
        assert(done[k] is Err);
        let rollback = rollback_of(p@, k);
        assert(p@.actions.take(k).len() == k);
        let j = first_failure(undone);
        if j == undone.len() && j < rollback.actions.len() {
            assert(p@.actions.take(k)[k - 1 - j] == p@.actions[k - 1 - j]);
        }
    }
}

} // verus!
