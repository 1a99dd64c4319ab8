//! Carrying out a plan, step by step.
use vstd::prelude::*;

use crate::paths::{parent, parent_of};
use crate::rekey::plan::update_text;
use crate::rekey::tokens::{rewrite_tokens, token};
use crate::rekey::types::{
    reverse_steps, reversed, RekeyAction, RekeyError, RekeyErrorView, RekeyFailure, RekeyPlan,
    RekeyPlanView, StepView,
};
use crate::text::{owned, replaced, same};
use crate::tools::{plain_ident, safe_ident};

verus! {

/// A single operation on a store.
#[derive(Debug, PartialEq, Eq)]
pub enum StoreOp {
    /// Does this path exist?
    Exists(String),
    /// Make this directory, and those above it.
    CreateDirs(String),
    /// Rename a directory.
    Rename { from: String, to: String },
    /// Read a file.
    Read(String),
    /// Write a file whole, or not at all.
    Write { file: String, text: String },
    /// Run a statement on a database, with these parameters.
    Update { db: String, statement: String, to: String, from: String },
}

/// The model of a [`StoreOp`].
pub enum StoreOpView {
    Exists(Seq<char>),
    CreateDirs(Seq<char>),
    Rename { from: Seq<char>, to: Seq<char> },
    Read(Seq<char>),
    Write { file: Seq<char>, text: Seq<char> },
    Update { db: Seq<char>, statement: Seq<char>, to: Seq<char>, from: Seq<char> },
}

impl View for StoreOp {
    type V = StoreOpView;

    open spec fn view(&self) -> StoreOpView {
        match self {
            StoreOp::Exists(p) => StoreOpView::Exists(p@),
            StoreOp::CreateDirs(p) => StoreOpView::CreateDirs(p@),
            StoreOp::Rename { from, to } => StoreOpView::Rename { from: from@, to: to@ },
            StoreOp::Read(p) => StoreOpView::Read(p@),
            StoreOp::Write { file, text } => StoreOpView::Write { file: file@, text: text@ },
            StoreOp::Update { db, statement, to, from } => StoreOpView::Update {
                db: db@,
                statement: statement@,
                to: to@,
                from: from@,
            },
        }
    }
}

impl StoreOpView {
    /// The operation changes something.
    pub open spec fn changes(self) -> bool {
        match self {
            StoreOpView::Exists(_) | StoreOpView::Read(_) => false,
            _ => true,
        }
    }
}

/// What came of an operation.
#[derive(Debug, PartialEq, Eq)]
pub enum StoreReply {
    Flag(bool),
    Text(String),
    Done,
    /// The database is in use.
    Locked,
    Error(String),
}

/// How to go on with a step.
#[derive(Debug, PartialEq, Eq)]
pub enum ActionStep {
    Do(StoreOp),
    Finished(Result<(), RekeyError>),
}

/// The model of an [`ActionStep`].
pub enum ActionStepView {
    Do(StoreOpView),
    Finished(Result<(), RekeyErrorView>),
}

impl View for ActionStep {
    type V = ActionStepView;

    open spec fn view(&self) -> ActionStepView {
        match self {
            ActionStep::Do(op) => ActionStepView::Do(op@),
            ActionStep::Finished(r) => ActionStepView::Finished(
                match r {
                    Ok(()) => Ok(()),
                    Err(e) => Err(e@),
                },
            ),
        }
    }
}

/// An operation that must be done before the next, and after it.
pub open spec fn after(
    seen: Seq<StoreReply>,
    i: int,
    op: StoreOpView,
    tool: Seq<char>,
    place: Seq<char>,
    rest: ActionStepView,
) -> ActionStepView {
    if i >= seen.len() {
        ActionStepView::Do(op)
    } else {
        match seen[i] {
            StoreReply::Error(detail) => failed(tool, place, detail@),
            StoreReply::Locked => locked(tool, place),
            _ => rest,
        }
    }
}

/// The step failed.
pub open spec fn failed(tool: Seq<char>, path: Seq<char>, detail: Seq<char>) -> ActionStepView {
    ActionStepView::Finished(Err(RekeyErrorView::Failed { tool, path, detail }))
}

/// The database is in use.
pub open spec fn locked(tool: Seq<char>, db: Seq<char>) -> ActionStepView {
    ActionStepView::Finished(Err(RekeyErrorView::StoreLocked { tool, db }))
}

/// The step is done.
pub open spec fn finished() -> ActionStepView {
    ActionStepView::Finished(Ok(()))
}

/// How to go on with a step after these replies. A directory is not renamed
/// over another; a file is written only when it changes; a statement is built
/// from plain names only.
pub open spec fn action_step(tool: Seq<char>, action: StepView, seen: Seq<StoreReply>) -> ActionStepView {
    match action {
        StepView::RenameDir { from, to } => {
            if seen.len() == 0 {
                ActionStepView::Do(StoreOpView::Exists(to))
            } else if seen[0] == StoreReply::Flag(true) {
                ActionStepView::Finished(Err(RekeyErrorView::DestinationExists { tool, dest: to }))
            } else {
                match parent_of(to) {
                    Some(dir) => after(
                        seen,
                        1,
                        StoreOpView::CreateDirs(dir),
                        tool,
                        dir,
                        after(seen, 2, StoreOpView::Rename { from, to }, tool, from, finished()),
                    ),
                    None => after(
                        seen,
                        1,
                        StoreOpView::Rename { from, to },
                        tool,
                        from,
                        finished(),
                    ),
                }
            }
        },
        StepView::RewriteJsonValue { file, from, to, .. } => {
            if seen.len() == 0 {
                ActionStepView::Do(StoreOpView::Read(file))
            } else {
                match seen[0] {
                    StoreReply::Text(content) => {
                        let text = replaced(content@, token(from), token(to));
                        if text == content@ {
                            finished()
                        } else {
                            after(
                                seen,
                                1,
                                StoreOpView::Write { file, text },
                                tool,
                                file,
                                finished(),
                            )
                        }
                    },
                    StoreReply::Error(detail) => failed(tool, file, detail@),
                    _ => failed(tool, file, "unreadable"@),
                }
            }
        },
        StepView::UpdateSqliteRows { db, table, column, from, to, .. } => {
            if !plain_ident(table) || !plain_ident(column) {
                failed(tool, db, "unsafe SQL identifier in recorded plan"@)
            } else {
                after(
                    seen,
                    0,
                    StoreOpView::Update { db, statement: update_text(table, column), to, from },
                    tool,
                    db,
                    finished(),
                )
            }
        },
    }
}

fn fail(tool: &str, path: &str, detail: &str) -> (r: ActionStep)
    ensures
        r@ == failed(tool@, path@, detail@),
{
    ActionStep::Finished(
        Err(RekeyError::Failed { tool: owned(tool), path: owned(path), detail: owned(detail) }),
    )
}

/// Nothing to do before what follows the `i`-th operation; else what to do.
fn check(seen: &Vec<StoreReply>, i: usize, op: StoreOp, tool: &str, place: &str) -> (r: Option<
    ActionStep,
>)
    ensures
        forall|rest: ActionStepView| #[trigger]
            after(seen@, i as int, op@, tool@, place@, rest) == (match r {
                Some(step) => step@,
                None => rest,
            }),
{
    if i >= seen.len() {
        Some(ActionStep::Do(op))
    } else {
        match &seen[i] {
            StoreReply::Error(detail) => Some(fail(tool, place, detail)),
            StoreReply::Locked => Some(
                ActionStep::Finished(
                    Err(RekeyError::StoreLocked { tool: owned(tool), db: owned(place) }),
                ),
            ),
            _ => None,
        }
    }
}

/// How to go on with a step, after the replies so far.
pub fn apply_action(tool: &str, action: &RekeyAction, seen: &Vec<StoreReply>) -> (r: ActionStep)
    ensures
        r@ == action_step(tool@, action@, seen@),
{
    match action {
        RekeyAction::RenameDir { from, to } => {
            if seen.len() == 0 {
                return ActionStep::Do(StoreOp::Exists(to.clone()));
            }
            if let StoreReply::Flag(true) = &seen[0] {
                return ActionStep::Finished(
                    Err(RekeyError::DestinationExists { tool: owned(tool), dest: to.clone() }),
                );
            }
            match parent(to) {
                Some(dir) => {
                    let make = StoreOp::CreateDirs(dir.clone());
                    let ghost rest = after(
                        seen@,
                        2,
                        StoreOpView::Rename { from: from@, to: to@ },
                        tool@,
                        from@,
                        finished(),
                    );
                    if let Some(step) = check(seen, 1, make, tool, &dir) {
                        assert(after(
                            seen@,
                            1,
                            StoreOpView::CreateDirs(dir@),
                            tool@,
                            dir@,
                            rest,
                        ) == step@);
                        return step;
                    }
                    assert(after(seen@, 1, StoreOpView::CreateDirs(dir@), tool@, dir@, rest)
                        == rest);
                    let rename = StoreOp::Rename { from: from.clone(), to: to.clone() };
                    match check(seen, 2, rename, tool, from) {
                        Some(step) => step,
                        None => ActionStep::Finished(Ok(())),
                    }
                },
                None => {
                    let rename = StoreOp::Rename { from: from.clone(), to: to.clone() };
                    match check(seen, 1, rename, tool, from) {
                        Some(step) => step,
                        None => ActionStep::Finished(Ok(())),
                    }
                },
            }
        },
        RekeyAction::RewriteJsonValue { file, from, to, .. } => {
            if seen.len() == 0 {
                return ActionStep::Do(StoreOp::Read(file.clone()));
            }
            match &seen[0] {
                StoreReply::Text(content) => {
                    let text = rewrite_tokens(content, from, to);
                    if same(&text, content) {
                        return ActionStep::Finished(Ok(()));
                    }
                    let write = StoreOp::Write { file: file.clone(), text };
                    match check(seen, 1, write, tool, file) {
                        Some(step) => step,
                        None => ActionStep::Finished(Ok(())),
                    }
                },
                StoreReply::Error(detail) => fail(tool, file, detail),
                _ => fail(tool, file, "unreadable"),
            }
        },
        RekeyAction::UpdateSqliteRows { db, table, column, from, to, .. } => {
            if !safe_ident(table) || !safe_ident(column) {
                return fail(tool, db, "unsafe SQL identifier in recorded plan");
            }
            let statement = owned("UPDATE ").concat(table).concat(" SET ").concat(column).concat(
                " = ?1 WHERE ",
            ).concat(column).concat(" = ?2");
            let update = StoreOp::Update {
                db: db.clone(),
                statement,
                to: to.clone(),
                from: from.clone(),
            };
            match check(seen, 0, update, tool, db) {
                Some(step) => step,
                None => ActionStep::Finished(Ok(())),
            }
        },
    }
}

/// A directory is never renamed over one that exists.
pub proof fn lemma_rename_needs_a_free_place(
    tool: Seq<char>,
    from: Seq<char>,
    to: Seq<char>,
    seen: Seq<StoreReply>,
)
    ensures
        action_step(tool, StepView::RenameDir { from, to }, seen) matches ActionStepView::Do(op)
            && op.changes() ==> seen.len() > 0 && seen[0] != StoreReply::Flag(true),
{
}

/// A statement is built from plain names only, whatever a recorded plan holds.
pub proof fn lemma_statements_are_plain(tool: Seq<char>, action: StepView, seen: Seq<StoreReply>)
    ensures
        action_step(tool, action, seen) matches ActionStepView::Do(
            StoreOpView::Update { statement, .. },
        ) ==> (action matches StepView::UpdateSqliteRows { table, column, .. } && plain_ident(table)
            && plain_ident(column) && statement == update_text(table, column)),
{
}

/// How to go on with a plan.
#[derive(Debug, PartialEq, Eq)]
pub enum ApplyStep {
    /// Do the step with this number.
    Next(usize),
    /// All is done; this undoes it.
    Done(RekeyPlan),
    /// A step failed.
    Failed(RekeyFailure),
}

/// The first step that failed, or their number when none did.
pub open spec fn first_failure(results: Seq<Result<(), RekeyError>>) -> int
    decreases results.len(),
{
    if results.len() == 0 || results[0] is Err {
        0
    } else {
        1 + first_failure(results.skip(1))
    }
}

pub(crate) proof fn lemma_first_failure(results: Seq<Result<(), RekeyError>>)
    ensures
        0 <= first_failure(results) <= results.len(),
        first_failure(results) < results.len() ==> results[first_failure(results)] is Err,
        forall|i: int| 0 <= i < first_failure(results) ==> (#[trigger] results[i]) is Ok,
    decreases results.len(),
{
    if results.len() > 0 && results[0] is Ok {
        let rest = results.skip(1);
        lemma_first_failure(rest);
        assert forall|i: int| 0 <= i < first_failure(results) implies (#[trigger] results[i]) is Ok by {
            if i > 0 {
                assert(results[i] == rest[i - 1]);
            }
        }
    }
}

/// The plan that reverses the first `n` steps.
pub open spec fn rollback_of(plan: RekeyPlanView, n: int) -> RekeyPlanView {
    RekeyPlanView {
        tool: plan.tool,
        old_path: plan.new_path,
        new_path: plan.old_path,
        actions: reversed(plan.actions.take(n)),
    }
}

/// How to go on with a plan, after the results of its first steps. The steps
/// are done in order, up to the first that fails. What comes back undoes what
/// was done: all of it, or exactly the steps before the failure.
pub fn apply(plan: &RekeyPlan, results: &Vec<Result<(), RekeyError>>) -> (r: ApplyStep)
    requires
        results@.len() <= plan.actions@.len(),
    ensures
        ({
            let k = first_failure(results@);
            match r {
                ApplyStep::Failed(f) => k < results@.len() && f.error@ == results@[k]->Err_0@
                    && f.rollback@ == rollback_of(plan@, k),
                ApplyStep::Next(n) => k == results@.len() && n == results@.len() && n
                    < plan@.actions.len(),
                ApplyStep::Done(undo) => k == results@.len() && results@.len()
                    == plan@.actions.len() && undo@ == plan@.inverse(),
            }
        }),
{
    proof {
        lemma_first_failure(results@);
    }
    let n: usize = results.len();
    let mut i: usize = 0;
    assert(results@.skip(0) =~= results@);
    while i < n
        invariant
            n == results@.len(),
            i <= n,
            n <= plan.actions@.len(),
            first_failure(results@) == i + first_failure(results@.skip(i as int)),
        decreases n - i,
    {
        let ghost rest = results@.skip(i as int);
        assert(rest[0] == results@[i as int]);
        assert(rest.skip(1) =~= results@.skip(i + 1));
        if let Err(e) = &results[i] {
            let rollback = RekeyPlan {
                tool: plan.tool.clone(),
                old_path: plan.new_path.clone(),
                new_path: plan.old_path.clone(),
                actions: reverse_steps(&plan.actions, i),
            };
            return ApplyStep::Failed(RekeyFailure { error: e.clone(), rollback });
        }
        i = i + 1;
    }
    assert(results@.skip(n as int) =~= Seq::empty());
    if n < plan.actions.len() {
        ApplyStep::Next(n)
    } else {
        ApplyStep::Done(plan.inverse())
    }
}

/// Rolling back takes as many steps as were done, each undoing its own: the
/// last of them first.
pub proof fn lemma_rollback_is_exact(plan: RekeyPlanView, n: int, i: int)
    requires
        0 <= i < n <= plan.actions.len(),
    ensures
        rollback_of(plan, n).actions.len() == n,
        rollback_of(plan, n).actions[i] == plan.actions[n - 1 - i].inverse(),
        rollback_of(plan, plan.actions.len() as int) == plan.inverse(),
{
    assert(plan.actions.take(plan.actions.len() as int) =~= plan.actions);
}

} // verus!
