//! Plans to re-key a store, and what may go wrong.
use vstd::prelude::*;

use crate::paths::{file_name, last_name};
use crate::text::{copy_list, dec, decimal_len, owned, views};

verus! {

/// Why a store was not re-keyed.
#[derive(Debug, PartialEq, Eq)]
pub enum RekeyError {
    DestinationExists { tool: String, dest: String },
    StoreLocked { tool: String, db: String },
    Failed { tool: String, path: String, detail: String },
}

/// The model of a [`RekeyError`].
pub enum RekeyErrorView {
    DestinationExists { tool: Seq<char>, dest: Seq<char> },
    StoreLocked { tool: Seq<char>, db: Seq<char> },
    Failed { tool: Seq<char>, path: Seq<char>, detail: Seq<char> },
}

impl View for RekeyError {
    type V = RekeyErrorView;

    open spec fn view(&self) -> RekeyErrorView {
        match self {
            RekeyError::DestinationExists { tool, dest } => RekeyErrorView::DestinationExists {
                tool: tool@,
                dest: dest@,
            },
            RekeyError::StoreLocked { tool, db } => RekeyErrorView::StoreLocked {
                tool: tool@,
                db: db@,
            },
            RekeyError::Failed { tool, path, detail } => RekeyErrorView::Failed {
                tool: tool@,
                path: path@,
                detail: detail@,
            },
        }
    }
}

impl Clone for RekeyError {
    fn clone(&self) -> (r: Self)
        ensures
            r@ == self@,
    {
        match self {
            RekeyError::DestinationExists { tool, dest } => RekeyError::DestinationExists {
                tool: tool.clone(),
                dest: dest.clone(),
            },
            RekeyError::StoreLocked { tool, db } => RekeyError::StoreLocked {
                tool: tool.clone(),
                db: db.clone(),
            },
            RekeyError::Failed { tool, path, detail } => RekeyError::Failed {
                tool: tool.clone(),
                path: path.clone(),
                detail: detail.clone(),
            },
        }
    }
}

impl RekeyErrorView {
    /// The text of the error.
    pub open spec fn text(self) -> Seq<char> {
        match self {
            RekeyErrorView::DestinationExists { tool, dest } => "tool `"@ + tool
                + "`: refusing to re-key — the destination store `"@ + dest
                + "` already exists. Re-keying into it would merge two projects' session histories with no way to tell them apart afterwards; move or remove it first."@,
            RekeyErrorView::StoreLocked { tool, db } => "tool `"@ + tool
                + "`: refusing to re-key — the session database `"@ + db
                + "` is locked, which means the tool is running. Quit it and retry; writing under it risks a torn store."@,
            RekeyErrorView::Failed { tool, path, detail } => "tool `"@ + tool
                + "`: re-key failed on `"@ + path + "`: "@ + detail,
        }
    }
}

impl RekeyError {
    /// The error as a sentence for people.
    pub fn message(&self) -> (r: String)
        ensures
            r@ == self@.text(),
    {
        match self {
            RekeyError::DestinationExists { tool, dest } => owned("tool `").concat(tool).concat(
                "`: refusing to re-key — the destination store `",
            ).concat(dest).concat(
                "` already exists. Re-keying into it would merge two projects' session histories with no way to tell them apart afterwards; move or remove it first.",
            ),
            RekeyError::StoreLocked { tool, db } => owned("tool `").concat(tool).concat(
                "`: refusing to re-key — the session database `",
            ).concat(db).concat(
                "` is locked, which means the tool is running. Quit it and retry; writing under it risks a torn store.",
            ),
            RekeyError::Failed { tool, path, detail } => owned("tool `").concat(tool).concat(
                "`: re-key failed on `",
            ).concat(path).concat("`: ").concat(detail),
        }
    }
}

/// One step of a re-key, which can be reversed.
#[derive(Debug, PartialEq, Eq)]
pub enum RekeyAction {
    /// Rename a directory of the store.
    RenameDir { from: String, to: String },
    /// Rewrite every JSON string in a file that is the one path into the other.
    RewriteJsonValue { file: String, from: String, to: String, occurrences: usize },
    /// Rewrite the rows of a table whose column holds the one path.
    UpdateSqliteRows {
        db: String,
        table: String,
        column: String,
        from: String,
        to: String,
        rows: usize,
    },
}

/// The model of a [`RekeyAction`].
pub enum StepView {
    RenameDir { from: Seq<char>, to: Seq<char> },
    RewriteJsonValue { file: Seq<char>, from: Seq<char>, to: Seq<char>, occurrences: usize },
    UpdateSqliteRows {
        db: Seq<char>,
        table: Seq<char>,
        column: Seq<char>,
        from: Seq<char>,
        to: Seq<char>,
        rows: usize,
    },
}

impl View for RekeyAction {
    type V = StepView;

    open spec fn view(&self) -> StepView {
        match self {
            RekeyAction::RenameDir { from, to } => StepView::RenameDir { from: from@, to: to@ },
            RekeyAction::RewriteJsonValue { file, from, to, occurrences } => {
                StepView::RewriteJsonValue {
                    file: file@,
                    from: from@,
                    to: to@,
                    occurrences: *occurrences,
                }
            },
            RekeyAction::UpdateSqliteRows { db, table, column, from, to, rows } => {
                StepView::UpdateSqliteRows {
                    db: db@,
                    table: table@,
                    column: column@,
                    from: from@,
                    to: to@,
                    rows: *rows,
                }
            },
        }
    }
}

impl Clone for RekeyAction {
    fn clone(&self) -> (r: Self)
        ensures
            r@ == self@,
    {
        match self {
            RekeyAction::RenameDir { from, to } => RekeyAction::RenameDir {
                from: from.clone(),
                to: to.clone(),
            },
            RekeyAction::RewriteJsonValue { file, from, to, occurrences } => {
                RekeyAction::RewriteJsonValue {
                    file: file.clone(),
                    from: from.clone(),
                    to: to.clone(),
                    occurrences: *occurrences,
                }
            },
            RekeyAction::UpdateSqliteRows { db, table, column, from, to, rows } => {
                RekeyAction::UpdateSqliteRows {
                    db: db.clone(),
                    table: table.clone(),
                    column: column.clone(),
                    from: from.clone(),
                    to: to.clone(),
                    rows: *rows,
                }
            },
        }
    }
}

impl StepView {
    /// The step that reverses this one, at the same place.
    pub open spec fn inverse(self) -> StepView {
        match self {
            StepView::RenameDir { from, to } => StepView::RenameDir { from: to, to: from },
            StepView::RewriteJsonValue { file, from, to, occurrences } => {
                StepView::RewriteJsonValue { file, from: to, to: from, occurrences }
            },
            StepView::UpdateSqliteRows { db, table, column, from, to, rows } => {
                StepView::UpdateSqliteRows { db, table, column, from: to, to: from, rows }
            },
        }
    }

    /// One line about the step.
    pub open spec fn line(self) -> Seq<char> {
        match self {
            StepView::RenameDir { from, to } => "rename store dir "@ + from + " -> "@ + (
            match last_name(to) {
                Some(n) => n,
                None => ""@,
            }),
            StepView::RewriteJsonValue { file, occurrences, .. } => "rewrite "@ + dec(
                occurrences as nat,
            ) + " path reference(s) in "@ + file,
            StepView::UpdateSqliteRows { db, table, rows, .. } => "update "@ + dec(rows as nat)
                + " row(s) in "@ + db + "::"@ + table,
        }
    }
}

impl RekeyAction {
    /// The step that reverses this one. The file stays where it is: a file that
    /// was rewritten after its directory was renamed is rewritten back before
    /// the directory is.
    pub fn inverse(&self) -> (r: RekeyAction)
        ensures
            r@ == self@.inverse(),
    {
        match self {
            RekeyAction::RenameDir { from, to } => RekeyAction::RenameDir {
                from: to.clone(),
                to: from.clone(),
            },
            RekeyAction::RewriteJsonValue { file, from, to, occurrences } => {
                RekeyAction::RewriteJsonValue {
                    file: file.clone(),
                    from: to.clone(),
                    to: from.clone(),
                    occurrences: *occurrences,
                }
            },
            RekeyAction::UpdateSqliteRows { db, table, column, from, to, rows } => {
                RekeyAction::UpdateSqliteRows {
                    db: db.clone(),
                    table: table.clone(),
                    column: column.clone(),
                    from: to.clone(),
                    to: from.clone(),
                    rows: *rows,
                }
            },
        }
    }

    /// One line about the step.
    pub fn describe(&self) -> (r: String)
        ensures
            r@ == self@.line(),
    {
        match self {
            RekeyAction::RenameDir { from, to } => {
                let name = match file_name(to) {
                    Some(n) => n,
                    None => owned(""),
                };
                owned("rename store dir ").concat(from).concat(" -> ").concat(&name)
            },
            RekeyAction::RewriteJsonValue { file, occurrences, .. } => owned("rewrite ").concat(
                &decimal_len(*occurrences),
            ).concat(" path reference(s) in ").concat(file),
            RekeyAction::UpdateSqliteRows { db, table, rows, .. } => owned("update ").concat(
                &decimal_len(*rows),
            ).concat(" row(s) in ").concat(db).concat("::").concat(table),
        }
    }
}

/// What re-keying the store of one tool comes to. Without steps the store
/// holds nothing for the project.
#[derive(Debug, PartialEq, Eq)]
pub struct RekeyPlan {
    pub tool: String,
    pub old_path: String,
    pub new_path: String,
    pub actions: Vec<RekeyAction>,
}

/// The model of a [`RekeyPlan`].
pub struct RekeyPlanView {
    pub tool: Seq<char>,
    pub old_path: Seq<char>,
    pub new_path: Seq<char>,
    pub actions: Seq<StepView>,
}

impl View for RekeyPlan {
    type V = RekeyPlanView;

    open spec fn view(&self) -> RekeyPlanView {
        RekeyPlanView {
            tool: self.tool@,
            old_path: self.old_path@,
            new_path: self.new_path@,
            actions: views(self.actions@),
        }
    }
}

impl Clone for RekeyPlan {
    fn clone(&self) -> (r: Self)
        ensures
            r@ == self@,
    {
        RekeyPlan {
            tool: self.tool.clone(),
            old_path: self.old_path.clone(),
            new_path: self.new_path.clone(),
            actions: copy_list(&self.actions),
        }
    }
}

/// The inverses of the steps, the last one first.
pub open spec fn reversed(actions: Seq<StepView>) -> Seq<StepView> {
    Seq::new(actions.len(), |i: int| actions[actions.len() - 1 - i].inverse())
}

impl RekeyPlanView {
    /// The plan that undoes this one.
    pub open spec fn inverse(self) -> RekeyPlanView {
        RekeyPlanView {
            tool: self.tool,
            old_path: self.new_path,
            new_path: self.old_path,
            actions: reversed(self.actions),
        }
    }
}

/// The inverses of the first `n` steps, the last one first.
pub(crate) fn reverse_steps(actions: &Vec<RekeyAction>, n: usize) -> (r: Vec<RekeyAction>)
    requires
        n <= actions@.len(),
    ensures
        views(r@) == reversed(views(actions@).take(n as int)),
{
    let ghost want = reversed(views(actions@).take(n as int));
    let mut out: Vec<RekeyAction> = Vec::new();
    let mut i: usize = n;
    assert(views(out@) =~= want.take(0));
    while i > 0
        invariant
            i <= n <= actions@.len(),
            want == reversed(views(actions@).take(n as int)),
            views(out@) == want.take(n - i),
        decreases i,
    {
        i = i - 1;
        let ghost so_far = views(out@);
        out.push(actions[i].inverse());
        assert(want[n - 1 - i] == actions@[i as int]@.inverse());
        assert(views(out@) =~= so_far.push(want[n - 1 - i]));
        assert(views(out@) =~= want.take(n - i));
    }
    assert(want.take(n as int) =~= want);
    out
}

impl RekeyPlan {
    /// The store holds nothing for the project.
    pub fn is_empty(&self) -> (r: bool)
        ensures
            r == (self@.actions.len() == 0),
    {
        self.actions.len() == 0
    }

    /// The plan that undoes this one: every step inverted, in reverse order.
    /// A file is rewritten back before its directory is renamed away from
    /// under it.
    pub fn inverse(&self) -> (r: RekeyPlan)
        ensures
            r@ == self@.inverse(),
    {
        let actions = reverse_steps(&self.actions, self.actions.len());
        assert(views(self.actions@).take(self.actions@.len() as int) =~= views(self.actions@));
        RekeyPlan {
            tool: self.tool.clone(),
            old_path: self.new_path.clone(),
            new_path: self.old_path.clone(),
            actions,
        }
    }
}

/// Undoing the undoing is doing it again.
pub proof fn lemma_inverse_twice(plan: RekeyPlanView)
    ensures
        plan.inverse().inverse() == plan,
{
    let a = plan.actions;
    let b = reversed(reversed(a));
    assert(b =~= a) by {
        assert forall|i: int| 0 <= i < a.len() implies b[i] == a[i] by {
            assert(reversed(a)[a.len() - 1 - i] == a[i].inverse());
            assert(a[i].inverse().inverse() == a[i]);
        }
    }
}

/// A re-key that stopped, with the way back.
#[derive(Debug, PartialEq, Eq)]
pub struct RekeyFailure {
    pub error: RekeyError,
    /// The plan that reverses exactly the steps that were done.
    pub rollback: RekeyPlan,
}

/// An undo as it was recorded.
#[derive(Debug, PartialEq, Eq)]
pub enum RecordedUndo {
    /// The plans for every store, in the order in which they are replayed.
    Many(Vec<RekeyPlan>),
    /// The plan for a single store.
    One(Box<RekeyPlan>),
}

impl RecordedUndo {
    /// The plans of the record.
    pub open spec fn all(self) -> Seq<RekeyPlanView> {
        match self {
            RecordedUndo::Many(v) => views(v@),
            RecordedUndo::One(p) => seq![p@],
        }
    }

    /// The plans to replay, in order.
    pub fn plans(self) -> (r: Vec<RekeyPlan>)
        ensures
            views(r@) == self.all(),
    {
        match self {
            RecordedUndo::Many(v) => v,
            RecordedUndo::One(p) => {
                let mut out: Vec<RekeyPlan> = Vec::new();
                let ghost want = p@;
                out.push(*p);
                assert(views(out@) =~= seq![want]);
                out
            },
        }
    }
}

} // verus!
