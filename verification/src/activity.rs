//! What was decided, and why, including when it was decided to do nothing.
//!
//! That something worked and that nothing was done are different outcomes,
//! and both differ from a failure.
use vstd::prelude::*;

use crate::text::{dec, decimal_len, opt_view, owned};

verus! {

/// Why nothing was done on purpose.
#[derive(Debug, Clone, Copy, PartialEq, Eq, Structural)]
pub enum NoOpReason {
    /// The tool has no path in the project that could be rewritten.
    ToolDeclaresNotify,
    /// No artifact of the tool is at the path.
    NoArtifactsFound,
    /// The tool's store has no sessions of the project.
    NoStoreForProject,
    /// The fields held the right value already.
    AlreadyCurrent,
}

impl NoOpReason {
    /// The explanation for the operator.
    pub open spec fn explanation(self) -> Seq<char> {
        match self {
            NoOpReason::ToolDeclaresNotify =>
                "tool declares on_move = \"notify\" — no in-project path to rewrite"@,
            NoOpReason::NoArtifactsFound => "no session artifacts matched at this path"@,
            NoOpReason::NoStoreForProject =>
                "the tool's store holds no sessions for this project"@,
            NoOpReason::AlreadyCurrent => "paths already pointed at the current location"@,
        }
    }

    /// The name under which the reason is stored.
    pub open spec fn code(self) -> Seq<char> {
        match self {
            NoOpReason::ToolDeclaresNotify => "tool_declares_notify"@,
            NoOpReason::NoArtifactsFound => "no_artifacts_found"@,
            NoOpReason::NoStoreForProject => "no_store_for_project"@,
            NoOpReason::AlreadyCurrent => "already_current"@,
        }
    }

    /// The explanation for the operator.
    pub fn explain(self) -> (r: &'static str)
        ensures
            r@ == self.explanation(),
    {
        match self {
            NoOpReason::ToolDeclaresNotify =>
                "tool declares on_move = \"notify\" — no in-project path to rewrite",
            NoOpReason::NoArtifactsFound => "no session artifacts matched at this path",
            NoOpReason::NoStoreForProject => "the tool's store holds no sessions for this project",
            NoOpReason::AlreadyCurrent => "paths already pointed at the current location",
        }
    }

    /// The name under which the reason is stored.
    pub fn as_str(self) -> (r: &'static str)
        ensures
            r@ == self.code(),
    {
        match self {
            NoOpReason::ToolDeclaresNotify => "tool_declares_notify",
            NoOpReason::NoArtifactsFound => "no_artifacts_found",
            NoOpReason::NoStoreForProject => "no_store_for_project",
            NoOpReason::AlreadyCurrent => "already_current",
        }
    }
}

/// What an operation did.
#[allow(inconsistent_fields)]
#[derive(Debug, PartialEq, Eq)]
pub enum Outcome {
    /// It changed this many things.
    Acted { actions: usize },
    /// It did nothing on purpose; neither a success nor a failure.
    NoOp { reason: NoOpReason },
    /// It declined, to protect data.
    Refused { reason: String },
    /// It tried and broke.
    Failed { error: String },
}

/// The model of an [`Outcome`].
#[allow(inconsistent_fields)]
pub enum OutcomeView {
    Acted { actions: usize },
    NoOp { reason: NoOpReason },
    Refused { reason: Seq<char> },
    Failed { error: Seq<char> },
}

impl View for Outcome {
    type V = OutcomeView;

    open spec fn view(&self) -> OutcomeView {
        match self {
            Outcome::Acted { actions } => OutcomeView::Acted { actions: *actions },
            Outcome::NoOp { reason } => OutcomeView::NoOp { reason: *reason },
            Outcome::Refused { reason } => OutcomeView::Refused { reason: reason@ },
            Outcome::Failed { error } => OutcomeView::Failed { error: error@ },
        }
    }
}

impl Clone for Outcome {
    fn clone(&self) -> (r: Self)
        ensures
            r@ == self@,
    {
        match self {
            Outcome::Acted { actions } => Outcome::Acted { actions: *actions },
            Outcome::NoOp { reason } => Outcome::NoOp { reason: *reason },
            Outcome::Refused { reason } => Outcome::Refused { reason: reason.clone() },
            Outcome::Failed { error } => Outcome::Failed { error: error.clone() },
        }
    }
}

/// The outcome of changing `actions` things: none is no action.
pub open spec fn acted_outcome(actions: usize, if_none: NoOpReason) -> OutcomeView {
    if actions == 0 {
        OutcomeView::NoOp { reason: if_none }
    } else {
        OutcomeView::Acted { actions }
    }
}

impl OutcomeView {
    /// An action count, when there is one, is not zero.
    pub open spec fn honest(self) -> bool {
        self matches OutcomeView::Acted { actions } ==> actions > 0
    }

    /// The stored reason.
    pub open spec fn reason(self) -> Option<Seq<char>> {
        match self {
            OutcomeView::Acted { .. } => None,
            OutcomeView::NoOp { reason } => Some(reason.code()),
            OutcomeView::Refused { reason } => Some(reason),
            OutcomeView::Failed { error } => Some(error),
        }
    }

    /// One line for the operator.
    pub open spec fn line(self) -> Seq<char> {
        match self {
            OutcomeView::Acted { actions } => "acted on "@ + dec(actions as nat) + " item(s)"@,
            OutcomeView::NoOp { reason } => "did nothing — "@ + reason.explanation(),
            OutcomeView::Refused { reason } => "refused — "@ + reason,
            OutcomeView::Failed { error } => "failed — "@ + error,
        }
    }

    /// The stored kind.
    pub open spec fn kind(self) -> Seq<char> {
        match self {
            OutcomeView::Acted { .. } => "acted"@,
            OutcomeView::NoOp { .. } => "noop"@,
            OutcomeView::Refused { .. } => "refused"@,
            OutcomeView::Failed { .. } => "failed"@,
        }
    }
}

impl Outcome {
    /// The outcome of changing `actions` things. Without any it is a no-op, and
    /// the caller says of which kind.
    pub fn acted(actions: usize, if_none: NoOpReason) -> (r: Outcome)
        ensures
            r@ == acted_outcome(actions, if_none),
            r@.honest(),
    {
        if actions == 0 {
            Outcome::NoOp { reason: if_none }
        } else {
            Outcome::Acted { actions }
        }
    }

    /// Something was changed.
    pub fn changed_something(&self) -> (r: bool)
        ensures
            r == (self@ is Acted),
    {
        match self {
            Outcome::Acted { .. } => true,
            _ => false,
        }
    }

    /// The operation broke, as opposed to declining.
    pub fn is_failure(&self) -> (r: bool)
        ensures
            r == (self@ is Failed),
    {
        match self {
            Outcome::Failed { .. } => true,
            _ => false,
        }
    }

    /// The operator has something to fix.
    pub fn needs_attention(&self) -> (r: bool)
        ensures
            r == (self@ is Failed || self@ is Refused),
    {
        match self {
            Outcome::Failed { .. } => true,
            Outcome::Refused { .. } => true,
            _ => false,
        }
    }

    /// The stored kind.
    pub fn kind(&self) -> (r: &'static str)
        ensures
            r@ == self@.kind(),
    {
        match self {
            Outcome::Acted { .. } => "acted",
            Outcome::NoOp { .. } => "noop",
            Outcome::Refused { .. } => "refused",
            Outcome::Failed { .. } => "failed",
        }
    }

    /// The stored reason, if there is one.
    pub fn reason(&self) -> (r: Option<String>)
        ensures
            opt_view(r) == self@.reason(),
    {
        match self {
            Outcome::Acted { .. } => None,
            Outcome::NoOp { reason } => Some(owned(reason.as_str())),
            Outcome::Refused { reason } => Some(reason.clone()),
            Outcome::Failed { error } => Some(error.clone()),
        }
    }

    /// How many things changed.
    pub fn actions(&self) -> (r: usize)
        ensures
            r == (match self@ {
                OutcomeView::Acted { actions } => actions,
                _ => 0,
            }),
    {
        match self {
            Outcome::Acted { actions } => *actions,
            _ => 0,
        }
    }

    /// One line for the operator.
    pub fn describe(&self) -> (r: String)
        ensures
            r@ == self@.line(),
    {
        match self {
            Outcome::Acted { actions } => owned("acted on ").concat(&decimal_len(*actions)).concat(
                " item(s)",
            ),
            Outcome::NoOp { reason } => owned("did nothing — ").concat(reason.explain()),
            Outcome::Refused { reason } => owned("refused — ").concat(reason),
            Outcome::Failed { error } => owned("failed — ").concat(error),
        }
    }
}

/// A no-op that is asked for as an action is told apart from work: the outcome
/// of no actions changed nothing, broke nothing and needs no attention.
pub proof fn lemma_no_actions_is_no_success(if_none: NoOpReason)
    ensures
        !(acted_outcome(0, if_none) is Acted),
        !(acted_outcome(0, if_none) is Failed),
        !(acted_outcome(0, if_none) is Refused),
        acted_outcome(0, if_none).reason() == Some(if_none.code()),
{
}

/// Whatever did not change anything says why.
pub proof fn lemma_every_outcome_explains_itself(o: OutcomeView)
    ensures
        o is Acted || o.reason() is Some,
        o.line().len() > 8,
{
    reveal_strlit("acted on ");
    reveal_strlit("did nothing — ");
    reveal_strlit("refused — ");
    reveal_strlit("failed — ");
}

/// Who made a decision.
#[derive(Debug, Clone, Copy, PartialEq, Eq, Structural)]
pub enum ActivityKind {
    Reconcile,
    Rekey,
    Daemon,
}

impl ActivityKind {
    /// The stored name.
    pub open spec fn code(self) -> Seq<char> {
        match self {
            ActivityKind::Reconcile => "reconcile"@,
            ActivityKind::Rekey => "rekey"@,
            ActivityKind::Daemon => "daemon"@,
        }
    }

    /// The stored name.
    pub fn as_str(self) -> (r: &'static str)
        ensures
            r@ == self.code(),
    {
        match self {
            ActivityKind::Reconcile => "reconcile",
            ActivityKind::Rekey => "rekey",
            ActivityKind::Daemon => "daemon",
        }
    }
}

/// One recorded decision.
#[derive(Debug)]
pub struct ActivityRecord {
    pub kind: ActivityKind,
    pub tool_name: Option<String>,
    pub project_path: Option<String>,
    pub outcome: Outcome,
}

/// The model of an [`ActivityRecord`].
pub struct RecordedView {
    pub kind: ActivityKind,
    pub tool_name: Option<Seq<char>>,
    pub project_path: Option<Seq<char>>,
    pub outcome: OutcomeView,
}

impl View for ActivityRecord {
    type V = RecordedView;

    open spec fn view(&self) -> RecordedView {
        RecordedView {
            kind: self.kind,
            tool_name: opt_view(self.tool_name),
            project_path: opt_view(self.project_path),
            outcome: self.outcome@,
        }
    }
}

/// How loudly a decision is reported.
#[derive(Debug, Clone, Copy, PartialEq, Eq, Structural)]
pub enum Level {
    Info,
    Warn,
    Error,
}

/// What is reported of a decision.
#[derive(Debug)]
pub struct Report {
    pub level: Level,
    pub kind: &'static str,
    pub tool: String,
    pub project: String,
    /// The count, the reason or the error.
    pub detail: String,
    pub message: &'static str,
}

impl ActivityRecord {
    /// A decision that is about no tool and no project yet.
    pub fn new(kind: ActivityKind, outcome: Outcome) -> (r: ActivityRecord)
        ensures
            r@ == (RecordedView {
                kind,
                tool_name: None,
                project_path: None,
                outcome: outcome@,
            }),
    {
        ActivityRecord { kind, tool_name: None, project_path: None, outcome }
    }

    /// The decision is about this tool.
    pub fn tool(self, tool: &str) -> (r: ActivityRecord)
        ensures
            r@ == (RecordedView { tool_name: Some(tool@), ..self@ }),
    {
        ActivityRecord {
            kind: self.kind,
            tool_name: Some(owned(tool)),
            project_path: self.project_path,
            outcome: self.outcome,
        }
    }

    /// The decision is about this project.
    pub fn project(self, path: &str) -> (r: ActivityRecord)
        ensures
            r@ == (RecordedView { project_path: Some(path@), ..self@ }),
    {
        ActivityRecord {
            kind: self.kind,
            tool_name: self.tool_name,
            project_path: Some(owned(path)),
            outcome: self.outcome,
        }
    }

    /// What is reported of the decision; the same outcome that is recorded.
    pub fn emit(&self) -> (r: Report)
        ensures
            r.kind@ == self@.kind.code(),
            r.tool@ == (match self@.tool_name {
                Some(t) => t,
                None => "-"@,
            }),
            r.project@ == (match self@.project_path {
                Some(p) => p,
                None => "-"@,
            }),
            match self@.outcome {
                OutcomeView::Acted { actions } => r.level == Level::Info && r.detail@ == dec(
                    actions as nat,
                ) && r.message@ == "acted"@,
                OutcomeView::NoOp { reason } => r.level == Level::Info && r.detail@
                    == reason.code() && r.message@ == "no-op"@,
                OutcomeView::Refused { reason } => r.level == Level::Warn && r.detail@ == reason
                    && r.message@ == "refused"@,
                OutcomeView::Failed { error } => r.level == Level::Error && r.detail@ == error
                    && r.message@ == "failed"@,
            },
    {
        let kind = self.kind.as_str();
        let tool = match &self.tool_name {
            Some(t) => t.clone(),
            None => owned("-"),
        };
        let project = match &self.project_path {
            Some(p) => p.clone(),
            None => owned("-"),
        };
        match &self.outcome {
            Outcome::Acted { actions } => Report {
                level: Level::Info,
                kind,
                tool,
                project,
                detail: decimal_len(*actions),
                message: "acted",
            },
            Outcome::NoOp { reason } => Report {
                level: Level::Info,
                kind,
                tool,
                project,
                detail: owned(reason.as_str()),
                message: "no-op",
            },
            Outcome::Refused { reason } => Report {
                level: Level::Warn,
                kind,
                tool,
                project,
                detail: reason.clone(),
                message: "refused",
            },
            Outcome::Failed { error } => Report {
                level: Level::Error,
                kind,
                tool,
                project,
                detail: error.clone(),
                message: "failed",
            },
        }
    }
}

} // verus!
