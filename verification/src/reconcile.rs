//! The course of a reconciliation: one field of one artifact after the other.
//!
//! A reconciliation starts with [`reconcile`]. Its next request is
//! [`Reconciliation::next`]; the reply goes to [`rewrite_paths`].
pub mod laws;

use vstd::prelude::*;

use crate::activity::{acted_outcome, NoOpReason, Outcome, OutcomeView};
use crate::error::Error;
use crate::event_log::{ActionView, ReconcileAction};
use crate::paths::{join_path, joined};
use crate::reconciler::{
    candidates, field_rewrite, nonempty_roots, path_pair_candidates, rewrite_field, searchable,
    ArtifactRead, PathPair, Rewritten,
};
use crate::text::{copy_list, join, join_all, opt_view, owned, views};
use crate::tools::{
    FieldView, PathFieldSpec, ReconcileStrategy, StrategyView, ToolDefinition, ToolView,
};

verus! {

/// What came of the reconciliation of one tool.
#[derive(Debug)]
pub struct ReconcileResult {
    pub tool_name: String,
    pub actions_taken: Vec<ReconcileAction>,
    /// Nothing broke.
    pub success: bool,
    pub error: Option<String>,
    /// What was done, and if nothing, why.
    pub outcome: Outcome,
}

/// The model of a [`ReconcileResult`].
pub struct ReconciledView {
    pub tool_name: Seq<char>,
    pub actions_taken: Seq<ActionView>,
    pub success: bool,
    pub error: Option<Seq<char>>,
    pub outcome: OutcomeView,
}

impl View for ReconcileResult {
    type V = ReconciledView;

    open spec fn view(&self) -> ReconciledView {
        ReconciledView {
            tool_name: self.tool_name@,
            actions_taken: views(self.actions_taken@),
            success: self.success,
            error: opt_view(self.error),
            outcome: self.outcome@,
        }
    }
}

/// The result of a reconciliation that broke.
pub open spec fn failed_result(
    tool_name: Seq<char>,
    actions: Seq<ActionView>,
    error: Seq<char>,
) -> ReconciledView {
    ReconciledView {
        tool_name,
        actions_taken: actions,
        success: false,
        error: Some(error),
        outcome: OutcomeView::Failed { error },
    }
}

/// The result of a reconciliation that did not break.
pub open spec fn fine_result(
    tool_name: Seq<char>,
    actions: Seq<ActionView>,
    if_none: NoOpReason,
) -> ReconciledView {
    ReconciledView {
        tool_name,
        actions_taken: actions,
        success: true,
        error: None,
        outcome: acted_outcome(actions.len() as usize, if_none),
    }
}

/// Where a reconciliation stands.
#[derive(Debug)]
pub enum Phase {
    /// An artifact is to be read.
    Read,
    /// An artifact is to be written.
    Write { text: String, pair: usize },
    /// A rewrite is to be recorded.
    Record { action: ReconcileAction },
    /// It is over.
    Finished { result: ReconcileResult },
}

/// A reconciliation under way.
pub struct Reconciliation {
    tool_name: String,
    fields: Vec<PathFieldSpec>,
    new_root: String,
    pairs: Vec<PathPair>,
    at: usize,
    found: bool,
    actions: Vec<ReconcileAction>,
    errors: Vec<String>,
    phase: Phase,
}

/// The model of a [`Phase`].
pub enum PhaseView {
    Read,
    Write { text: Seq<char>, pair: int },
    Record { action: ActionView },
    Finished { result: ReconciledView },
}

impl View for Phase {
    type V = PhaseView;

    open spec fn view(&self) -> PhaseView {
        match self {
            Phase::Read => PhaseView::Read,
            Phase::Write { text, pair } => PhaseView::Write { text: text@, pair: *pair as int },
            Phase::Record { action } => PhaseView::Record { action: action@ },
            Phase::Finished { result } => PhaseView::Finished { result: result@ },
        }
    }
}

/// The model of a [`Reconciliation`].
pub struct CourseView {
    pub tool_name: Seq<char>,
    pub fields: Seq<FieldView>,
    pub new_root: Seq<char>,
    pub pairs: Seq<(Seq<char>, Seq<char>)>,
    /// The field that is being dealt with.
    pub at: int,
    /// Some artifact was there.
    pub found: bool,
    pub actions: Seq<ActionView>,
    pub errors: Seq<Seq<char>>,
    pub phase: PhaseView,
}

impl View for Reconciliation {
    type V = CourseView;

    closed spec fn view(&self) -> CourseView {
        CourseView {
            tool_name: self.tool_name@,
            fields: views(self.fields@),
            new_root: self.new_root@,
            pairs: views(self.pairs@),
            at: self.at as int,
            found: self.found,
            actions: views(self.actions@),
            errors: views(self.errors@),
            phase: self.phase@,
        }
    }
}

/// What a reconciliation asks for.
#[derive(Debug)]
pub enum ReconcileRequest {
    /// Read this artifact.
    Read { path: String },
    /// Write this artifact, all of it or not at all.
    Write { path: String, text: String },
    /// Record this rewrite.
    Record { action: ReconcileAction },
    /// Nothing; it is over.
    Finished,
}

/// The model of a [`ReconcileRequest`].
#[allow(inconsistent_fields)]
pub enum RequestView {
    Read { path: Seq<char> },
    Write { path: Seq<char>, text: Seq<char> },
    Record { action: ActionView },
    Finished,
}

impl View for ReconcileRequest {
    type V = RequestView;

    open spec fn view(&self) -> RequestView {
        match self {
            ReconcileRequest::Read { path } => RequestView::Read { path: path@ },
            ReconcileRequest::Write { path, text } => RequestView::Write {
                path: path@,
                text: text@,
            },
            ReconcileRequest::Record { action } => RequestView::Record { action: action@ },
            ReconcileRequest::Finished => RequestView::Finished,
        }
    }
}

/// What came of it.
#[derive(Debug)]
pub enum ReconcileReply {
    /// There is no such artifact.
    Missing,
    /// This is what reading it gave.
    Read(ArtifactRead),
    /// It was written, or not.
    Written(Result<(), String>),
    /// It was recorded, or not.
    Recorded(Result<(), String>),
}

impl CourseView {
    /// Where the artifact of the present field is.
    pub open spec fn path(self) -> Seq<char> {
        joined(self.new_root, self.fields[self.at].file)
    }

    /// What it asks for next.
    pub open spec fn next(self) -> RequestView {
        match self.phase {
            PhaseView::Read => RequestView::Read { path: self.path() },
            PhaseView::Write { text, .. } => RequestView::Write { path: self.path(), text },
            PhaseView::Record { action } => RequestView::Record { action },
            PhaseView::Finished { .. } => RequestView::Finished,
        }
    }

    /// It is over when no field is left.
    pub open spec fn settled(self) -> CourseView {
        if self.at < self.fields.len() {
            CourseView { phase: PhaseView::Read, ..self }
        } else if self.errors.len() > 0 {
            CourseView {
                phase: PhaseView::Finished {
                    result: failed_result(
                        self.tool_name,
                        self.actions,
                        "failed to rewrite: "@ + join(self.errors, "; "@),
                    ),
                },
                ..self
            }
        } else {
            CourseView {
                phase: PhaseView::Finished {
                    result: fine_result(
                        self.tool_name,
                        self.actions,
                        if self.found {
                            NoOpReason::AlreadyCurrent
                        } else {
                            NoOpReason::NoArtifactsFound
                        },
                    ),
                },
                ..self
            }
        }
    }

    /// On to the next field.
    pub open spec fn skip(self) -> CourseView {
        CourseView { at: self.at + 1, ..self }.settled()
    }

    /// On to the next field, with one more complaint.
    pub open spec fn complain(self, what: Seq<char>) -> CourseView {
        CourseView { errors: self.errors.push(self.path() + ": "@ + what), ..self }.skip()
    }

    /// The record of the rewrite of the present field: the pair that was
    /// applied, so that the undo finds what was written.
    pub open spec fn action(self, pair: int) -> ActionView {
        ActionView {
            tool_name: self.tool_name,
            file_path: self.path(),
            field: self.fields[self.at].field,
            format: self.fields[self.at].format,
            old_value: self.pairs[pair].0,
            new_value: self.pairs[pair].1,
        }
    }

    /// `next` is the course after the reply. A reply that answers another
    /// question changes nothing.
    pub open spec fn advance(self, reply: ReconcileReply, next: CourseView) -> bool {
        match (self.phase, reply) {
            (PhaseView::Read, ReconcileReply::Missing) => next == self.skip(),
            (PhaseView::Read, ReconcileReply::Read(read)) => {
                let here = CourseView { found: true, ..self };
                exists|r: Result<Option<Rewritten>, Error>|
                    #![trigger field_rewrite(self.path(), read, self.fields[self.at].field, self.fields[self.at].format, self.pairs, r)]
                    field_rewrite(
                        self.path(),
                        read,
                        self.fields[self.at].field,
                        self.fields[self.at].format,
                        self.pairs,
                        r,
                    ) && next == match r {
                        Ok(None) => here.skip(),
                        Err(e) => here.complain(e.text()),
                        Ok(Some(w)) => CourseView {
                            phase: PhaseView::Write { text: w.text@, pair: w.pair as int },
                            ..here
                        },
                    }
            },
            (PhaseView::Write { text, pair }, ReconcileReply::Written(r)) => next == match r {
                Err(e) => self.complain("IO error: "@ + e@),
                Ok(()) => CourseView {
                    phase: PhaseView::Record { action: self.action(pair) },
                    ..self
                },
            },
            (PhaseView::Record { action }, ReconcileReply::Recorded(r)) => {
                let done = CourseView { actions: self.actions.push(action), ..self };
                next == match r {
                    Err(e) => CourseView {
                        phase: PhaseView::Finished {
                            result: failed_result(
                                self.tool_name,
                                done.actions,
                                "rewrote "@ + self.path()
                                    + " but failed to record its undo entry (undo unavailable for this change): "@
                                    + e@,
                            ),
                        },
                        ..done
                    },
                    Ok(()) => done.skip(),
                }
            },
            _ => next == self,
        }
    }

    /// The present field is one of the fields, the pair that was applied one
    /// of the pairs, and there are no more actions than fields.
    pub open spec fn sound(self) -> bool {
        &&& 0 <= self.at <= self.fields.len()
        &&& self.fields.len() <= usize::MAX
        &&& self.phase is Finished || all_searchable(self.fields, self.pairs)
        &&& self.phase is Finished || self.at < self.fields.len()
        &&& self.phase is Finished || self.actions.len() <= self.at
        &&& self.phase matches PhaseView::Write { pair, .. } ==> 0 <= pair < self.pairs.len()
        &&& self.phase matches PhaseView::Finished { result } ==> result.actions_taken
            == self.actions
    }
}

/// Each of the fields can be searched for the old roots.
pub open spec fn all_searchable(
    fields: Seq<FieldView>,
    pairs: Seq<(Seq<char>, Seq<char>)>,
) -> bool {
    forall|i: int| 0 <= i < fields.len() ==> searchable((#[trigger] fields[i]).format, pairs)
}

/// A reconciliation at its start.
pub open spec fn begun(
    tool: ToolView,
    old_root: Seq<char>,
    new_root: Seq<char>,
    private_root: bool,
) -> CourseView {
    let blank = CourseView {
        tool_name: tool.name,
        fields: tool.path_fields,
        new_root,
        pairs: candidates(old_root, new_root, private_root),
        at: 0,
        found: false,
        actions: Seq::empty(),
        errors: Seq::empty(),
        phase: PhaseView::Read,
    };
    match tool.on_move {
        StrategyView::RewritePaths => blank.settled(),
        StrategyView::Notify => CourseView {
            phase: PhaseView::Finished {
                result: fine_result(tool.name, Seq::empty(), NoOpReason::ToolDeclaresNotify),
            },
            ..blank
        },
        StrategyView::Custom(_) => CourseView {
            phase: PhaseView::Finished {
                result: failed_result(
                    tool.name,
                    Seq::empty(),
                    "custom reconciliation not yet implemented"@,
                ),
            },
            ..blank
        },
    }
}

fn failed(tool_name: &str, actions: &Vec<ReconcileAction>, error: String) -> (r: ReconcileResult)
    ensures
        r@ == failed_result(tool_name@, views(actions@), error@),
{
    ReconcileResult {
        tool_name: owned(tool_name),
        actions_taken: copy_list(actions),
        success: false,
        error: Some(error.clone()),
        outcome: Outcome::Failed { error },
    }
}

fn fine(tool_name: &str, actions: &Vec<ReconcileAction>, if_none: NoOpReason) -> (r:
    ReconcileResult)
    ensures
        r@ == fine_result(tool_name@, views(actions@), if_none),
{
    ReconcileResult {
        tool_name: owned(tool_name),
        actions_taken: copy_list(actions),
        success: true,
        error: None,
        outcome: Outcome::acted(actions.len(), if_none),
    }
}

/// Start the reconciliation of a tool's artifacts in a project that has moved.
/// The old root is not empty where some artifact is a plain text.
pub fn reconcile(tool: &ToolDefinition, old_root: &str, new_root: &str, private_root: bool) -> (r:
    Reconciliation)
    requires
        tool@.on_move is RewritePaths ==> all_searchable(
            tool@.path_fields,
            seq![(old_root@, new_root@)],
        ),
    ensures
        r@ == begun(tool@, old_root@, new_root@, private_root),
        r@.sound(),
{
    let pairs = path_pair_candidates(old_root, new_root, private_root);
    let ghost one = seq![(old_root@, new_root@)];
    assert(nonempty_roots(one) ==> nonempty_roots(views(pairs@))) by {
        reveal_strlit("/private");
        if nonempty_roots(one) {
            assert(one[0].0.len() > 0);
            let c = candidates(old_root@, new_root@, private_root);
            assert forall|i: int| 0 <= i < c.len() implies (#[trigger] c[i]).0.len() > 0 by {}
        }
    }
    assert(all_searchable(tool@.path_fields, one) ==> all_searchable(
        tool@.path_fields,
        views(pairs@),
    ));
    let no_actions: Vec<ReconcileAction> = Vec::new();
    assert(views(no_actions@) =~= Seq::<ActionView>::empty());
    let mut r = Reconciliation {
        tool_name: tool.name.clone(),
        fields: copy_list(&tool.path_fields),
        new_root: owned(new_root),
        pairs,
        at: 0,
        found: false,
        actions: Vec::new(),
        errors: Vec::new(),
        phase: Phase::Read,
    };
    assert(views(r.actions@) =~= Seq::<ActionView>::empty());
    assert(views(r.errors@) =~= Seq::<Seq<char>>::empty());
    let count: usize = r.fields.len();
    match &tool.on_move {
        ReconcileStrategy::RewritePaths => r.settle(),
        ReconcileStrategy::Notify => {
            r.phase = Phase::Finished {
                result: fine(&tool.name, &no_actions, NoOpReason::ToolDeclaresNotify),
            };
        },
        ReconcileStrategy::Custom(_) => {
            r.phase = Phase::Finished {
                result: failed(
                    &tool.name,
                    &no_actions,
                    owned("custom reconciliation not yet implemented"),
                ),
            };
        },
    }
    r
}

impl Reconciliation {
    fn settle(&mut self)
        requires
            old(self).at <= old(self).fields@.len(),
        ensures
            final(self)@ == old(self)@.settled(),
    {
        if self.at < self.fields.len() {
            self.phase = Phase::Read;
        } else if self.errors.len() > 0 {
            let error = owned("failed to rewrite: ").concat(&join_all(&self.errors, "; "));
            self.phase = Phase::Finished { result: failed(&self.tool_name, &self.actions, error) };
        } else {
            let reason = if self.found {
                NoOpReason::AlreadyCurrent
            } else {
                NoOpReason::NoArtifactsFound
            };
            self.phase = Phase::Finished { result: fine(&self.tool_name, &self.actions, reason) };
        }
    }

    fn skip(&mut self)
        requires
            old(self).at < old(self).fields@.len(),
        ensures
            final(self)@ == old(self)@.skip(),
    {
        let count: usize = self.fields.len();
        self.at = self.at + 1;
        self.settle();
    }

    fn path(&self) -> (r: String)
        requires
            self.at < self.fields@.len(),
        ensures
            r@ == self@.path(),
    {
        assert(views(self.fields@)[self.at as int] == self.fields@[self.at as int]@);
        join_path(&self.new_root, &self.fields[self.at].file)
    }

    fn complain(&mut self, what: &str)
        requires
            old(self).at < old(self).fields@.len(),
        ensures
            final(self)@ == old(self)@.complain(what@),
    {
        let e = self.path().concat(": ").concat(what);
        let ghost before = views(self.errors@);
        self.errors.push(e);
        assert(views(self.errors@) =~= before.push(e@));
        self.skip();
    }

    /// What it asks for next.
    pub fn next(&self) -> (r: ReconcileRequest)
        requires
            self@.sound(),
        ensures
            r@ == self@.next(),
    {
        match &self.phase {
            Phase::Read => ReconcileRequest::Read { path: self.path() },
            Phase::Write { text, .. } => ReconcileRequest::Write {
                path: self.path(),
                text: text.clone(),
            },
            Phase::Record { action } => ReconcileRequest::Record { action: action.clone() },
            Phase::Finished { .. } => ReconcileRequest::Finished,
        }
    }

    /// The result, once it is over.
    pub fn result(&self) -> (r: Option<&ReconcileResult>)
        ensures
            match r {
                Some(x) => self@.phase == (PhaseView::Finished { result: x@ }),
                None => !(self@.phase is Finished),
            },
    {
        match &self.phase {
            Phase::Finished { result } => Some(result),
            _ => None,
        }
    }
}

/// Take a reply into account. A bad artifact does not keep the others from
/// being rewritten; a rewrite that cannot be recorded ends the reconciliation,
/// as it could not be undone.
pub fn rewrite_paths(run: &mut Reconciliation, reply: ReconcileReply)
    requires
        old(run)@.sound(),
    ensures
        old(run)@.advance(reply, final(run)@),
        final(run)@.sound(),
{
    match (&run.phase, &reply) {
        (Phase::Read, ReconcileReply::Missing) => run.skip(),
        (Phase::Read, ReconcileReply::Read(read)) => {
            let path = run.path();
            let r = rewrite_field(&path, read, &run.fields[run.at], &run.pairs);
            assert(views(run.fields@)[run.at as int] == run.fields@[run.at as int]@);
            run.found = true;
            match r {
                Ok(None) => run.skip(),
                Err(e) => run.complain(&e.message()),
                Ok(Some(w)) => {
                    run.phase = Phase::Write { text: w.text, pair: w.pair };
                },
            }
        },
        (Phase::Write { pair, .. }, ReconcileReply::Written(w)) => {
            let pair: usize = *pair;
            match w {
                Err(e) => run.complain(&owned("IO error: ").concat(e)),
                Ok(()) => {
                    assert(views(run.fields@)[run.at as int] == run.fields@[run.at as int]@);
                    assert(views(run.pairs@)[pair as int] == run.pairs@[pair as int]@);
                    let action = ReconcileAction {
                        tool_name: run.tool_name.clone(),
                        file_path: run.path(),
                        field: run.fields[run.at].field.clone(),
                        format: run.fields[run.at].format.clone(),
                        old_value: run.pairs[pair].old.clone(),
                        new_value: run.pairs[pair].new.clone(),
                    };
                    run.phase = Phase::Record { action };
                },
            }
        },
        (Phase::Record { action }, ReconcileReply::Recorded(w)) => {
            let action = action.clone();
            let ghost before = views(run.actions@);
            run.actions.push(action);
            assert(views(run.actions@) =~= before.push(action@));
            match w {
                Err(e) => {
                    let error = owned("rewrote ").concat(&run.path()).concat(
                        " but failed to record its undo entry (undo unavailable for this change): ",
                    ).concat(e);
                    run.phase = Phase::Finished {
                        result: failed(&run.tool_name, &run.actions, error),
                    };
                },
                Ok(()) => run.skip(),
            }
        },
        _ => {},
    }
}

/// A finished reconciliation that broke nothing and changed nothing says so,
/// and is not counted as work.
pub proof fn lemma_finished_outcome_is_honest(c: CourseView)
    requires
        c.at >= c.fields.len(),
        c.actions.len() <= usize::MAX,
    ensures
        c.settled().phase matches PhaseView::Finished { result } && result.outcome.honest()
            && result.success == !(result.outcome is Failed) && (result.outcome is Acted ==> c.actions.len()
            > 0 && c.errors.len() == 0),
{
}

} // verus!
