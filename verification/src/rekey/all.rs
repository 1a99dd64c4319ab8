//! Re-keying every store of a project at once.
use vstd::prelude::*;

use crate::activity::{
    acted_outcome, ActivityKind, ActivityRecord, NoOpReason, Outcome, OutcomeView, RecordedView,
};
use crate::rekey::apply::{apply, first_failure, lemma_first_failure, rollback_of, ApplyStep};
use crate::rekey::types::{
    RekeyAction, RekeyError, RekeyErrorView, RekeyFailure, RekeyPlan, RekeyPlanView, StepView,
};
use crate::text::{join, join_all, opt_view, owned, views};

verus! {

/// What happened to the store of one tool.
#[derive(Debug, PartialEq, Eq)]
pub struct RekeyReport {
    pub tool: String,
    /// What it would take, or took.
    pub plan: RekeyPlan,
    pub applied: bool,
    /// The number under which the undo was recorded.
    pub log_id: Option<i64>,
    /// Why the store was refused, or failed.
    pub error: Option<String>,
}

/// The model of a [`RekeyReport`].
pub struct RekeyReportView {
    pub tool: Seq<char>,
    pub plan: RekeyPlanView,
    pub applied: bool,
    pub log_id: Option<i64>,
    pub error: Option<Seq<char>>,
}

impl View for RekeyReport {
    type V = RekeyReportView;

    open spec fn view(&self) -> RekeyReportView {
        RekeyReportView {
            tool: self.tool@,
            plan: self.plan@,
            applied: self.applied,
            log_id: self.log_id,
            error: opt_view(self.error),
        }
    }
}

/// What was done about the store of one tool.
#[derive(Debug, PartialEq, Eq)]
pub enum StoreOutcome {
    /// There was no plan.
    Refused(RekeyError),
    /// There was a plan, and it was not carried out.
    Planned(RekeyPlan),
    /// The plan was carried out; this undoes it.
    Applied { plan: RekeyPlan, undo: RekeyPlan },
    /// A step failed; the steps before it were rolled back, or that failed too.
    Failed { plan: RekeyPlan, failure: RekeyFailure, rolled_back: bool },
}

/// The model of a [`StoreOutcome`].
pub enum StoreOutcomeView {
    Refused(RekeyErrorView),
    Planned(RekeyPlanView),
    Applied { plan: RekeyPlanView, undo: RekeyPlanView },
    Failed {
        plan: RekeyPlanView,
        error: RekeyErrorView,
        rollback: RekeyPlanView,
        rolled_back: bool,
    },
}

impl View for StoreOutcome {
    type V = StoreOutcomeView;

    open spec fn view(&self) -> StoreOutcomeView {
        match self {
            StoreOutcome::Refused(e) => StoreOutcomeView::Refused(e@),
            StoreOutcome::Planned(p) => StoreOutcomeView::Planned(p@),
            StoreOutcome::Applied { plan, undo } => StoreOutcomeView::Applied {
                plan: plan@,
                undo: undo@,
            },
            StoreOutcome::Failed { plan, failure, rolled_back } => StoreOutcomeView::Failed {
                plan: plan@,
                error: failure.error@,
                rollback: failure.rollback@,
                rolled_back: *rolled_back,
            },
        }
    }
}

/// How to go on with the store of one tool.
#[derive(Debug, PartialEq, Eq)]
pub enum StoreStep {
    /// Do this step of the plan.
    Do(RekeyAction),
    /// Do this step of the roll-back.
    Undo(RekeyAction),
    /// There is nothing more to do.
    Finished(StoreOutcome),
}

/// The model of a [`StoreStep`].
pub enum StoreStepView {
    Do(StepView),
    Undo(StepView),
    Finished(StoreOutcomeView),
}

impl View for StoreStep {
    type V = StoreStepView;

    open spec fn view(&self) -> StoreStepView {
        match self {
            StoreStep::Do(a) => StoreStepView::Do(a@),
            StoreStep::Undo(a) => StoreStepView::Undo(a@),
            StoreStep::Finished(o) => StoreStepView::Finished(o@),
        }
    }
}

/// A plan is carried out unless it is empty, or this is a rehearsal.
pub fn worth_applying(plan: &RekeyPlan, dry_run: bool) -> (r: bool)
    ensures
        r == (plan@.actions.len() > 0 && !dry_run),
{
    !plan.is_empty() && !dry_run
}

/// The course of re-keying one store, from its plan and the results of the
/// steps so far. Without a plan the store is refused; a plan that is empty, or
/// a rehearsal, ends there. Otherwise the steps are done in order. When one
/// fails, those before it are undone, the last one first.
pub open spec fn store_course(
    planned: Result<RekeyPlan, RekeyError>,
    dry_run: bool,
    done: Seq<Result<(), RekeyError>>,
    undone: Seq<Result<(), RekeyError>>,
) -> StoreStepView {
    match planned {
        Err(e) => StoreStepView::Finished(StoreOutcomeView::Refused(e@)),
        Ok(p) => if p@.actions.len() == 0 || dry_run {
            StoreStepView::Finished(StoreOutcomeView::Planned(p@))
        } else {
            let k = first_failure(done);
            if k < done.len() {
                let error = done[k]->Err_0@;
                let rollback = rollback_of(p@, k);
                let j = first_failure(undone);
                if j == undone.len() && j < rollback.actions.len() {
                    StoreStepView::Undo(rollback.actions[j])
                } else {
                    StoreStepView::Finished(
                        StoreOutcomeView::Failed {
                            plan: p@,
                            error,
                            rollback,
                            rolled_back: j == undone.len(),
                        },
                    )
                }
            } else if k < p@.actions.len() {
                StoreStepView::Do(p@.actions[k])
            } else {
                StoreStepView::Finished(
                    StoreOutcomeView::Applied { plan: p@, undo: p@.inverse() },
                )
            }
        },
    }
}

/// There are no more results than steps that were asked for.
pub open spec fn in_course(
    planned: Result<RekeyPlan, RekeyError>,
    done: Seq<Result<(), RekeyError>>,
    undone: Seq<Result<(), RekeyError>>,
) -> bool {
    planned matches Ok(p) ==> done.len() <= p@.actions.len() && undone.len() <= first_failure(done)
}

/// How to go on with one store: what to do next, or what came of it.
pub fn store_step(
    planned: &Result<RekeyPlan, RekeyError>,
    dry_run: bool,
    done: &Vec<Result<(), RekeyError>>,
    undone: &Vec<Result<(), RekeyError>>,
) -> (r: StoreStep)
    requires
        in_course(*planned, done@, undone@),
    ensures
        r@ == store_course(*planned, dry_run, done@, undone@),
{
    proof {
        lemma_first_failure(done@);
        lemma_first_failure(undone@);
    }
    match planned {
        Err(e) => StoreStep::Finished(StoreOutcome::Refused(e.clone())),
        Ok(p) => {
            if !worth_applying(p, dry_run) {
                return StoreStep::Finished(StoreOutcome::Planned(p.clone()));
            }
            match apply(p, done) {
                ApplyStep::Next(i) => StoreStep::Do(p.actions[i].clone()),
                ApplyStep::Done(undo) => StoreStep::Finished(
                    StoreOutcome::Applied { plan: p.clone(), undo },
                ),
                ApplyStep::Failed(failure) => {
                    let rolled_back = match apply(&failure.rollback, undone) {
                        ApplyStep::Next(j) => {
                            return StoreStep::Undo(failure.rollback.actions[j].clone());
                        },
                        ApplyStep::Done(_) => true,
                        ApplyStep::Failed(_) => false,
                    };
                    StoreStep::Finished(
                        StoreOutcome::Failed { plan: p.clone(), failure, rolled_back },
                    )
                },
            }
        },
    }
}

/// What is said of a step that failed.
pub open spec fn failure_text(
    error: Seq<char>,
    rolled_back: bool,
    old_path: Seq<char>,
) -> Seq<char> {
    if rolled_back {
        error + " (this store was rolled back, nothing changed)"@
    } else {
        error
            + " — AND the rollback also failed; this store is partly re-keyed. Inspect "@
            + old_path + " before using it."@
    }
}

/// The report on a store.
pub open spec fn report_of(
    tool: Seq<char>,
    outcome: StoreOutcomeView,
    old_path: Seq<char>,
    new_path: Seq<char>,
) -> RekeyReportView {
    match outcome {
        StoreOutcomeView::Refused(e) => RekeyReportView {
            tool,
            plan: RekeyPlanView { tool, old_path, new_path, actions: seq![] },
            applied: false,
            log_id: None,
            error: Some(e.text()),
        },
        StoreOutcomeView::Planned(plan) => RekeyReportView {
            tool,
            plan,
            applied: false,
            log_id: None,
            error: None,
        },
        StoreOutcomeView::Applied { plan, .. } => RekeyReportView {
            tool,
            plan,
            applied: true,
            log_id: None,
            error: None,
        },
        StoreOutcomeView::Failed { plan, error, rolled_back, .. } => RekeyReportView {
            tool,
            plan,
            applied: false,
            log_id: None,
            error: Some(failure_text(error.text(), rolled_back, plan.old_path)),
        },
    }
}

fn report(tool: &str, outcome: &StoreOutcome, old_path: &str, new_path: &str) -> (r: RekeyReport)
    ensures
        r@ == report_of(tool@, outcome@, old_path@, new_path@),
{
    match outcome {
        StoreOutcome::Refused(e) => {
            let plan = RekeyPlan {
                tool: owned(tool),
                old_path: owned(old_path),
                new_path: owned(new_path),
                actions: Vec::new(),
            };
            assert(plan@.actions =~= seq![]);
            RekeyReport {
                tool: owned(tool),
                plan,
                applied: false,
                log_id: None,
                error: Some(e.message()),
            }
        },
        StoreOutcome::Planned(plan) => RekeyReport {
            tool: owned(tool),
            plan: plan.clone(),
            applied: false,
            log_id: None,
            error: None,
        },
        StoreOutcome::Applied { plan, undo } => RekeyReport {
            tool: owned(tool),
            plan: plan.clone(),
            applied: true,
            log_id: None,
            error: None,
        },
        StoreOutcome::Failed { plan, failure, rolled_back } => {
            let e = failure.error.message();
            let detail = if *rolled_back {
                e.concat(" (this store was rolled back, nothing changed)")
            } else {
                e.concat(
                    " — AND the rollback also failed; this store is partly re-keyed. Inspect ",
                ).concat(&plan.old_path).concat(" before using it.")
            };
            RekeyReport {
                tool: owned(tool),
                plan: plan.clone(),
                applied: false,
                log_id: None,
                error: Some(detail),
            }
        },
    }
}

/// The store of one tool, the project that moved, and what was done about it.
#[derive(Debug, PartialEq, Eq)]
pub struct Handled {
    pub tool: String,
    pub old_path: String,
    pub new_path: String,
    /// The plan, or why there is none.
    pub planned: Result<RekeyPlan, RekeyError>,
    /// The results of the steps of the plan that were asked for.
    pub done: Vec<Result<(), RekeyError>>,
    /// The results of the steps of the roll-back that were asked for.
    pub undone: Vec<Result<(), RekeyError>>,
}

impl Handled {
    /// All that was asked for was done, and nothing else.
    pub open spec fn settled(self, dry_run: bool) -> bool {
        &&& in_course(self.planned, self.done@, self.undone@)
        &&& store_course(self.planned, dry_run, self.done@, self.undone@) is Finished
    }

    /// What came of it.
    pub open spec fn outcome(self, dry_run: bool) -> StoreOutcomeView {
        store_course(self.planned, dry_run, self.done@, self.undone@)->Finished_0
    }
}

/// The reports on the stores, in their order.
pub open spec fn reports_of(handled: Seq<Handled>, dry_run: bool) -> Seq<RekeyReportView> {
    Seq::new(
        handled.len(),
        |i: int|
            report_of(
                handled[i].tool@,
                handled[i].outcome(dry_run),
                handled[i].old_path@,
                handled[i].new_path@,
            ),
    )
}

/// What is recorded of the stores, in their order.
pub open spec fn decisions_of(handled: Seq<Handled>) -> Seq<RecordedView> {
    Seq::new(
        handled.len(),
        |i: int| decision(reports_of(handled, false)[i], handled[i].new_path@),
    )
}

/// The plans that undo what was done, the last store first.
pub open spec fn undos_of(handled: Seq<Handled>, dry_run: bool) -> Seq<RekeyPlanView>
    decreases handled.len(),
{
    if handled.len() == 0 {
        seq![]
    } else {
        let rest = undos_of(handled.drop_last(), dry_run);
        match handled.last().outcome(dry_run) {
            StoreOutcomeView::Applied { undo, .. } => seq![undo] + rest,
            _ => rest,
        }
    }
}

/// The tools whose stores were re-keyed, in their order.
pub open spec fn tools_of(handled: Seq<Handled>, dry_run: bool) -> Seq<Seq<char>>
    decreases handled.len(),
{
    if handled.len() == 0 {
        seq![]
    } else {
        let rest = tools_of(handled.drop_last(), dry_run);
        match handled.last().outcome(dry_run) {
            StoreOutcomeView::Applied { .. } => rest.push(handled.last().tool@),
            _ => rest,
        }
    }
}

/// What is recorded of a report.
pub open spec fn decision(report: RekeyReportView, new_path: Seq<char>) -> RecordedView {
    RecordedView {
        kind: ActivityKind::Rekey,
        tool_name: Some(report.tool),
        project_path: Some(new_path),
        outcome: match report.error {
            Some(e) => OutcomeView::Refused { reason: e },
            None => if report.applied {
                acted_outcome(
                    report.plan.actions.len() as usize,
                    NoOpReason::NoStoreForProject,
                )
            } else {
                OutcomeView::NoOp { reason: NoOpReason::NoStoreForProject }
            },
        },
    }
}

/// One row for the undo of the whole.
#[derive(Debug, PartialEq, Eq)]
pub struct UndoRecord {
    /// The names of the tools.
    pub label: String,
    pub old_path: String,
    pub new_path: String,
    /// The plans to replay, in order.
    pub undos: Vec<RekeyPlan>,
}

/// What came of re-keying every store.
#[derive(Debug)]
pub struct RekeyResult {
    pub reports: Vec<RekeyReport>,
    /// What is to be recorded, when anything was done.
    pub undo: Option<UndoRecord>,
    /// What was decided about each store; nothing for a rehearsal.
    pub activity: Vec<ActivityRecord>,
}

fn record(report: &RekeyReport, new_path: &str) -> (r: ActivityRecord)
    ensures
        r@ == decision(report@, new_path@),
{
    let outcome = match &report.error {
        Some(e) => Outcome::Refused { reason: e.clone() },
        None => if report.applied {
            Outcome::acted(report.plan.actions.len(), NoOpReason::NoStoreForProject)
        } else {
            Outcome::NoOp { reason: NoOpReason::NoStoreForProject }
        },
    };
    ActivityRecord::new(ActivityKind::Rekey, outcome).tool(&report.tool).project(new_path)
}

proof fn lemma_undos_and_tools(handled: Seq<Handled>, dry_run: bool)
    ensures
        undos_of(handled, dry_run).len() == tools_of(handled, dry_run).len(),
    decreases handled.len(),
{
    if handled.len() > 0 {
        lemma_undos_and_tools(handled.drop_last(), dry_run);
    }
}

/// Report on every store of every project that a move carried, and say what is
/// to be recorded. The stores are independent: that one was refused keeps none
/// of the others from being re-keyed. The unit of undo is the unit of action:
/// one record for the move, in the order in which it is replayed.
pub fn rekey_all(
    handled: &Vec<Handled>,
    old_path: &str,
    new_path: &str,
    dry_run: bool,
) -> (r: RekeyResult)
    requires
        forall|i: int| 0 <= i < handled@.len() ==> (#[trigger] handled@[i]).settled(dry_run),
    ensures
        views(r.reports@) == reports_of(handled@, dry_run),
        match r.undo {
            Some(u) => undos_of(handled@, dry_run).len() > 0 && views(u.undos@) == undos_of(handled@, dry_run)
                && u.label@ == join(tools_of(handled@, dry_run), ", "@) && u.old_path@ == old_path@
                && u.new_path@ == new_path@,
            None => undos_of(handled@, dry_run).len() == 0,
        },
        dry_run ==> r.activity@.len() == 0,
        !dry_run ==> views(r.activity@) == decisions_of(handled@),
{
    let ghost hs = handled@;
    let ghost want = reports_of(hs, dry_run);
    let ghost decisions = decisions_of(hs);
    let mut reports: Vec<RekeyReport> = Vec::new();
    let mut undos: Vec<RekeyPlan> = Vec::new();
    let mut tools: Vec<String> = Vec::new();
    let mut activity: Vec<ActivityRecord> = Vec::new();
    let mut i: usize = 0;
    assert(hs.take(0) =~= Seq::<Handled>::empty());
    assert(views(reports@) =~= want.take(0));
    assert(views(undos@) =~= Seq::<RekeyPlanView>::empty());
    assert(views(tools@) =~= Seq::<Seq<char>>::empty());
    assert(views(activity@) =~= decisions.take(0));
    while i < handled.len()
        invariant
            hs == handled@,
            forall|k: int| 0 <= k < handled@.len() ==> (#[trigger] handled@[k]).settled(dry_run),
            want == reports_of(hs, dry_run),
            decisions == decisions_of(hs),
            i <= handled@.len(),
            views(reports@) == want.take(i as int),
            views(undos@) == undos_of(hs.take(i as int), dry_run),
            views(tools@) == tools_of(hs.take(i as int), dry_run),
            dry_run ==> activity@.len() == 0,
            !dry_run ==> views(activity@) == decisions.take(i as int),
        decreases handled@.len() - i,
    {
        let h = &handled[i];
        let ghost reports_before = views(reports@);
        let ghost undos_before = views(undos@);
        let ghost tools_before = views(tools@);
        let ghost activity_before = views(activity@);
        proof {
            assert(hs.take(i + 1).drop_last() =~= hs.take(i as int));
            assert(hs.take(i + 1).last() == *h);
        }
        assert(h.settled(dry_run));
        let outcome = match store_step(&h.planned, dry_run, &h.done, &h.undone) {
            StoreStep::Finished(o) => o,
            // Every store is settled.
            _ => {
                return RekeyResult { reports, undo: None, activity };
            },
        };
        let one = report(&h.tool, &outcome, &h.old_path, &h.new_path);
        assert(one@ == want[i as int]);
        if !dry_run {
            let decided = record(&one, &h.new_path);
            activity.push(decided);
            assert(views(activity@) =~= activity_before.push(decisions[i as int]));
            assert(views(activity@) =~= decisions.take(i + 1));
        }
        reports.push(one);
        assert(views(reports@) =~= reports_before.push(want[i as int]));
        assert(views(reports@) =~= want.take(i + 1));
        if let StoreOutcome::Applied { plan, undo } = outcome {
            let ghost u = undo@;
            undos.insert(0, undo);
            assert(views(undos@) =~= seq![u] + undos_before);
            tools.push(h.tool.clone());
            assert(views(tools@) =~= tools_before.push(h.tool@));
        }
        i = i + 1;
    }
    assert(hs.take(i as int) =~= hs);
    assert(want.take(i as int) =~= want);
    assert(decisions.take(i as int) =~= decisions);
    let undo = if undos.len() > 0 {
        Some(
            UndoRecord {
                label: join_all(&tools, ", "),
                old_path: owned(old_path),
                new_path: owned(new_path),
                undos,
            },
        )
    } else {
        None
    };
    RekeyResult { reports, undo, activity }
}

/// Give every report on a store that was re-keyed the number of the record.
pub fn stamp(reports: &mut Vec<RekeyReport>, log_id: Option<i64>)
    ensures
        final(reports)@.len() == old(reports)@.len(),
        forall|i: int|
            0 <= i < final(reports)@.len() ==> (#[trigger] views(final(reports)@)[i]) == (if old(
                reports,
            )@[i].applied {
                RekeyReportView { log_id, ..views(old(reports)@)[i] }
            } else {
                views(old(reports)@)[i]
            }),
{
    let ghost start = views(reports@);
    let mut i: usize = 0;
    while i < reports.len()
        invariant
            start == views(old(reports)@),
            start.len() == reports@.len(),
            i <= reports@.len(),
            forall|j: int|
                0 <= j < i ==> (#[trigger] views(reports@)[j]) == (if start[j].applied {
                    RekeyReportView { log_id, ..start[j] }
                } else {
                    start[j]
                }),
            forall|j: int| i <= j < reports@.len() ==> (#[trigger] views(reports@)[j]) == start[j],
        decreases reports@.len() - i,
    {
        let ghost now = views(reports@);
        assert(now[i as int] == start[i as int]);
        if reports[i].applied {
            let mut one = reports.remove(i);
            assert(one@ == now[i as int]);
            one.log_id = log_id;
            reports.insert(i, one);
            assert(views(reports@) =~= now.update(i as int, one@));
        }
        i = i + 1;
    }
}

/// One invocation is one undo: the record covers every store that was re-keyed,
/// and no other.
pub proof fn lemma_one_undo_for_all(handled: Seq<Handled>, dry_run: bool)
    ensures
        undos_of(handled, dry_run).len() == tools_of(handled, dry_run).len(),
        forall|i: int|
            0 <= i < handled.len() ==> ((#[trigger] handled[i]).outcome(dry_run) matches StoreOutcomeView::Applied {
                undo,
                ..
            } ==> undos_of(handled, dry_run).contains(undo) && tools_of(handled, dry_run).contains(
                handled[i].tool@,
            )),
        forall|t: Seq<char>| #[trigger]
            tools_of(handled, dry_run).contains(t) ==> exists|i: int|
                0 <= i < handled.len() && (#[trigger] handled[i]).outcome(dry_run) is Applied
                    && handled[i].tool@ == t,
    decreases handled.len(),
{
    lemma_undos_and_tools(handled, dry_run);
    if handled.len() > 0 {
        let d = handled.drop_last();
        lemma_one_undo_for_all(d, dry_run);
        let rest = undos_of(d, dry_run);
        let names = tools_of(d, dry_run);
        assert forall|i: int| 0 <= i < handled.len() implies ((
        #[trigger] handled[i]).outcome(dry_run) matches StoreOutcomeView::Applied { undo, .. } ==> undos_of(handled, dry_run).contains(undo) && tools_of(handled, dry_run).contains(handled[i].tool@)) by {
            if let StoreOutcomeView::Applied { undo, .. } = handled[i].outcome(dry_run) {
                let all = undos_of(handled, dry_run);
                let tools = tools_of(handled, dry_run);
                if i < d.len() {
                    assert(d[i] == handled[i]);
                    let k = choose|k: int| 0 <= k < rest.len() && rest[k] == undo;
                    let m = choose|m: int| 0 <= m < names.len() && names[m] == handled[i].tool@;
                    if let StoreOutcomeView::Applied { undo: last, .. } = handled.last().outcome(dry_run) {
                        assert(all[k + 1] == undo);
                    }
                    assert(tools[m] == handled[i].tool@);
                    assert(all.contains(undo));
                } else {
                    assert(all[0] == undo);
                    assert(tools[names.len() as int] == handled[i].tool@);
                }
            }
        }
        assert forall|t: Seq<char>| #[trigger] tools_of(handled, dry_run).contains(t) implies exists|i: int|
            0 <= i < handled.len() && (#[trigger] handled[i]).outcome(dry_run) is Applied && handled[i].tool@
                == t by {
            let tools = tools_of(handled, dry_run);
            let m = choose|m: int| 0 <= m < tools.len() && tools[m] == t;
            if m < names.len() {
                assert(names[m] == t);
                assert(names.contains(t));
                let i = choose|i: int|
                    0 <= i < d.len() && (#[trigger] d[i]).outcome(dry_run) is Applied && d[i].tool@ == t;
                assert(handled[i] == d[i]);
            } else {
                assert(handled[handled.len() - 1].tool@ == t);
            }
        }
    }
}

/// A store is re-keyed as a whole or left as it was found. Where it is reported
/// as re-keyed, every step of a plan that is not empty was done, in earnest,
/// and what is recorded is the inverse of that plan. Where a step failed, the
/// steps before it, and no others, were asked to be undone; and unless one of
/// those failed too, all of them were.
pub proof fn lemma_no_store_is_left_halfway(h: Handled, dry_run: bool)
    requires
        h.settled(dry_run),
    ensures
        match h.outcome(dry_run) {
            StoreOutcomeView::Applied { plan, undo } => {
                &&& !dry_run
                &&& h.planned matches Ok(p) && p@ == plan
                &&& plan.actions.len() > 0
                &&& undo == plan.inverse()
                &&& h.done@.len() == plan.actions.len()
                &&& forall|i: int| 0 <= i < h.done@.len() ==> (#[trigger] h.done@[i]) is Ok
            },
            StoreOutcomeView::Failed { plan, error, rollback, rolled_back } => {
                let k = first_failure(h.done@);
                &&& !dry_run
                &&& h.planned matches Ok(p) && p@ == plan
                &&& k < h.done@.len()
                &&& h.done@[k] matches Err(e) && e@ == error
                &&& rollback == rollback_of(plan, k)
                &&& rolled_back == (h.undone@.len() == rollback.actions.len() && forall|i: int|
                    0 <= i < h.undone@.len() ==> (#[trigger] h.undone@[i]) is Ok)
            },
            StoreOutcomeView::Planned(plan) => {
                &&& plan.actions.len() == 0 || dry_run
                &&& h.planned matches Ok(p) && p@ == plan
            },
            StoreOutcomeView::Refused(error) => h.planned matches Err(e) && e@ == error,
        },
{
    lemma_first_failure(h.done@);
    lemma_first_failure(h.undone@);
    if let Ok(p) = h.planned {
        let k = first_failure(h.done@);
        if k < h.done@.len() {
            assert(rollback_of(p@, k).actions.len() == k);
        }
    }
}

} // verus!
