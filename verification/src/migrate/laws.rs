//! What holds of every migration, however the outside replies.
use vstd::prelude::*;

use crate::migrate::run::{
    fresh_run, CleanUpView, PhaseView, ReplyView, RequestView, RunView,
};
use crate::migrate::types::{EventView, RewriteView, Stage};
use crate::tools::ToolView;

verus! {

/// The run after the replies, each with the time at which it came.
pub open spec fn after(run: RunView, replies: Seq<(ReplyView, u64)>) -> RunView
    decreases replies.len(),
{
    if replies.len() == 0 {
        run
    } else {
        let (reply, now) = replies.last();
        after(run, replies.drop_last()).advance(reply, now).0
    }
}

/// The clean-up that the last of the replies makes due.
pub open spec fn due(run: RunView, replies: Seq<(ReplyView, u64)>) -> Seq<CleanUpView> {
    if replies.len() == 0 {
        Seq::empty()
    } else {
        let (reply, now) = replies.last();
        after(run, replies.drop_last()).advance(reply, now).1
    }
}

/// No reply says that bringing the tool back up has failed.
pub open spec fn no_failed_resume(replies: Seq<(ReplyView, u64)>) -> bool {
    forall|i: int|
        #![trigger replies[i]]
        0 <= i < replies.len() ==> !(replies[i].0 matches ReplyView::Resumed(x) && x is Err)
}

/// A dry run that has changed nothing.
spec fn harmless(run: RunView) -> bool {
    &&& run.dry_run
    &&& run.rewrite_outcome == RewriteView::DryRunSkipped
    &&& match run.phase {
        PhaseView::Copy => false,
        PhaseView::Verify => false,
        PhaseView::Rewrite => false,
        PhaseView::ResumeFailed { .. } => false,
        PhaseView::Validate => false,
        PhaseView::ValidateFailed { .. } => false,
        PhaseView::Retain => false,
        PhaseView::RetainFailed { .. } => false,
        _ => true,
    }
}

/// A dry run asks for nothing that changes the file system or a service, and
/// makes no clean-up due, as long as a resume that starts nothing does not fail.
pub proof fn lemma_dry_run_changes_nothing(
    tool: ToolView,
    src: Seq<char>,
    dst: Seq<char>,
    replies: Seq<(ReplyView, u64)>,
)
    requires
        no_failed_resume(replies),
    ensures
        !after(fresh_run(tool, src, dst, true), replies).next().mutating(),
        due(fresh_run(tool, src, dst, true), replies).len() == 0,
{
    lemma_harmless(tool, src, dst, replies);
}

proof fn lemma_harmless(
    tool: ToolView,
    src: Seq<char>,
    dst: Seq<char>,
    replies: Seq<(ReplyView, u64)>,
)
    requires
        no_failed_resume(replies),
    ensures
        harmless(after(fresh_run(tool, src, dst, true), replies)),
        due(fresh_run(tool, src, dst, true), replies).len() == 0,
    decreases replies.len(),
{
    if replies.len() > 0 {
        let rest = replies.drop_last();
        assert forall|i: int| #![trigger rest[i]] 0 <= i < rest.len() implies !(
        rest[i].0 matches ReplyView::Resumed(x) && x is Err) by {
            assert(rest[i] == replies[i]);
        }
        lemma_harmless(tool, src, dst, rest);
        assert(replies.last() == replies[replies.len() - 1]);
    }
}

/// A run that fails between quiesce and resume makes it due that the copy is
/// removed and the tool brought back up.
pub proof fn lemma_abort_resumes(run: RunView, reply: ReplyView, now: u64)
    requires
        run.phase is Copy || run.phase is Verify || run.phase is Rewrite,
        run.advance(reply, now).0.phase is Aborted,
    ensures
        run.advance(reply, now).1 == seq![
            CleanUpView::RemoveCopy { dst: run.dst },
            CleanUpView::Resume { action: run.resume_action, dry_run: run.dry_run },
        ],
{
}

/// A failure after the rewrite is not reported before the rewrite has been
/// taken back: the next request is the undo of what was rewritten.
pub proof fn lemma_failure_after_rewrite_rolls_back(run: RunView, reply: ReplyView, now: u64)
    requires
        run.phase is Resume || run.phase is Validate || run.phase is Retain,
    ensures
        ({
            let next = run.advance(reply, now).0;
            &&& !(next.phase is Aborted)
            &&& next.phase is ResumeFailed || next.phase is ValidateFailed
                || next.phase is RetainFailed ==> next.next() == (RequestView::UndoRewrite {
                outcome: run.rewrite_outcome,
            })
        }),
{
}

/// When the rewrite has been taken back, or could not be, the copy is removed
/// and the failure that started it is the one reported.
pub proof fn lemma_roll_back_removes_copy(run: RunView, reply: ReplyView, now: u64)
    requires
        run.phase is ResumeFailed || run.phase is ValidateFailed || run.phase is RetainFailed,
        run.advance(reply, now).0.phase != run.phase,
    ensures
        run.advance(reply, now).1 == seq![CleanUpView::RemoveCopy { dst: run.dst }],
        run.advance(reply, now).0.phase == (PhaseView::Aborted {
            error: match run.phase {
                PhaseView::ResumeFailed { error } => error,
                PhaseView::ValidateFailed { error } => error,
                PhaseView::RetainFailed { error } => error,
                _ => arbitrary(),
            },
        }),
{
}

/// What is removed is the copy, never the source; the places of a run do not change.
pub proof fn lemma_only_the_copy_is_removed(
    tool: ToolView,
    src: Seq<char>,
    dst: Seq<char>,
    dry_run: bool,
    replies: Seq<(ReplyView, u64)>,
)
    ensures
        after(fresh_run(tool, src, dst, dry_run), replies).src == src,
        after(fresh_run(tool, src, dst, dry_run), replies).dst == dst,
        forall|i: int|
            #![trigger due(fresh_run(tool, src, dst, dry_run), replies)[i]]
            0 <= i < due(fresh_run(tool, src, dst, dry_run), replies).len() ==> (due(
                fresh_run(tool, src, dst, dry_run),
                replies,
            )[i] matches CleanUpView::RemoveCopy { dst: d } ==> d == dst),
    decreases replies.len(),
{
    if replies.len() > 0 {
        lemma_only_the_copy_is_removed(tool, src, dst, dry_run, replies.drop_last());
    }
}

/// The stages of the events.
pub open spec fn stages(events: Seq<EventView>) -> Seq<Stage> {
    Seq::new(events.len(), |i: int| events[i].stage)
}

/// Every stage, in order; the preflight is noted at its start and at its end.
pub open spec fn every_stage() -> Seq<Stage> {
    seq![
        Stage::Preflight,
        Stage::Preflight,
        Stage::Snapshot,
        Stage::Quiesce,
        Stage::Copy,
        Stage::Verify,
        Stage::Rewrite,
        Stage::Resume,
        Stage::Validate,
        Stage::Retain,
        Stage::Done,
    ]
}

/// How many events a run that has not failed has recorded.
spec fn noted(phase: PhaseView) -> int {
    match phase {
        PhaseView::Begin => 0,
        PhaseView::Source => 1,
        PhaseView::Destination => 1,
        PhaseView::Quiesce => 3,
        PhaseView::MeasureCopy => 4,
        PhaseView::MeasureVerify => 5,
        PhaseView::Copy => 4,
        PhaseView::Verify => 5,
        PhaseView::Rewrite => 6,
        PhaseView::Resume => 7,
        PhaseView::ResumeFailed { .. } => 7,
        PhaseView::Validate => 8,
        PhaseView::ValidateFailed { .. } => 8,
        PhaseView::Retain => 9,
        PhaseView::RetainFailed { .. } => 9,
        PhaseView::Complete { .. } => 11,
        PhaseView::Aborted { .. } => 0,
    }
}

/// The events of a run that has not failed are the first stages, in order.
pub proof fn lemma_stages_in_order(
    tool: ToolView,
    src: Seq<char>,
    dst: Seq<char>,
    dry_run: bool,
    replies: Seq<(ReplyView, u64)>,
)
    ensures
        ({
            let run = after(fresh_run(tool, src, dst, dry_run), replies);
            !(run.phase is Aborted) ==> stages(run.events).is_prefix_of(every_stage())
        }),
        ({
            let run = after(fresh_run(tool, src, dst, dry_run), replies);
            run.phase is Complete ==> stages(run.events) == every_stage()
        }),
{
    lemma_stages(tool, src, dst, dry_run, replies);
    let run = after(fresh_run(tool, src, dst, dry_run), replies);
    if !(run.phase is Aborted) {
        assert(stages(run.events) =~= every_stage().take(noted(run.phase)));
        assert(every_stage().take(11) =~= every_stage());
        assert(stages(run.events) =~= every_stage().subrange(0, stages(run.events).len() as int));
    }
}

proof fn lemma_stages(
    tool: ToolView,
    src: Seq<char>,
    dst: Seq<char>,
    dry_run: bool,
    replies: Seq<(ReplyView, u64)>,
)
    ensures
        ({
            let run = after(fresh_run(tool, src, dst, dry_run), replies);
            !(run.phase is Aborted) ==> stages(run.events) == every_stage().take(noted(run.phase))
        }),
    decreases replies.len(),
{
    let fresh = fresh_run(tool, src, dst, dry_run);
    if replies.len() > 0 {
        lemma_stages(tool, src, dst, dry_run, replies.drop_last());
        let before = after(fresh, replies.drop_last());
        let (reply, now) = replies.last();
        lemma_one_step(before, reply, now);
    } else {
        assert(stages(fresh.events) =~= every_stage().take(0));
    }
}

proof fn lemma_one_step(run: RunView, reply: ReplyView, now: u64)
    requires
        !(run.phase is Aborted) ==> stages(run.events) == every_stage().take(noted(run.phase)),
    ensures
        ({
            let next = run.advance(reply, now).0;
            !(next.phase is Aborted) ==> stages(next.events) == every_stage().take(
                noted(next.phase),
            )
        }),
{
    let next = run.advance(reply, now).0;
    if !(next.phase is Aborted) {
        assert(stages(run.events).len() == noted(run.phase));
        assert(forall|i: int|
            0 <= i < run.events.len() ==> #[trigger] run.events[i].stage == every_stage()[i]) by {
            assert forall|i: int| 0 <= i < run.events.len() implies #[trigger] run.events[i].stage
                == every_stage()[i] by {
                assert(stages(run.events)[i] == every_stage().take(noted(run.phase))[i]);
            }
        }
        assert(stages(next.events) =~= every_stage().take(noted(next.phase)));
    }
}

/// Every event so far carries the tool, the places and whether it is a dry run.
pub open spec fn carried(run: RunView) -> bool {
    forall|i: int|
        0 <= i < run.events.len() ==> ({
            let e = #[trigger] run.events[i];
            &&& e.tool_name == run.tool_name
            &&& e.src == run.src
            &&& e.dst == run.dst
            &&& e.dry_run == run.dry_run
        })
}

/// Every event of a run carries the tool, the places and whether it is a dry
/// run.
pub proof fn lemma_events_carry_their_run(
    tool: ToolView,
    src: Seq<char>,
    dst: Seq<char>,
    dry_run: bool,
    replies: Seq<(ReplyView, u64)>,
)
    ensures
        ({
            let run = after(fresh_run(tool, src, dst, dry_run), replies);
            &&& run.tool_name == tool.name
            &&& run.src == src
            &&& run.dst == dst
            &&& run.dry_run == dry_run
            &&& carried(run)
        }),
    decreases replies.len(),
{
    if replies.len() > 0 {
        let before = replies.drop_last();
        lemma_events_carry_their_run(tool, src, dst, dry_run, before);
        let (reply, now) = replies.last();
        lemma_one_step_carries(after(fresh_run(tool, src, dst, dry_run), before), reply, now);
    }
}

#[verifier::rlimit(60)]
proof fn lemma_one_step_carries(run: RunView, reply: ReplyView, now: u64)
    requires
        carried(run),
    ensures
        ({
            let next = run.advance(reply, now).0;
            &&& next.tool_name == run.tool_name
            &&& next.src == run.src
            &&& next.dst == run.dst
            &&& next.dry_run == run.dry_run
            &&& carried(next)
        }),
{
}

/// A run that is over stays as it is.
pub proof fn lemma_finished_runs_stay(run: RunView, reply: ReplyView, now: u64)
    requires
        run.over(),
    ensures
        run.advance(reply, now) == (run, Seq::<CleanUpView>::empty()),
        run.next() == RequestView::Finished,
{
}

/// The tool is pointed at the copy only once the copy has been verified.
pub proof fn lemma_rewrite_follows_verification(run: RunView, reply: ReplyView, now: u64)
    requires
        !(run.phase is Rewrite),
        run.advance(reply, now).0.phase is Rewrite,
    ensures
        run.phase is Verify,
        reply matches ReplyView::Verified(v) && v matches Ok(o) && o.matches,
{
}

} // verus!
