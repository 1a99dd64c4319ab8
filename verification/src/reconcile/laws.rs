//! That a reconciliation deals with every field, and records what it did.
use vstd::prelude::*;

use crate::activity::{NoOpReason, OutcomeView};
use crate::error::Error;
use crate::event_log::ActionView;
use crate::paths::joined;
use crate::reconcile::{
    begun, CourseView, PhaseView, ReconcileReply, ReconciledView, RequestView,
};
use crate::reconciler::{field_rewrite, Rewritten};
use crate::tools::{StrategyView, ToolView};

verus! {

/// A tool that rewrites paths has the artifact of its first field read, in the
/// project at its new path. One that only notifies, or asks for more than there
/// is, is not dealt with at all.
pub proof fn lemma_strategy_decides(
    tool: ToolView,
    old: Seq<char>,
    new: Seq<char>,
    private_root: bool,
)
    ensures
        ({
            let c = begun(tool, old, new, private_root);
            &&& tool.on_move is RewritePaths && tool.path_fields.len() > 0 ==> c.next()
                == RequestView::Read { path: joined(new, tool.path_fields[0].file) }
            &&& tool.on_move is RewritePaths && tool.path_fields.len() == 0 ==> (
            c.phase matches PhaseView::Finished { result } && result.success && result.outcome
                == OutcomeView::NoOp { reason: NoOpReason::NoArtifactsFound })
            &&& tool.on_move is Notify ==> (c.phase matches PhaseView::Finished { result }
                && result.success && result.outcome == OutcomeView::NoOp {
                reason: NoOpReason::ToolDeclaresNotify,
            })
            &&& tool.on_move is Custom ==> (c.phase matches PhaseView::Finished { result }
                && !result.success && result.outcome is Failed && result.actions_taken.len() == 0)
            &&& c.actions.len() == 0
            &&& c.errors.len() == 0
        }),
{
}

/// The course goes on to the field behind the present one: its artifact is read
/// next, or the reconciliation is over when there is none.
pub open spec fn goes_on(c: CourseView, next: CourseView) -> bool {
    &&& next.at == c.at + 1
    &&& c.at + 1 < c.fields.len() ==> next.next() == RequestView::Read {
        path: joined(c.new_root, c.fields[c.at + 1].file),
    }
    &&& c.at + 1 >= c.fields.len() ==> (next.phase matches PhaseView::Finished { result } && {
        &&& result.tool_name == c.tool_name
        &&& result.actions_taken == next.actions
        &&& result.success <==> next.errors.len() == 0
        &&& result.success ==> result.error is None
        &&& next.errors.len() == 0 && 0 < next.actions.len() <= usize::MAX ==> result.outcome
            == OutcomeView::Acted { actions: next.actions.len() as usize }
        &&& next.errors.len() == 0 && next.actions.len() == 0 ==> result.outcome
            == OutcomeView::NoOp {
            reason: if next.found {
                NoOpReason::AlreadyCurrent
            } else {
                NoOpReason::NoArtifactsFound
            },
        }
        &&& next.errors.len() > 0 ==> result.outcome is Failed && result.error is Some
    })
}

/// An artifact that is missing, cannot be rewritten or cannot be written does
/// not keep those behind it from being dealt with; what broke is told in the
/// end. A rewrite is written to the artifact, then recorded with the values
/// that were exchanged, the old one for the new one, and only then counted. One
/// that cannot be recorded ends the reconciliation as failed, and is counted.
pub proof fn lemma_no_field_is_passed_over(c: CourseView, reply: ReconcileReply, next: CourseView)
    requires
        c.sound(),
        c.advance(reply, next),
    ensures
        next.fields == c.fields,
        next.pairs == c.pairs,
        next.new_root == c.new_root,
        next.tool_name == c.tool_name,
        c.phase is Read && reply is Missing ==> goes_on(c, next) && next.errors == c.errors
            && next.actions == c.actions && next.found == c.found,
        c.phase is Read && reply is Read ==> next.found && next.actions == c.actions && (
        next.phase is Write && next.at == c.at && next.errors == c.errors || goes_on(c, next)
            && c.errors.len() <= next.errors.len() <= c.errors.len() + 1),
        c.phase matches PhaseView::Write { pair, .. } ==> (reply matches ReconcileReply::Written(r)
            ==> match r {
            Ok(()) => next.at == c.at && next.actions == c.actions && next.next()
                == RequestView::Record {
                action: ActionView {
                    tool_name: c.tool_name,
                    file_path: joined(c.new_root, c.fields[c.at].file),
                    field: c.fields[c.at].field,
                    format: c.fields[c.at].format,
                    old_value: c.pairs[pair].0,
                    new_value: c.pairs[pair].1,
                },
            },
            Err(_) => goes_on(c, next) && next.actions == c.actions && next.errors.len()
                == c.errors.len() + 1,
        }),
        c.phase matches PhaseView::Record { action } ==> (reply matches ReconcileReply::Recorded(r)
            ==> next.actions == c.actions.push(action) && match r {
            Ok(()) => goes_on(c, next) && next.errors == c.errors,
            Err(_) => next.phase matches PhaseView::Finished { result } && !result.success
                && result.outcome is Failed && result.actions_taken == next.actions,
        }),
{
    if c.phase is Read && reply is Read {
        let read = reply->Read_0;
        let r = choose|r: Result<Option<Rewritten>, Error>|
            #![trigger field_rewrite(c.path(), read, c.fields[c.at].field, c.fields[c.at].format, c.pairs, r)]
            field_rewrite(
                c.path(),
                read,
                c.fields[c.at].field,
                c.fields[c.at].format,
                c.pairs,
                r,
            ) && next == (match r {
                Ok(None) => CourseView { found: true, ..c }.skip(),
                Err(e) => CourseView { found: true, ..c }.complain(e.text()),
                Ok(Some(w)) => CourseView {
                    phase: PhaseView::Write { text: w.text@, pair: w.pair as int },
                    found: true,
                    ..c
                },
            });
    }
}

/// What is written is the artifact that was read, rewritten by its format for
/// the pairs of roots.
pub proof fn lemma_written_is_rewritten(c: CourseView, reply: ReconcileReply, next: CourseView)
    requires
        c.phase is Read,
        c.advance(reply, next),
        next.phase is Write,
    ensures
        reply matches ReconcileReply::Read(read) && exists|w: Rewritten|
            {
                &&& #[trigger] field_rewrite(
                    joined(c.new_root, c.fields[c.at].file),
                    read,
                    c.fields[c.at].field,
                    c.fields[c.at].format,
                    c.pairs,
                    Ok(Some(w)),
                )
                &&& next.next() == RequestView::Write {
                    path: joined(c.new_root, c.fields[c.at].file),
                    text: w.text@,
                }
            },
{
    let read = reply->Read_0;
    let r = choose|r: Result<Option<Rewritten>, Error>|
        #![trigger field_rewrite(c.path(), read, c.fields[c.at].field, c.fields[c.at].format, c.pairs, r)]
        field_rewrite(
            c.path(),
            read,
            c.fields[c.at].field,
            c.fields[c.at].format,
            c.pairs,
            r,
        ) && next == (match r {
            Ok(None) => CourseView { found: true, ..c }.skip(),
            Err(e) => CourseView { found: true, ..c }.complain(e.text()),
            Ok(Some(w)) => CourseView {
                phase: PhaseView::Write { text: w.text@, pair: w.pair as int },
                found: true,
                ..c
            },
        });
    let w = r->Ok_0->0;
    assert(field_rewrite(
        joined(c.new_root, c.fields[c.at].file),
        read,
        c.fields[c.at].field,
        c.fields[c.at].format,
        c.pairs,
        Ok(Some(w)),
    ));
}

} // verus!
