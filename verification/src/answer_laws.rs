//! What becomes of a service's answer, of a failed attempt and of a finished task, and what is
//! reported of it.

use crate::compact::InitialContextInjection;
use crate::exact_tail::{
    CompactionTrigger, ExactTailError, ExactTailFailReason, ExactTailImplementation,
};
use crate::exact_tail_diagnostics::{
    exact_tail_compaction_diagnostic, exact_tail_prepare_failure_diagnostic,
    ExactTailCompactionDiagnosticEvent, ExactTailReportIds,
};
use crate::exact_tail_plan::ExactTailPlan;
use crate::exact_tail_replacement::{
    ensure_hot_suffix_item_ids_are_stable, has_usable_summary, replacement, usable_summary,
    ExactTailReplacementDiagnostics,
};
use crate::item::ItemView;
use crate::retention::{image_count, kept_messages, retainable_items};
use crate::scratchpad::{document_of, rollout_summary, slug_of, title_from_name};
use crate::scratchpad_memory::{lines_text, memory_lines};
use crate::session_model::{total_tokens, SessionModel};
use crate::stage_one::{scratchpad_output, OutputView, ScratchpadError};
use crate::stream::{CompactErrorView, LocalCompactionDrainMode, TokenUsage};
use crate::task_local::{
    after_failure, drain_mode, next_of, task_after, LocalNextView, LocalTaskView,
};
use crate::task_remote::{reply_details, reply_outcome, RemoteTaskView};
use crate::task_transcript::{transcript_after, transcript_outcome, TranscriptTaskView};
use vstd::prelude::*;

verus! {

// -- local attempts ---------------------------------------------------------------------------

/// Under a plan what the summariser writes is buffered; else it goes to the session.
pub proof fn law_where_output_goes(has_plan: bool, mode: LocalCompactionDrainMode)
    requires
        call_ensures(drain_mode, (has_plan,), mode),
    ensures
        mode == LocalCompactionDrainMode::BufferOnly <==> has_plan,
        mode == LocalCompactionDrainMode::RecordToSession <==> !has_plan,
{
}

/// What a task does about a failed attempt, and what is left of it. It stops where it was
/// interrupted. Where the request was too large it fails under a plan; else it goes on at once
/// without its oldest item, and counts its attempts anew, as long as more than one is left. Any
/// other error is tried again, one attempt more counted, until none is allowed; the plan and the
/// history stay.
pub proof fn law_task_goes_on_after_a_failure<M: SessionModel>(
    model: M,
    task: LocalTaskView,
    error: CompactErrorView,
    prompt_len: usize,
    most: u64,
)
    ensures
        ({
            let after = after_failure(
                model,
                error,
                task.history,
                prompt_len,
                task.prepared is Some,
                task.retries,
                most,
            );
            let next = next_of(after);
            let left = task_after(task, after);
            let interrupted = error is Interrupted || error is TurnAborted;
            let too_large = error is ContextWindowExceeded;
            let shorter = too_large && task.prepared is None && prompt_len > 1;
            let again = !interrupted && !too_large && task.retries < most;
            &&& left.prepared == task.prepared
            &&& interrupted ==> next == LocalNextView::Stop(error)
            &&& shorter <==> next == LocalNextView::AttemptShorter
            &&& shorter ==> left.retries == 0 && left.history == model.spec_without_first(
                task.history,
            )
            &&& !shorter ==> left.history == task.history
            &&& again <==> next is AttemptAgain
            &&& again ==> left.retries == task.retries + 1 && next->AttemptAgain_error == error
            &&& !shorter && !again ==> left == task
            &&& too_large && task.prepared is Some ==> (next matches LocalNextView::Fail(failure)
                && failure.reason == Some(ExactTailFailReason::BackendContextExceeded))
            &&& too_large && task.prepared is None && prompt_len <= 1 ==> next
                == LocalNextView::FailWithFullWindow(error)
            &&& !interrupted && !too_large && task.retries >= most ==> (
            next matches LocalNextView::Fail(failure) && failure.error == error && failure.reason
                is None)
        }),
{
}

// -- answers ----------------------------------------------------------------------------------

proof fn lemma_one_usable<M: SessionModel>(model: M, item: ItemView)
    ensures
        has_usable_summary(model, seq![item]) == usable_summary(model, item),
{
    if usable_summary(model, item) {
        assert(usable_summary(model, seq![item][0]));
    }
}

/// An error of the service is passed on; under a plan one on the size of the request fails for
/// good, under a reason of its own. What was measured stays as it was.
pub proof fn law_refused_answer<M: SessionModel>(
    model: M,
    task: RemoteTaskView,
    error: CompactErrorView,
    prompt: Seq<ItemView>,
    injection: InitialContextInjection,
)
    ensures
        ({
            let outcome = reply_outcome(model, task, Err(error), prompt, injection);
            &&& reply_details(model, task, Err(error), prompt) == task.details
            &&& outcome matches Err(failure) && if task.prepared is Some
                && error is ContextWindowExceeded {
                failure.reason == Some(ExactTailFailReason::BackendContextExceeded)
            } else {
                failure.error == error && failure.reason is None
            }
        }),
{
}

/// What an answer cost is recorded. The images of the kept messages are counted, unless a plan
/// stands and the answer is of no use.
pub proof fn law_answer_is_measured<M: SessionModel>(
    model: M,
    task: RemoteTaskView,
    output: ItemView,
    usage: TokenUsage,
    prompt: Seq<ItemView>,
)
    ensures
        ({
            let after = reply_details(model, task, Ok((output, Some(usage))), prompt);
            let kept = kept_messages(
                model,
                retainable_items(model, prompt),
                64_000,
                usize::MAX as nat,
            );
            &&& after.compaction_summary_tokens == Some(usage.output_tokens)
            &&& after.cached_input_tokens == Some(usage.cached_input_tokens)
            &&& after.active_context_tokens_before == if task.prepared is Some {
                task.details.active_context_tokens_before
            } else {
                Some(usage.input_tokens)
            }
            &&& after.retained_image_count == if task.prepared is None || usable_summary(
                model,
                output,
            ) {
                Some(image_count(kept) as usize)
            } else {
                task.details.retained_image_count
            }
        }),
{
    lemma_one_usable(model, output);
    let kept = kept_messages(model, retainable_items(model, prompt), 64_000, usize::MAX as nat);
    assert(kept.push(output).drop_last() =~= kept);
}

/// A transcript task keeps its plan, its transcript and the messages set apart, whatever the
/// answer. One that is of use is counted as large as it came out, and the replacement that it
/// makes is measured.
pub proof fn law_transcript_task_after_an_answer<M: SessionModel>(
    model: M,
    task: TranscriptTaskView,
    output: ItemView,
    usage: Option<TokenUsage>,
    error: CompactErrorView,
    injection: InitialContextInjection,
)
    ensures
        transcript_after(model, task, Err(error), injection) == task,
        transcript_outcome(model, task, Err(error), injection) matches Err(failure) && if error
            is ContextWindowExceeded {
            failure.reason == Some(ExactTailFailReason::BackendContextExceeded)
        } else {
            failure.error == error && failure.reason is None
        },
        ({
            let after = transcript_after(model, task, Ok((output, usage)), injection);
            let plan = after.prepared.plan;
            let before = task.prepared.plan;
            let tokens = model.spec_item_tokens(output);
            let whole = total_tokens(
                model,
                replacement(
                    model,
                    task.retained_messages.push(output),
                    task.prepared.initial_context,
                    before.hot_suffix,
                    injection,
                ),
            );
            &&& after.items == task.items
            &&& after.retained_messages == task.retained_messages
            &&& after.prepared.initial_context == task.prepared.initial_context
            &&& plan.hot_suffix == before.hot_suffix
            &&& plan.cold_history == before.cold_history
            &&& !usable_summary(model, output) ==> after.prepared == task.prepared
            &&& usable_summary(model, output) && 0 <= tokens ==> {
                &&& after.details.compaction_summary_tokens == Some(tokens)
                &&& plan.diagnostics.actual_summary_tokens == Some(tokens)
            }
            &&& usable_summary(model, output)
                ==> plan.diagnostics.attempted_replacement_tokens_estimate == Some(whole)
        }),
{
    lemma_one_usable(model, output);
    assert(seq![output].drop_last() =~= Seq::<ItemView>::empty());
    assert(total_tokens(model, seq![output].drop_last()) == 0);
}

// -- exact items ------------------------------------------------------------------------------

/// A plan is refused for a missing id only where ids are given out and an item that stays exact
/// has none, and then always.
pub proof fn law_missing_ids_are_refused(
    plan: ExactTailPlan,
    given_out: bool,
    r: Result<(), ExactTailError>,
)
    requires
        call_ensures(ensure_hot_suffix_item_ids_are_stable, (&plan, given_out), r),
    ensures
        r is Err <==> given_out && exists|k: int|
            0 <= k < plan@.hot_suffix.len() && (#[trigger] plan@.hot_suffix[k]).id is None,
        r matches Err(error) ==> error@.reason == ExactTailFailReason::HotSuffixItemIdMissing,
{
}

// -- reports ----------------------------------------------------------------------------------

/// A report says whose it is, which way was taken and who asked, and it is one of a failure exactly
/// where there is a reason, which it names.
pub open spec fn tells(
    event: ExactTailCompactionDiagnosticEvent,
    ids: ExactTailReportIds,
    way: ExactTailImplementation,
    trigger: CompactionTrigger,
    reason: Option<ExactTailFailReason>,
) -> bool {
    &&& event.thread_id@ == ids.thread_id@
    &&& event.turn_id@ == ids.turn_id@
    &&& event.compaction_id@ == ids.compaction_id@
    &&& event.route is Local <==> way is Local
    &&& event.route is RemoteLegacy <==> way is RemoteLegacy
    &&& event.route is RemoteV2 <==> way is RemoteV2
    &&& event.route is SemanticTranscript <==> way is SemanticTranscript
    &&& event.trigger is Manual <==> trigger is Manual
    &&& event.fit_result is Failure <==> reason is Some
    &&& event.fit_result is Success <==> reason is None
    &&& event.failure_reason is Some <==> reason is Some
    &&& reason matches Some(r) ==> event.failure_reason->0@ == r.name()
}

/// The reports with a plan and without one tell what happened; the one without has no numbers.
pub proof fn law_reports_tell_what_happened(
    ids: ExactTailReportIds,
    trigger: CompactionTrigger,
    plan: ExactTailPlan,
    installed: Option<ExactTailReplacementDiagnostics>,
    reason: Option<ExactTailFailReason>,
    way: ExactTailImplementation,
    failure: ExactTailFailReason,
    planned: ExactTailCompactionDiagnosticEvent,
    unplanned: ExactTailCompactionDiagnosticEvent,
)
    requires
        call_ensures(
            exact_tail_compaction_diagnostic,
            (&ids, trigger, &plan, installed, reason),
            planned,
        ),
        call_ensures(
            exact_tail_prepare_failure_diagnostic,
            (&ids, trigger, way, failure),
            unplanned,
        ),
    ensures
        tells(planned, ids, plan.diagnostics.implementation, trigger, reason),
        tells(unplanned, ids, way, trigger, Some(failure)),
        planned.numbers.actual_hot_tokens == Some(plan.diagnostics.actual_hot_tokens),
        unplanned.numbers.actual_hot_tokens is None,
        unplanned.numbers.group_count is None,
        unplanned.numbers.summary_tokens is None,
        unplanned.numbers.replacement_tokens_estimate is None,
{
    assert(planned@.thread_id == planned.thread_id@);
    assert(unplanned@.thread_id == unplanned.thread_id@);
}

// -- memories ---------------------------------------------------------------------------------

/// A file is refused exactly where it is no scratchpad. What is drawn from one is the memory,
/// the summary and the short name of its document.
pub proof fn law_memory_is_of_the_document(
    contents: Seq<char>,
    path: Seq<char>,
    stem: Seq<char>,
    time: Seq<char>,
    title: Seq<char>,
)
    requires
        title == title_from_name(Some(stem)),
    ensures
        ({
            let outcome = scratchpad_output(contents, path, Some(stem), time);
            match document_of(contents) {
                None => outcome == Err::<OutputView, ScratchpadError>(ScratchpadError::Format),
                Some(document) => {
                    &&& outcome matches Ok(memory)
                    &&& memory.rollout_summary == rollout_summary(document, title)
                    &&& memory.rollout_slug == slug_of(document, title)
                    &&& memory.raw_memory == lines_text(memory_lines(document, path, time, title))
                },
            }
        }),
{
}

} // verus!
