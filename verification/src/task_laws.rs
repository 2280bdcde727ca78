//! What a compaction comes to, whichever way it takes.

use crate::compact::{
    compacted_history, insertion_index, selected_messages, spliced, user_message_item,
    user_messages, InitialContextInjection, UserMessageView,
};
use crate::compact_laws::said_by_user;
use crate::exact_tail::{reported, ErrorView, ExactTailFailReason, ExactTailImplementation};
use crate::exact_tail_plan::{ExactTailDiagnostics, PlanView};
use crate::exact_tail_replacement::{
    has_usable_summary, replacement, usable_summary, PreparedView,
};
use crate::item::ItemView;
use crate::retention::{image_count, kept_messages, retainable_items};
use crate::session_model::{total_tokens, SessionModel};
use crate::stream::{CompactErrorView, TokenUsage};
use crate::task::{
    prepare_input, request_failure, source_items, status_of, summarised, CompactionStatus,
    CompactionTask, FailureView,
};
use crate::task_local::{
    after_failure, local_begin, local_history, local_outcome, or_empty, AfterFailureView,
    LocalBeginView,
};
use crate::task_remote::{
    cache_key, remote_begin, remote_v2_outcome, CompactionAnalyticsDetails, RemoteBeginView,
};
use crate::task_transcript::{
    planned_begin, transcript_outcome, with_transcript, TranscriptBeginView, TranscriptTaskView,
};
use crate::text::{blank, decimal, occurs_at, occurs_in};
use crate::transcript::transcript_of;
use vstd::prelude::*;
use vstd::string::*;

verus! {

// -- after a failed attempt -------------------------------------------------------------------

/// What a failed local attempt leads to. An interrupted one ends the task. One that was too large
/// is tried again without its oldest item, as long as more than one is left; under a plan nothing
/// may be left out, so that it fails. Any other is tried again as often as the provider allows.
pub proof fn law_failed_attempts<M: SessionModel>(
    model: M,
    error: CompactErrorView,
    history: Seq<ItemView>,
    prompt_len: usize,
    has_plan: bool,
    retries: u64,
    max_retries: u64,
)
    ensures
        ({
            let next = after_failure(
                model,
                error,
                history,
                prompt_len,
                has_plan,
                retries,
                max_retries,
            );
            let stopped = error is Interrupted || error is TurnAborted;
            let large = error is ContextWindowExceeded;
            &&& stopped ==> next == AfterFailureView::Stop(error)
            &&& large && !has_plan && prompt_len > 1 ==> next == AfterFailureView::Shorten(
                model.spec_without_first(history),
            )
            &&& large && !has_plan && prompt_len <= 1 ==> next
                == AfterFailureView::FailWithFullWindow(error)
            &&& large && has_plan ==> {
                &&& next matches AfterFailureView::Fail(failure)
                &&& failure.reason == Some(ExactTailFailReason::BackendContextExceeded)
                &&& failure.error is Stream
            }
            &&& !stopped && !large && retries < max_retries ==> next == AfterFailureView::Retry {
                retries: (retries + 1) as u64,
                notice: "Reconnecting... "@ + decimal((retries + 1) as nat) + "/"@ + decimal(
                    max_retries as nat,
                ),
                error,
            }
            &&& !stopped && !large && retries >= max_retries ==> next == AfterFailureView::Fail(
                FailureView { error, reason: None },
            )
        }),
{
}

/// A task that did not fail is completed; one that was interrupted or whose turn was aborted is
/// interrupted; any other has failed.
pub proof fn law_status_of_a_task(error: CompactErrorView)
    ensures
        status_of(None) == CompactionStatus::Completed,
        status_of(Some(error)) == CompactionStatus::Interrupted <==> error is Interrupted
            || error is TurnAborted,
        status_of(Some(error)) == CompactionStatus::Failed <==> !(error is Interrupted)
            && !(error is TurnAborted),
{
}

/// An error that is reported names its reason.
pub proof fn law_reported_error_names_its_reason(error: ErrorView)
    ensures
        occurs_in(reported(error), error.reason.name()),
        reported(error) == error.message || reported(error) == error.reason.name() + ": "@
            + error.message,
{
    if !occurs_in(error.message, error.reason.name()) {
        let name = error.reason.name();
        let text = reported(error);
        assert(text.subrange(0, name.len() as int) =~= name);
        assert(occurs_at(text, name, 0));
    }
}

// -- what is sent -----------------------------------------------------------------------------

/// With a plan its cold part is sent, whole and in order; without one the whole history.
pub proof fn law_what_is_summarised<M: SessionModel>(
    model: M,
    history: Seq<ItemView>,
    request: ItemView,
    context: Seq<ItemView>,
    base_instructions: Seq<char>,
    task: CompactionTask,
    details: CompactionAnalyticsDetails,
)
    ensures
        match local_begin(model, history, request, context, base_instructions, task) {
            LocalBeginView::Ready(begun) => {
                &&& begun.retries == 0
                &&& begun.history.len() > 0 && begun.history.last() == request
                &&& match begun.prepared {
                    Some(prepared) => begun.history.drop_last() == prepared.plan.cold_history,
                    None => begun.history.drop_last() == source_items(model, history, task),
                }
            },
            _ => true,
        },
        match remote_begin(model, history, context, base_instructions, task, None, details) {
            RemoteBeginView::Ready(begun) => {
                &&& begun.details == details
                &&& match begun.prepared {
                    Some(prepared) => begun.history == prepared.plan.cold_history,
                    None => begun.history == source_items(model, history, task),
                }
            },
            _ => true,
        },
{
    if let LocalBeginView::Ready(begun) = local_begin(
        model,
        history,
        request,
        context,
        base_instructions,
        task,
    ) {
        assert(begun.history.drop_last() =~= summarised(
            source_items(model, history, task),
            begun.prepared,
        ));
    }
}

/// Under a plan a request is refused where it, with the base instructions, has more tokens than
/// the window; without a plan it is never refused.
pub proof fn law_requests_that_cannot_fit_are_refused<M: SessionModel>(
    model: M,
    diagnostics: ExactTailDiagnostics,
    items: Seq<ItemView>,
    window: Option<i64>,
    base_instructions: Seq<char>,
)
    ensures
        request_failure(model, None, items, window, base_instructions) is None,
        ({
            let tokens = model.spec_request_tokens(items, base_instructions);
            tokens is Some && window is Some && tokens->Some_0 > window->Some_0 ==> request_failure(
                model,
                Some(diagnostics),
                items,
                window,
                base_instructions,
            ) is Some
        }),
        request_failure(
            model,
            Some(diagnostics),
            items,
            window,
            base_instructions,
        ) matches Some(failure) ==> failure.reason is Some,
{
}

/// What is kept beside a summary is planned for: twenty thousand tokens of messages beside a local
/// one, sixty-four thousand beside one of the second remote protocol, what the turn says beside
/// that of a transcript, and nothing beside one of the first remote protocol.
pub proof fn law_retained_messages_are_planned_for<M: SessionModel>(
    model: M,
    history: Seq<ItemView>,
    task: CompactionTask,
)
    ensures
        ({
            let input = prepare_input(model, history, task);
            let retained = input.retained_cold_user_message_budget_tokens;
            &&& task.implementation == ExactTailImplementation::Local ==> retained == 20_000
            &&& task.implementation == ExactTailImplementation::RemoteV2 ==> retained == 64_000
            &&& task.implementation == ExactTailImplementation::RemoteLegacy ==> retained == 0
            &&& task.implementation == ExactTailImplementation::SemanticTranscript ==> retained
                == task.transcript_retained_tokens
            &&& task.implementation != ExactTailImplementation::Local
                ==> input.estimated_summary_scaffold_overhead_tokens == 0
            &&& input.trigger == task.trigger
            &&& input.implementation == task.implementation
            &&& input.initial_context_injection == task.initial_context_injection
            &&& input.model_context_window == task.model_context_window
            &&& input.model_auto_compact_token_limit == task.model_auto_compact_token_limit
        }),
{
}

// -- what comes out ---------------------------------------------------------------------------

/// The exact part behind the rest, with the injected context between them.
pub open spec fn with_exact_part(
    rest: Seq<ItemView>,
    prepared: PreparedView,
    injection: InitialContextInjection,
) -> Seq<ItemView> {
    if injection == InitialContextInjection::BeforeLastUserMessage {
        rest + prepared.initial_context + prepared.plan.hot_suffix
    } else {
        rest + prepared.plan.hot_suffix
    }
}

/// A local compaction under a plan takes the summary from what the summariser wrote now, which
/// must say something. What comes out is the newest messages of the user from the cold part, the
/// summary behind its opening line, and then the exact part.
pub proof fn law_local_compaction_under_a_plan<M: SessionModel>(
    model: M,
    prepared: PreparedView,
    completed: Seq<ItemView>,
    session_history: Seq<ItemView>,
    context: Seq<ItemView>,
    injection: InitialContextInjection,
    metadata: Option<Seq<char>>,
)
    requires
        prepared.plan.hot_suffix.len() > 0,
    ensures
        ({
            let wrote = match model.spec_last_assistant_text(completed) {
                Some(text) => text,
                None => Seq::empty(),
            };
            let text = model.spec_summary_prefix() + "\n"@ + wrote;
            let outcome = local_outcome(
                model,
                Some(prepared),
                completed,
                session_history,
                context,
                injection,
                metadata,
            );
            &&& blank(wrote) ==> (outcome matches Err(failure) && failure.reason == Some(
                ExactTailFailReason::NoUsableColdSummary,
            ))
            &&& outcome matches Ok(done) ==> {
                &&& done.summary_suffix == wrote
                &&& done.summary_text == text
                &&& exists|rest: Seq<ItemView>|
                    {
                        &&& #[trigger] with_exact_part(rest, prepared, injection)
                            == done.new_history
                        &&& rest.len() > 0
                        &&& said_by_user(rest.last(), text, metadata)
                        &&& rest.drop_last() == selected_messages(
                            prepared.plan.cold_user_messages,
                            20_000,
                        ).map_values(|m: UserMessageView| user_message_item(m))
                    }
            }
        }),
{
    let wrote = or_empty(model.spec_last_assistant_text(completed));
    let text = model.spec_summary_prefix() + "\n"@ + wrote;
    let rest = local_history(prepared.plan.cold_user_messages, text, metadata);
    reveal_strlit("\n");
    lemma_local_history(prepared.plan.cold_user_messages, text, metadata);
    if let Ok(done) = local_outcome(
        model,
        Some(prepared),
        completed,
        session_history,
        context,
        injection,
        metadata,
    ) {
        assert(with_exact_part(rest, prepared, injection) == done.new_history);
    }
}

proof fn lemma_local_history(
    messages: Seq<UserMessageView>,
    text: Seq<char>,
    metadata: Option<Seq<char>>,
)
    requires
        text.len() > 0,
    ensures
        ({
            let rest = local_history(messages, text, metadata);
            &&& rest.len() > 0
            &&& said_by_user(rest.last(), text, metadata)
            &&& rest.drop_last() == selected_messages(messages, 20_000).map_values(
                |m: UserMessageView| user_message_item(m),
            )
        }),
{
    let all = compacted_history(Seq::empty(), messages, text, 20_000);
    let kept = selected_messages(messages, 20_000).map_values(
        |m: UserMessageView| user_message_item(m),
    );
    assert(Seq::<ItemView>::empty() + kept =~= kept);
    assert(all.drop_last() =~= kept);
    let rest = local_history(messages, text, metadata);
    assert(rest.drop_last() =~= kept);
}

/// The items with the context in its place, where it is injected.
pub open spec fn with_context<M: SessionModel>(
    model: M,
    items: Seq<ItemView>,
    context: Seq<ItemView>,
    injection: InitialContextInjection,
) -> Seq<ItemView> {
    if injection == InitialContextInjection::DoNotInject {
        items
    } else {
        spliced(items, insertion_index(model, items), context)
    }
}

/// A local compaction without a plan takes the summary from the end of the session's history, and
/// keeps the newest messages of the user from all of it; injected context is put in once.
pub proof fn law_local_compaction_without_a_plan<M: SessionModel>(
    model: M,
    completed: Seq<ItemView>,
    session_history: Seq<ItemView>,
    context: Seq<ItemView>,
    injection: InitialContextInjection,
    metadata: Option<Seq<char>>,
)
    ensures
        ({
            let wrote = match model.spec_last_assistant_text(session_history) {
                Some(text) => text,
                None => Seq::empty(),
            };
            let text = model.spec_summary_prefix() + "\n"@ + wrote;
            &&& local_outcome(
                model,
                None,
                completed,
                session_history,
                context,
                injection,
                metadata,
            ) matches Ok(done)
            &&& done.summary_suffix == wrote
            &&& done.summary_text == text
            &&& done.replacement is None
            &&& exists|items: Seq<ItemView>|
                {
                    &&& items.len() > 0
                    &&& said_by_user(items.last(), text, metadata)
                    &&& items.drop_last() == selected_messages(
                        user_messages(model, session_history),
                        20_000,
                    ).map_values(|m: UserMessageView| user_message_item(m))
                    &&& done.new_history == #[trigger] with_context(model, items, context, injection)
                }
        }),
{
    let wrote = or_empty(model.spec_last_assistant_text(session_history));
    let text = model.spec_summary_prefix() + "\n"@ + wrote;
    let messages = user_messages(model, session_history);
    reveal_strlit("\n");
    lemma_local_history(messages, text, metadata);
    let items = local_history(messages, text, metadata);
    let done = local_outcome(
        model,
        None,
        completed,
        session_history,
        context,
        injection,
        metadata,
    )->Ok_0;
    assert(done.new_history == with_context(model, items, context, injection));
}

/// A compaction of the second remote protocol keeps messages of the prompt and puts behind them
/// what the service returned, and under a plan the exact part behind that; what the service
/// returned must then be usable.
pub proof fn law_remote_compaction_is_made_of<M: SessionModel>(
    model: M,
    prepared: PreparedView,
    prompt: Seq<ItemView>,
    output: ItemView,
    injection: InitialContextInjection,
)
    requires
        prepared.plan.hot_suffix.len() > 0,
    ensures
        ({
            let rest = kept_messages(
                model,
                retainable_items(model, prompt),
                64_000,
                usize::MAX as nat,
            ).push(output);
            &&& remote_v2_outcome(model, None, prompt, output, injection) matches Ok(done)
                && done.new_history == rest && done.replacement is None && done.retained_images
                == image_count(rest.drop_last())
            &&& remote_v2_outcome(model, Some(prepared), prompt, output, injection) matches Ok(done)
                ==> done.new_history == with_exact_part(rest, prepared, injection)
                && usable_summary(model, output) && done.replacement is Some
            &&& !usable_summary(model, output) ==> {
                &&& remote_v2_outcome(model, Some(prepared), prompt, output, injection) matches Err(
                    failure,
                )
                &&& failure.reason == Some(ExactTailFailReason::NoUsableColdSummary)
            }
        }),
{
    assert(has_usable_summary(model, seq![output]) == usable_summary(model, output)) by {
        if usable_summary(model, output) {
            assert(usable_summary(model, seq![output][0]));
        }
    }
}

/// A compaction over a transcript keeps the messages that were set apart, puts behind them what
/// the service returned, and the exact part behind that; what the service returned must be usable.
pub proof fn law_transcript_compaction_is_made_of<M: SessionModel>(
    model: M,
    task: TranscriptTaskView,
    output: ItemView,
    usage: Option<TokenUsage>,
    injection: InitialContextInjection,
)
    requires
        task.prepared.plan.hot_suffix.len() > 0,
    ensures
        ({
            let outcome = transcript_outcome(model, task, Ok((output, usage)), injection);
            &&& outcome matches Ok((items, _)) ==> items == with_exact_part(
                task.retained_messages.push(output),
                task.prepared,
                injection,
            ) && usable_summary(model, output)
            &&& !usable_summary(model, output) ==> (outcome matches Err(failure) && failure.reason
                == Some(ExactTailFailReason::NoUsableColdSummary))
        }),
{
    assert(has_usable_summary(model, seq![output]) == usable_summary(model, output)) by {
        if usable_summary(model, output) {
            assert(usable_summary(model, seq![output][0]));
        }
    }
}

/// What is sent over a transcript is the transcript of the cold part, and what stays beside its
/// summary are messages of the cold part, within the budget of the turn and the item limit of the
/// plan.
pub proof fn law_transcript_is_of_the_cold_part<M: SessionModel>(
    model: M,
    prepared: PreparedView,
    base_instructions: Seq<char>,
    task: CompactionTask,
    details: CompactionAnalyticsDetails,
)
    requires
        0 <= task.transcript_retained_tokens <= usize::MAX,
        0 <= prepared.plan.diagnostics.max_model_visible_item_tokens <= usize::MAX,
    ensures
        match planned_begin(model, prepared, base_instructions, task, details) {
            TranscriptBeginView::Ready(begun) => {
                let limit = prepared.plan.diagnostics.max_model_visible_item_tokens;
                &&& transcript_of(model, prepared.plan.cold_history, limit) matches Ok(told)
                &&& begun.items == told.items
                &&& begun.retained_messages == kept_messages(
                    model,
                    retainable_items(model, prepared.plan.cold_history),
                    task.transcript_retained_tokens as nat,
                    limit as nat,
                )
                &&& begun.prepared.plan.hot_suffix == prepared.plan.hot_suffix
                &&& begun.prepared.plan.cold_history == prepared.plan.cold_history
                &&& begun.prepared.initial_context == prepared.initial_context
                &&& begun.details.retained_image_count == Some(
                    image_count(begun.retained_messages) as usize,
                )
            },
            _ => true,
        },
{
}

/// The numbers of a transcript: what the cold part took, what the transcript takes, the
/// difference, and how much was set apart.
pub proof fn law_transcript_is_measured<M: SessionModel>(
    model: M,
    plan: PlanView,
    items: Seq<ItemView>,
    observations: nat,
    retained: Seq<ItemView>,
)
    requires
        items.len() <= usize::MAX,
        retained.len() <= usize::MAX,
        observations <= usize::MAX,
        -0x0fff_ffff_ffff_ffff <= total_tokens(model, plan.cold_history) <= 0x0fff_ffff_ffff_ffff,
        -0x0fff_ffff_ffff_ffff <= total_tokens(model, items) <= 0x0fff_ffff_ffff_ffff,
    ensures
        ({
            let d = with_transcript(model, plan, items, observations, retained).diagnostics;
            let raw = total_tokens(model, plan.cold_history);
            let told = total_tokens(model, items);
            &&& d.raw_cold_tokens == Some(raw)
            &&& d.semantic_transcript_tokens == Some(told)
            &&& d.semantic_transcript_reduction_tokens == Some((raw - told) as i64)
            &&& d.semantic_transcript_item_count == Some(items.len() as usize)
            &&& d.semantic_transcript_tool_observation_count == Some(observations as usize)
            &&& d.retained_cold_message_tokens == Some(total_tokens(model, retained))
            &&& d.retained_cold_message_count == Some(retained.len() as usize)
        }),
{
}

// -- what is measured -------------------------------------------------------------------------

/// What a request cost is recorded; how large the context was only where the request carried all
/// of it. What was deleted before is taken off, but no more than was added since.
pub proof fn law_costs_are_recorded(
    details: CompactionAnalyticsDetails,
    usage: TokenUsage,
    has_plan: bool,
    before: i64,
    deleted: i64,
    most: i64,
)
    requires
        0 <= before <= 0x0fff_ffff_ffff_ffff,
        0 <= most <= 0x0fff_ffff_ffff_ffff,
        0 <= deleted <= 0x0fff_ffff_ffff_ffff,
    ensures
        ({
            let after = details.with_usage(Some(usage), has_plan);
            &&& after.compaction_summary_tokens == Some(usage.output_tokens)
            &&& after.cached_input_tokens == Some(usage.cached_input_tokens)
            &&& after.active_context_tokens_before == if has_plan {
                details.active_context_tokens_before
            } else {
                Some(usage.input_tokens)
            }
            &&& after.retained_image_count == details.retained_image_count
            &&& details.with_usage(None, has_plan) == details
        }),
        details.active_context_tokens_before == Some(before) ==> details.less_deleted(
            deleted,
            most,
        ).active_context_tokens_before == Some(
            (before - if deleted < most {
                deleted
            } else {
                most
            }) as i64,
        ) || deleted == 0,
        details.active_context_tokens_before is None ==> details.less_deleted(deleted, most)
            == details,
{
}

/// A request that must not share a cache is told apart by the turn and by what it is for.
pub proof fn law_cache_keys_tell_requests_apart(turn: Seq<char>, other: Seq<char>)
    ensures
        cache_key(ExactTailImplementation::SemanticTranscript, turn)
            == "semantic-transcript-v2-compaction:"@ + turn,
        cache_key(ExactTailImplementation::RemoteV2, turn) == "exact-tail-v2-compaction:"@ + turn,
        cache_key(ExactTailImplementation::SemanticTranscript, turn) != cache_key(
            ExactTailImplementation::RemoteV2,
            other,
        ),
        turn != other ==> cache_key(ExactTailImplementation::RemoteV2, turn) != cache_key(
            ExactTailImplementation::RemoteV2,
            other,
        ),
{
    reveal_strlit("semantic-transcript-v2-compaction:");
    reveal_strlit("exact-tail-v2-compaction:");
    let a = "semantic-transcript-v2-compaction:"@;
    let b = "exact-tail-v2-compaction:"@;
    assert((a + turn)[0] == 's');
    assert((b + other)[0] == 'e');
    if b + turn == b + other {
        assert(turn =~= (b + turn).subrange(b.len() as int, (b + turn).len() as int));
        assert(other =~= (b + other).subrange(b.len() as int, (b + other).len() as int));
    }
}

/// The names under which reasons are reported.
pub proof fn law_reason_names()
    ensures
        ExactTailFailReason::BudgetUnavailable.name() == "ExactTailBudgetUnavailable"@,
        ExactTailFailReason::NoColdPrefix.name() == "ExactTailNoColdPrefix"@,
        ExactTailFailReason::MinimumHotSuffixTooLarge.name()
            == "ExactTailMinimumHotSuffixTooLarge"@,
        ExactTailFailReason::ReplacementTooLarge.name() == "ExactTailReplacementTooLarge"@,
        ExactTailFailReason::ColdInputMismatch.name() == "ExactTailColdInputMismatch"@,
        ExactTailFailReason::ColdInputTooLarge.name() == "ExactTailColdInputTooLarge"@,
        ExactTailFailReason::NoUsableColdSummary.name() == "ExactTailNoUsableColdSummary"@,
        ExactTailFailReason::ModelVisibleItemTooLarge.name()
            == "ExactTailModelVisibleItemTooLarge"@,
        ExactTailFailReason::BackendContextExceeded.name() == "ExactTailBackendContextExceeded"@,
        ExactTailFailReason::HotSuffixItemIdMissing.name() == "ExactTailHotSuffixItemIdMissing"@,
        ExactTailFailReason::HotSuffixMismatch.name() == "ExactTailHotSuffixMismatch"@,
{
}

} // verus!
