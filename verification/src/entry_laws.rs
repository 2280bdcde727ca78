//! What callers can rely on, told of the functions that they call.

use crate::compact::{
    build_compacted_history, message_tokens, user_message_views, CompactedUserMessage,
};
use crate::compact_laws::{law_local_history_keeps_what_fits, said_by_user};
use crate::exact_tail::{CompactExactTailStrategy, CompactionConfig, ExactTailError};
use crate::exact_tail_plan::{plan_exact_tail, ExactTailPlan, ExactTailPlanInput};
use crate::exact_tail_plan_laws::{
    generated_context, law_no_protocol_item_is_lost, law_plan_leaves_out_generated_context_alone,
};
use crate::item::{item_views, ItemView, ResponseItem};
use crate::retention::{kept_messages, retained_messages_for_remote_compaction_v2_with_item_cap};
use crate::retention_laws::{images_of, kept_role, law_images_are_counted, law_messages_that_take_part};
use crate::rolling::RollingPromptError;
use crate::rolling_pairwise::{PairwiseRollingPromptParams, RollingPromptBuildOutcome};
use crate::rolling_prompt::{build_rolling_prompt_on_basis, prompt_input, RollingPromptParams};
use crate::rolling_prompt_laws::{cold_groups, only_summaries, summaries_fit};
use crate::rolling_request_laws::{complete, law_summary_request_is_complete};
use crate::rolling_state::{History, RollingPromptState};
use crate::route::{compact_route_for_config, law_route_follows_the_configuration, CompactRoute};
use crate::session_model::SessionModel;
use crate::stage_one::{has_output, job_outcome, JobOutcome, StageOneOutput};
use crate::stream::{
    buffered, drained, DrainActionView, CompactError, EventView, LocalCompactionDrainMode,
};
use crate::summary_tree::SummarySource;
use crate::task_remote::{
    after_failed_request, compaction_service_tier, AfterRequestFailure,
};
use crate::task_transcript::fallback_wanted;
use crate::transcript::{
    render_semantic_transcript, tell_items, tell_orphans, SemanticTranscript, ToldView,
};
use crate::transcript_text_laws::{
    call_head, law_call_and_output_are_one_observation, law_transcript_keeps_the_order, ordinary,
    output_tail, says, tool_id,
};
use vstd::prelude::*;

verus! {

// -- histories --------------------------------------------------------------------------------

/// A locally compacted history keeps messages of less than twenty thousand tokens together whole,
/// behind the initial context, and ends with the summary.
pub proof fn law_compacted_history_keeps_what_fits(
    context: Vec<ResponseItem>,
    messages: Vec<CompactedUserMessage>,
    summary: &str,
    r: Vec<ResponseItem>,
)
    requires
        call_ensures(build_compacted_history, (context, &messages, summary), r),
        message_tokens(user_message_views(messages@)) < 20_000,
    ensures
        ({
            let kept = user_message_views(messages@);
            let first = context@.len() as int;
            &&& r@.len() == context@.len() + messages@.len() + 1
            &&& forall|k: int|
                0 <= k < kept.len() ==> said_by_user(
                    item_views(r@)[first + k],
                    (#[trigger] kept[k]).message,
                    kept[k].metadata,
                )
            &&& summary@.len() > 0 ==> said_by_user(item_views(r@).last(), summary@, None)
        }),
{
    law_local_history_keeps_what_fits(
        item_views(context@),
        user_message_views(messages@),
        summary@,
    );
}

/// The messages kept beside a compaction are chosen among those of the user, the developer and the
/// system that the session keeps, and their images are counted.
pub proof fn law_retained_messages<M: SessionModel>(
    model: M,
    prompt: &[ResponseItem],
    max_tokens: usize,
    max_item_tokens: usize,
    r: (Vec<ResponseItem>, usize),
)
    requires
        call_ensures(
            retained_messages_for_remote_compaction_v2_with_item_cap::<M>,
            (&model, prompt, max_tokens, max_item_tokens),
            r,
        ),
        images_of(item_views(r.0@)) <= usize::MAX,
    ensures
        item_views(r.0@) == kept_messages(
            model,
            item_views(prompt@).filter(
                |i: ItemView| kept_role(i) && model.spec_keep_compacted(i),
            ),
            max_tokens as nat,
            max_item_tokens as nat,
        ),
        r.1 == images_of(item_views(r.0@)),
{
    law_messages_that_take_part(model, item_views(prompt@));
    law_images_are_counted(item_views(r.0@));
}

// -- plans ------------------------------------------------------------------------------------

/// A plan that was made parts what is not generated context into what is summarised and what stays
/// exact, and every tool call and output of the history is in one of the two.
pub proof fn law_planned_history_is_complete<M: SessionModel>(
    model: M,
    history: &[ResponseItem],
    input: ExactTailPlanInput,
    r: Result<ExactTailPlan, ExactTailError>,
    at: int,
)
    requires
        call_ensures(plan_exact_tail::<M>, (&model, history, input), r),
        0 <= at < history@.len(),
    ensures
        r matches Ok(plan) ==> {
            let all = item_views(plan.cold_history@) + item_views(plan.hot_suffix@);
            let item = history@[at]@;
            &&& all == item_views(history@).filter(
                |i: ItemView| !generated_context(model, i),
            )
            &&& item.body is FunctionCall || item.body is FunctionCallOutput
                || item.body is CustomToolCall || item.body is CustomToolCallOutput
                || item.body is ToolSearchCall || item.body is ToolSearchOutput
                || item.body is LocalShellCall ==> all.contains(item)
        },
{
    let items = item_views(history@);
    law_plan_leaves_out_generated_context_alone(model, items, input);
    law_no_protocol_item_is_lost(model, items, input, at);
    assert(items[at] == history@[at]@);
}

// -- transcripts ------------------------------------------------------------------------------

/// A rendered transcript tells every call with its output: some message says what was called, with
/// what, whether it succeeded and what came back.
pub proof fn law_rendered_transcript_tells_calls<M: SessionModel>(
    model: M,
    history: &[ResponseItem],
    limit: i64,
    r: Result<SemanticTranscript, ExactTailError>,
    call: int,
    output: int,
)
    requires
        call_ensures(render_semantic_transcript::<M>, (&model, history, limit), r),
        ordinary(limit),
        0 <= call < output < history@.len(),
        call_head(history@[call]@) is Some,
        output_tail(history@[output]@) is Some,
        tool_id(history@[call]@) is Some,
        tool_id(history@[output]@) == tool_id(history@[call]@),
        forall|k: int|
            call < k < output ==> tool_id((#[trigger] history@[k])@) != tool_id(history@[call]@),
    ensures
        r matches Ok(transcript) ==> exists|k: int|
            0 <= k < transcript.items@.len() && says(
                model,
                #[trigger] item_views(transcript.items@)[k],
                "assistant"@,
                call_head(history@[call]@)->Some_0 + output_tail(history@[output]@)->Some_0,
                None,
                limit,
            ),
{
    if let Ok(transcript) = r {
        let all = item_views(history@);
        let before = all.subrange(0, call);
        let between = all.subrange(call + 1, output);
        let rest = all.subrange(output + 1, all.len() as int);
        let told = (before.push(all[call]) + between).push(all[output]);
        assert(told + rest =~= all);
        assert forall|k: int| 0 <= k < between.len() implies tool_id(#[trigger] between[k])
            != tool_id(all[call]) by {
            assert(between[k] == history@[call + 1 + k]@);
        }
        law_transcript_keeps_the_order(model, told, rest, limit);
        law_call_and_output_are_one_observation(
            model,
            before,
            all[call],
            between,
            all[output],
            limit,
        );
        let state = tell_items(model, all, limit)->Ok_0;
        let part = tell_items(model, told, limit)->Ok_0;
        lemma_orphans_come_last(model, state, state.order, limit);
        let done = tell_orphans(model, state, state.order, limit)->Ok_0;
        let k = part.items.len() - 1;
        assert(done.items == item_views(transcript.items@));
        assert(state.items.subrange(0, part.items.len() as int)[k] == state.items[k]);
        assert(done.items.subrange(0, state.items.len() as int)[k] == done.items[k]);
        assert(item_views(transcript.items@)[k] == part.items.last());
    }
}

proof fn lemma_orphans_come_last<M: SessionModel>(
    model: M,
    state: ToldView,
    order: Seq<Seq<char>>,
    limit: i64,
)
    ensures
        tell_orphans(model, state, order, limit) matches Ok(done) ==> state.items.len()
            <= done.items.len() && done.items.subrange(0, state.items.len() as int) == state.items,
    decreases order.len(),
{
    if order.len() == 0 {
        assert(state.items.subrange(0, state.items.len() as int) =~= state.items);
    } else {
        lemma_orphans_come_last(model, state, order.drop_last(), limit);
        if let Ok(done) = tell_orphans(model, state, order, limit) {
            let so_far = tell_orphans(model, state, order.drop_last(), limit)->Ok_0;
            assert(done.items.subrange(0, state.items.len() as int) =~= state.items);
        }
    }
}

// -- rolling prompts --------------------------------------------------------------------------

/// A request for a summary that building a prompt leads to is complete.
pub proof fn law_request_of_a_prompt_is_complete<M: SessionModel>(
    model: M,
    history: History,
    state: RollingPromptState,
    params: RollingPromptParams,
    pairwise: PairwiseRollingPromptParams,
    fingerprint: u64,
    source: SummarySource,
    r: Result<RollingPromptBuildOutcome, RollingPromptError>,
)
    requires
        call_ensures(
            build_rolling_prompt_on_basis::<M>,
            (&model, &history, &state, params, fingerprint, source),
            r,
        ),
        params@.effective_context_window is Some,
        params@.pairwise_compaction == Some(pairwise),
        only_summaries(state@.pairwise_summaries),
        history.raw_items@.len() <= usize::MAX,
        summaries_fit(
            prompt_input(
                model,
                item_views(history.raw_items@),
                history.version,
                state@,
                params@,
                fingerprint,
                params@.effective_context_window->Some_0,
            ),
            pairwise,
        ),
    ensures
        r matches Ok(RollingPromptBuildOutcome::NeedsPairSummary { request, projected_state: _ })
            ==> complete(
            request@,
            cold_groups(
                prompt_input(
                    model,
                    item_views(history.raw_items@),
                    history.version,
                    state@,
                    params@,
                    fingerprint,
                    params@.effective_context_window->Some_0,
                ),
                pairwise,
            ),
            pairwise,
        ),
{
    law_summary_request_is_complete(
        model,
        item_views(history.raw_items@),
        history.version,
        state@,
        params@,
        pairwise,
        fingerprint,
        source,
    );
}

// -- decisions --------------------------------------------------------------------------------

/// The route that is taken is the one that the configuration asks for.
pub proof fn law_taken_route(
    config: CompactionConfig,
    remote: bool,
    r: Result<CompactRoute, CompactError>,
)
    requires
        call_ensures(compact_route_for_config, (&config, remote), r),
    ensures
        ({
            let exact = config.compact_preserve_recent_tokens matches Some(tokens) && tokens > 0;
            let named = config.compact_exact_tail_strategy;
            &&& !exact || named == CompactExactTailStrategy::Auto ==> r is Ok && r->Ok_0 == if
                !remote {
                CompactRoute::Local
            } else if config.remote_compaction_v2 && (!exact
                || config.remote_compaction_v2_explicit) {
                CompactRoute::RemoteV2
            } else {
                CompactRoute::RemoteLegacy
            }
            &&& exact && named != CompactExactTailStrategy::Auto ==> r is Ok == remote
        }),
{
    law_route_follows_the_configuration(config, remote);
}

/// A request that failed is made again only where its error allows it, and never more than twice.
pub proof fn law_failed_request(retryable: bool, most: u64, next: AfterRequestFailure)
    requires
        call_ensures(after_failed_request, (retryable, most), next),
    ensures
        !retryable ==> next == AfterRequestFailure::Fail,
        retryable ==> {
            &&& next matches AfterRequestFailure::RetryUpTo { max_retries }
            &&& max_retries <= most
            &&& max_retries <= 2
            &&& max_retries == most || max_retries == 2
        },
{
}

/// A job whose result was not taken has failed; else it succeeded, with output where both the
/// memory and its summary say something.
pub proof fn law_job_succeeds(
    output: StageOneOutput,
    stored: bool,
    recorded: bool,
    outcome: JobOutcome,
)
    requires
        call_ensures(has_output, (&output,), stored),
        call_ensures(job_outcome, (stored, recorded), outcome),
    ensures
        outcome == JobOutcome::Failed <==> !recorded,
        outcome == JobOutcome::SucceededWithOutput <==> recorded && output.raw_memory@.len() > 0
            && output.rollout_summary@.len() > 0,
{
}

/// Where an event of a local compaction goes: under a plan finished items are buffered, in order;
/// else they go to the session. The end brings the usage.
pub proof fn law_events_are_drained(
    items: Seq<ItemView>,
    event: EventView,
    mode: LocalCompactionDrainMode,
)
    ensures
        ({
            let plan = mode == LocalCompactionDrainMode::BufferOnly;
            let done = event is OutputItemDone;
            &&& done && plan ==> buffered(items, event, mode) == items.push(
                event->OutputItemDone_0,
            ) && drained(event, mode) == DrainActionView::Continue
            &&& done && !plan ==> drained(event, mode) == DrainActionView::Record(
                event->OutputItemDone_0,
            )
            &&& !(done && plan) ==> buffered(items, event, mode) == items
            &&& event matches EventView::Completed { token_usage } ==> drained(event, mode)
                == DrainActionView::Complete(token_usage)
            &&& event matches EventView::ServerReasoningIncluded(included) ==> drained(event, mode)
                == DrainActionView::SetServerReasoningIncluded(included)
        }),
{
}

/// Another model is asked only where there is one and the first refused the request as invalid.
pub proof fn law_fallback(error: CompactError, other: bool, wanted: bool)
    requires
        call_ensures(fallback_wanted, (&error, other), wanted),
    ensures
        wanted <==> other && error@ is InvalidRequest,
{
}

/// A request that an API key pays for has no service tier; any other has the configured one.
pub proof fn law_service_tier(api_key: bool, configured: Option<String>, tier: Option<String>)
    requires
        call_ensures(compaction_service_tier, (api_key, configured), tier),
    ensures
        api_key ==> tier is None,
        !api_key ==> tier == configured,
{
}

} // verus!
