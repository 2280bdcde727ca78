//! A compaction whose summary a remote service writes over the history told as a transcript.

use crate::compact::InitialContextInjection;
use crate::exact_tail::{ErrorView, ExactTailError, ExactTailImplementation};
use crate::exact_tail_plan::{ExactTailDiagnostics, PlanView};
use crate::exact_tail_replacement::{
    append_hot_suffix_to_replacement, build_exact_tail_replacement, ends_with_items,
    ensure_replacement_has_cold_summary, has_usable_summary, no_summary_error, prepared_plan,
    replacement, replacement_outcome, ExactTailReplacement, ExactTailReplacementDiagnostics,
    PreparedExactTailPlan, PreparedView,
};
use crate::item::{
    clone_items, item_views, option_view, plain_item, BodyView, ItemView, ResponseItem,
};
use crate::retention::{
    image_count, kept_messages, retainable_items,
    retained_messages_for_remote_compaction_v2_with_item_cap,
};
use crate::session_model::{
    estimate_items_tokens, saturating, saturating_add, saturating_sub, total_tokens, InputModality,
    SessionModel,
};
use crate::stream::{CompactError, CompactErrorView, RemoteCompactionV2Output, TokenUsage};
use crate::task::{
    backend_failure, check_plan_request, exact_tail_failure, fail_exact_tail, prepare_input,
    prepared_view, request_failure, service_failure, source_items, start_compaction,
    CompactFailure, CompactionTask, FailureView,
};
use crate::task_remote::{
    cache_key, compaction_request_input, isolated_prompt_cache_key, one_item, reply_view,
    CompactionAnalyticsDetails, RemoteRequest,
};
use crate::transcript::{
    all_clean, item_limit, law_transcript_is_clean, render_semantic_transcript, transcript_of,
};
use vstd::prelude::*;
use vstd::string::*;

verus! {

/// A transcript can be summarised only with a plan.
pub open spec fn no_exact_tail() -> FailureView {
    FailureView {
        error: CompactErrorView::Stream(
            "Semantic transcript compaction requires active exact-tail configuration."@,
        ),
        reason: None,
    }
}

pub fn require_exact_tail(prepared: Option<PreparedExactTailPlan>) -> (r: Result<
    PreparedExactTailPlan,
    CompactFailure,
>)
    ensures
        match prepared {
            Some(plan) => r == Ok::<PreparedExactTailPlan, CompactFailure>(plan),
            None => r is Err && r->Err_0@ == no_exact_tail(),
        },
{
    match prepared {
        Some(plan) => Ok(plan),
        None => Err(
            CompactFailure {
                error: CompactError::Stream(
                    String::from_str(
                        "Semantic transcript compaction requires active exact-tail configuration.",
                    ),
                ),
                reason: None,
            },
        ),
    }
}

/// The budget as a count of tokens; a budget that is none lets everything through.
pub open spec fn retained_limit(budget: i64) -> nat {
    if 0 <= budget <= usize::MAX {
        budget as nat
    } else {
        usize::MAX as nat
    }
}

/// The limit on one retained message.
pub open spec fn retained_item_limit(limit: i64) -> nat {
    if 0 <= limit <= usize::MAX {
        limit as nat
    } else {
        10_000
    }
}

fn count_or(n: i64, other: usize) -> (r: usize)
    ensures
        r == if 0 <= n <= usize::MAX {
            n as int
        } else {
            other as int
        },
{
    match usize::try_from(n) {
        Ok(n) => n,
        Err(_) => other,
    }
}

/// What is sent to be summarised, and what stays beside the summary.
#[derive(Debug)]
pub struct TranscriptRequest {
    pub items: Vec<ResponseItem>,
    pub retained_messages: Vec<ResponseItem>,
    pub retained_images: usize,
}

/// The numbers that the transcript adds to the plan's.
pub open spec fn with_transcript<M: SessionModel>(
    model: M,
    plan: PlanView,
    items: Seq<ItemView>,
    observations: nat,
    retained: Seq<ItemView>,
) -> PlanView {
    let raw = total_tokens(model, plan.cold_history);
    let told = total_tokens(model, items);
    PlanView {
        diagnostics: ExactTailDiagnostics {
            raw_cold_tokens: Some(raw),
            semantic_transcript_tokens: Some(told),
            semantic_transcript_item_count: Some(items.len() as usize),
            semantic_transcript_tool_observation_count: Some(observations as usize),
            semantic_transcript_reduction_tokens: Some(saturating(raw - told)),
            retained_cold_message_tokens: Some(total_tokens(model, retained)),
            retained_cold_message_count: Some(retained.len() as usize),
            ..plan.diagnostics
        },
        ..plan
    }
}

/// The messages that stay beside the summary of a transcript.
pub open spec fn transcript_retained<M: SessionModel>(
    model: M,
    plan: PlanView,
    retained_budget: i64,
) -> Seq<ItemView> {
    kept_messages(
        model,
        retainable_items(model, plan.cold_history),
        retained_limit(retained_budget),
        retained_item_limit(plan.diagnostics.max_model_visible_item_tokens),
    )
}

/// Tells the cold history as a transcript and sets the retained messages apart. The plan's numbers
/// are filled in once the transcript is there.
pub fn tell_cold_history<M: SessionModel>(
    model: &M,
    prepared: &mut PreparedExactTailPlan,
    retained_budget: i64,
) -> (r: Result<TranscriptRequest, ExactTailError>)
    ensures
        match transcript_of(
            *model,
            old(prepared)@.plan.cold_history,
            old(prepared)@.plan.diagnostics.max_model_visible_item_tokens,
        ) {
            Err(error) => final(prepared)@ == old(prepared)@ && r is Err && r->Err_0@ == error,
            Ok(told) => {
                let retained = transcript_retained(*model, old(prepared)@.plan, retained_budget);
                &&& final(prepared)@ == (PreparedView {
                    plan: with_transcript(
                        *model,
                        old(prepared)@.plan,
                        told.items,
                        told.observations,
                        retained,
                    ),
                    ..old(prepared)@
                })
                &&& r is Ok
                &&& item_views(r->Ok_0.items@) == told.items
                &&& item_views(r->Ok_0.retained_messages@) == retained
                &&& r->Ok_0.retained_images == image_count(retained)
            },
        },
{
    let item_cap: i64 = prepared.plan.diagnostics.max_model_visible_item_tokens;
    let raw_cold_tokens: i64 = estimate_items_tokens(model, prepared.plan.cold_history.as_slice());
    let transcript = match render_semantic_transcript(
        model,
        prepared.plan.cold_history.as_slice(),
        item_cap,
    ) {
        Ok(transcript) => transcript,
        Err(error) => {
            return Err(error);
        },
    };
    let (retained_messages, retained_images) =
        retained_messages_for_remote_compaction_v2_with_item_cap(
        model,
        prepared.plan.cold_history.as_slice(),
        count_or(retained_budget, usize::MAX),
        count_or(item_cap, 10_000),
    );
    let diagnostics = ExactTailDiagnostics {
        raw_cold_tokens: Some(raw_cold_tokens),
        semantic_transcript_tokens: Some(transcript.estimated_tokens),
        semantic_transcript_item_count: Some(transcript.items.len()),
        semantic_transcript_tool_observation_count: Some(transcript.tool_observation_count),
        semantic_transcript_reduction_tokens: Some(
            saturating_sub(raw_cold_tokens, transcript.estimated_tokens),
        ),
        retained_cold_message_tokens: Some(
            estimate_items_tokens(model, retained_messages.as_slice()),
        ),
        retained_cold_message_count: Some(retained_messages.len()),
        ..prepared.plan.diagnostics
    };
    prepared.plan.diagnostics = diagnostics;
    Ok(TranscriptRequest { items: transcript.items, retained_messages, retained_images })
}

/// The plan with the numbers of the attempted replacement.
pub open spec fn with_attempt<M: SessionModel>(
    model: M,
    prepared: PreparedView,
    compacted: Seq<ItemView>,
    injection: InitialContextInjection,
    summary_tokens: i64,
) -> PreparedView {
    let attempted = total_tokens(
        model,
        replacement(
            model,
            compacted,
            prepared.initial_context,
            prepared.plan.hot_suffix,
            injection,
        ),
    );
    PreparedView {
        plan: PlanView {
            diagnostics: ExactTailDiagnostics {
                actual_summary_tokens: Some(summary_tokens),
                attempted_replacement_tokens_estimate: Some(attempted),
                attempted_final_replacement_tokens_estimate: Some(
                    saturating(
                        attempted
                            + prepared.plan.diagnostics.final_replacement_extra_budget_tokens,
                    ),
                ),
                ..prepared.plan.diagnostics
            },
            ..prepared.plan
        },
        ..prepared
    }
}

/// Finishes a compaction over a transcript: the retained messages, the summary and the exact tail.
/// Beside the plan's numbers, those of the analysis tell how large the summary came out.
pub fn finish_transcript_compaction<M: SessionModel>(
    model: &M,
    prepared: &mut PreparedExactTailPlan,
    retained_messages: Vec<ResponseItem>,
    compaction_output: ResponseItem,
    initial_context_injection: InitialContextInjection,
    details: &mut CompactionAnalyticsDetails,
) -> (r: Result<ExactTailReplacement, CompactFailure>)
    ensures
        ({
            let compacted = item_views(retained_messages@).push(compaction_output@);
            let summary_tokens = total_tokens(*model, seq![compaction_output@]);
            if !has_usable_summary(*model, seq![compaction_output@]) {
                &&& r is Err
                &&& r->Err_0@ == exact_tail_failure(no_summary_error())
                &&& final(prepared)@ == old(prepared)@
                &&& *final(details) == *old(details)
            } else {
                &&& *final(details) == (CompactionAnalyticsDetails {
                    compaction_summary_tokens: Some(summary_tokens),
                    ..*old(details)
                })
                &&& final(prepared)@ == with_attempt(
                    *model,
                    old(prepared)@,
                    compacted,
                    initial_context_injection,
                    summary_tokens,
                )
                &&& match replacement_outcome(
                    *model,
                    final(prepared)@,
                    compacted,
                    initial_context_injection,
                    summary_tokens,
                ) {
                    Ok((items, diagnostics)) => r is Ok && item_views(
                        r->Ok_0.replacement_history@,
                    ) == items && r->Ok_0.diagnostics == diagnostics,
                    Err(error) => r is Err && r->Err_0@ == exact_tail_failure(error),
                }
            }
        }),
{
    let alone = one_item(&compaction_output);
    if let Err(error) = ensure_replacement_has_cold_summary(model, alone.as_slice()) {
        return Err(fail_exact_tail(error));
    }
    let summary_tokens: i64 = estimate_items_tokens(model, alone.as_slice());
    details.compaction_summary_tokens = Some(summary_tokens);
    let ghost kept = item_views(retained_messages@);
    let mut compacted = retained_messages;
    compacted.push(compaction_output);
    assert(item_views(compacted@) =~= kept.push(compaction_output@));
    let attempted = append_hot_suffix_to_replacement(
        model,
        clone_items(compacted.as_slice()),
        clone_items(prepared.initial_context.as_slice()),
        clone_items(prepared.plan.hot_suffix.as_slice()),
        initial_context_injection,
    );
    let attempted_tokens: i64 = estimate_items_tokens(model, attempted.as_slice());
    let ghost before = prepared@;
    let diagnostics = ExactTailDiagnostics {
        actual_summary_tokens: Some(summary_tokens),
        attempted_replacement_tokens_estimate: Some(attempted_tokens),
        attempted_final_replacement_tokens_estimate: Some(
            saturating_add(
                attempted_tokens,
                prepared.plan.diagnostics.final_replacement_extra_budget_tokens,
            ),
        ),
        ..prepared.plan.diagnostics
    };
    prepared.plan.diagnostics = diagnostics;
    assert(prepared@.plan.coverage == before.plan.coverage);
    match build_exact_tail_replacement(
        model,
        prepared,
        compacted,
        initial_context_injection,
        summary_tokens,
    ) {
        Err(error) => Err(fail_exact_tail(error)),
        Ok(done) => Ok(done),
    }
}

// ---------------------------------------------------------------------------------------------
// A task from beginning to end.
// ---------------------------------------------------------------------------------------------

/// A compaction over a transcript under way.
#[derive(Debug)]
pub struct TranscriptTask {
    pub prepared: PreparedExactTailPlan,
    /// The transcript.
    pub items: Vec<ResponseItem>,
    pub retained_messages: Vec<ResponseItem>,
    pub details: CompactionAnalyticsDetails,
}

pub struct TranscriptTaskView {
    pub prepared: PreparedView,
    pub items: Seq<ItemView>,
    pub retained_messages: Seq<ItemView>,
    pub details: CompactionAnalyticsDetails,
}

impl View for TranscriptTask {
    type V = TranscriptTaskView;

    open spec fn view(&self) -> TranscriptTaskView {
        TranscriptTaskView {
            prepared: self.prepared@,
            items: item_views(self.items@),
            retained_messages: item_views(self.retained_messages@),
            details: self.details,
        }
    }
}

/// How a compaction over a transcript begins.
#[derive(Debug)]
pub enum TranscriptBegin {
    /// There is no plan for this history.
    Unplanned(ExactTailError),
    Failed {
        prepared: Option<PreparedExactTailPlan>,
        failure: CompactFailure,
        details: CompactionAnalyticsDetails,
    },
    Ready(TranscriptTask),
}

pub enum TranscriptBeginView {
    Unplanned(ErrorView),
    Failed {
        prepared: Option<PreparedView>,
        failure: FailureView,
        details: CompactionAnalyticsDetails,
    },
    Ready(TranscriptTaskView),
}

impl View for TranscriptBegin {
    type V = TranscriptBeginView;

    open spec fn view(&self) -> TranscriptBeginView {
        match self {
            TranscriptBegin::Unplanned(error) => TranscriptBeginView::Unplanned(error@),
            TranscriptBegin::Failed { prepared, failure, details } => TranscriptBeginView::Failed {
                prepared: prepared_view(*prepared),
                failure: failure@,
                details: *details,
            },
            TranscriptBegin::Ready(task) => TranscriptBeginView::Ready(task@),
        }
    }
}

/// The beginning under a plan.
pub open spec fn planned_begin<M: SessionModel>(
    model: M,
    prepared: PreparedView,
    base_instructions: Seq<char>,
    task: CompactionTask,
    details: CompactionAnalyticsDetails,
) -> TranscriptBeginView {
    match transcript_of(
        model,
        prepared.plan.cold_history,
        prepared.plan.diagnostics.max_model_visible_item_tokens,
    ) {
        Err(error) => TranscriptBeginView::Failed {
            prepared: Some(prepared),
            failure: exact_tail_failure(error),
            details,
        },
        Ok(told) => {
            let retained = transcript_retained(
                model,
                prepared.plan,
                task.transcript_retained_tokens,
            );
            let measured = CompactionAnalyticsDetails {
                retained_image_count: Some(image_count(retained) as usize),
                ..details
            };
            let plan = with_transcript(
                model,
                prepared.plan,
                told.items,
                told.observations,
                retained,
            );
            let filled = PreparedView { plan, ..prepared };
            match request_failure(
                model,
                Some(plan.diagnostics),
                told.items,
                task.model_context_window,
                base_instructions,
            ) {
                Some(failure) => TranscriptBeginView::Failed {
                    prepared: Some(filled),
                    failure,
                    details: measured,
                },
                None => TranscriptBeginView::Ready(
                    TranscriptTaskView {
                        prepared: filled,
                        items: told.items,
                        retained_messages: retained,
                        details: measured,
                    },
                ),
            }
        },
    }
}

/// The beginning: the plan is made, its cold history is told as a transcript, and that must fit.
pub open spec fn transcript_begin<M: SessionModel>(
    model: M,
    history: Seq<ItemView>,
    context: Seq<ItemView>,
    base_instructions: Seq<char>,
    task: CompactionTask,
    details: CompactionAnalyticsDetails,
) -> TranscriptBeginView {
    match prepared_plan(
        model,
        source_items(model, history, task),
        context,
        base_instructions,
        prepare_input(model, history, task),
    ) {
        Err(error) => TranscriptBeginView::Unplanned(error),
        Ok(None) => TranscriptBeginView::Failed {
            prepared: None,
            failure: no_exact_tail(),
            details,
        },
        Ok(Some(prepared)) => planned_begin(model, prepared, base_instructions, task, details),
    }
}

fn begin_planned<M: SessionModel>(
    model: &M,
    prepared: PreparedExactTailPlan,
    base_instructions: &str,
    task: CompactionTask,
    details: CompactionAnalyticsDetails,
) -> (r: TranscriptBegin)
    ensures
        r@ == planned_begin(*model, prepared@, base_instructions@, task, details),
{
    let mut prepared = prepared;
    let told = match tell_cold_history(model, &mut prepared, task.transcript_retained_tokens) {
        Ok(told) => told,
        Err(error) => {
            return TranscriptBegin::Failed {
                prepared: Some(prepared),
                failure: fail_exact_tail(error),
                details,
            };
        },
    };
    let mut measured = details;
    measured.retained_image_count = Some(told.retained_images);
    match check_plan_request(
        model,
        &prepared.plan,
        &told.items,
        task.model_context_window,
        base_instructions,
    ) {
        Err(failure) => TranscriptBegin::Failed {
            prepared: Some(prepared),
            failure,
            details: measured,
        },
        Ok(_) => TranscriptBegin::Ready(
            TranscriptTask {
                prepared,
                items: told.items,
                retained_messages: told.retained_messages,
                details: measured,
            },
        ),
    }
}

/// Begins a compaction over a transcript.
pub fn begin_transcript_compaction<M: SessionModel>(
    model: &M,
    history: Vec<ResponseItem>,
    current_context: Vec<ResponseItem>,
    base_instructions: &str,
    task: CompactionTask,
    details: CompactionAnalyticsDetails,
) -> (r: TranscriptBegin)
    ensures
        r@ == transcript_begin(
            *model,
            item_views(history@),
            item_views(current_context@),
            base_instructions@,
            task,
            details,
        ),
{
    match start_compaction(model, history, current_context, base_instructions, task) {
        Err(error) => TranscriptBegin::Unplanned(error),
        Ok(started) => match require_exact_tail(started.prepared) {
            Err(failure) => TranscriptBegin::Failed { prepared: None, failure, details },
            Ok(prepared) => begin_planned(model, prepared, base_instructions, task, details),
        },
    }
}

/// What the service's answer comes to.
pub open spec fn transcript_outcome<M: SessionModel>(
    model: M,
    task: TranscriptTaskView,
    reply: Result<(ItemView, Option<TokenUsage>), CompactErrorView>,
    injection: InitialContextInjection,
) -> Result<(Seq<ItemView>, ExactTailReplacementDiagnostics), FailureView> {
    match reply {
        Err(error) => Err(service_failure(error, true)),
        Ok((output, _)) => if !has_usable_summary(model, seq![output]) {
            Err(exact_tail_failure(no_summary_error()))
        } else {
            let compacted = task.retained_messages.push(output);
            let tokens = total_tokens(model, seq![output]);
            match replacement_outcome(
                model,
                with_attempt(model, task.prepared, compacted, injection, tokens),
                compacted,
                injection,
                tokens,
            ) {
                Ok(done) => Ok(done),
                Err(error) => Err(exact_tail_failure(error)),
            }
        },
    }
}

/// The task after the answer: with a usable summary the numbers of the attempt are filled in, and
/// the summary counts as large as it came out.
pub open spec fn transcript_after<M: SessionModel>(
    model: M,
    task: TranscriptTaskView,
    reply: Result<(ItemView, Option<TokenUsage>), CompactErrorView>,
    injection: InitialContextInjection,
) -> TranscriptTaskView {
    match reply {
        Err(_) => task,
        Ok((output, usage)) => {
            let details = task.details.with_usage(usage, true);
            if !has_usable_summary(model, seq![output]) {
                TranscriptTaskView { details, ..task }
            } else {
                let tokens = total_tokens(model, seq![output]);
                TranscriptTaskView {
                    prepared: with_attempt(
                        model,
                        task.prepared,
                        task.retained_messages.push(output),
                        injection,
                        tokens,
                    ),
                    details: CompactionAnalyticsDetails {
                        compaction_summary_tokens: Some(tokens),
                        ..details
                    },
                    ..task
                }
            }
        },
    }
}

impl TranscriptTask {
    /// What is sent to the service.
    pub fn request<M: SessionModel>(
        &self,
        model: &M,
        modalities: &[InputModality],
        turn_id: &str,
    ) -> (request: RemoteRequest)
        ensures
            item_views(request.prompt_input@) == model.spec_prompt_items(self@.items, modalities@),
            item_views(request.input@) == item_views(request.prompt_input@).push(
                plain_item(BodyView::CompactionTrigger),
            ),
            option_view(request.isolated_cache_key) == Some(
                cache_key(ExactTailImplementation::SemanticTranscript, turn_id@),
            ),
    {
        let prompt_input = model.prompt_items(clone_items(self.items.as_slice()), modalities);
        let input = compaction_request_input(&prompt_input);
        let key = isolated_prompt_cache_key(ExactTailImplementation::SemanticTranscript, turn_id);
        RemoteRequest { prompt_input, input, isolated_cache_key: Some(key) }
    }

    /// Takes the service's answer.
    pub fn on_reply<M: SessionModel>(
        &mut self,
        model: &M,
        reply: Result<RemoteCompactionV2Output, CompactError>,
        initial_context_injection: InitialContextInjection,
    ) -> (r: Result<ExactTailReplacement, CompactFailure>)
        ensures
            ({
                let outcome = transcript_outcome(
                    *model,
                    old(self)@,
                    reply_view(reply),
                    initial_context_injection,
                );
                match r {
                    Ok(done) => outcome == Ok::<
                        (Seq<ItemView>, ExactTailReplacementDiagnostics),
                        FailureView,
                    >((item_views(done.replacement_history@), done.diagnostics)),
                    Err(failure) => outcome == Err::<
                        (Seq<ItemView>, ExactTailReplacementDiagnostics),
                        FailureView,
                    >(failure@),
                }
            }),
            final(self)@ == transcript_after(
                *model,
                old(self)@,
                reply_view(reply),
                initial_context_injection,
            ),
    {
        match reply {
            Err(error) => Err(backend_failure(error, true)),
            Ok(output) => {
                self.details.record_usage(output.token_usage, true);
                finish_transcript_compaction(
                    model,
                    &mut self.prepared,
                    clone_items(self.retained_messages.as_slice()),
                    output.compaction_output,
                    initial_context_injection,
                    &mut self.details,
                )
            },
        }
    }
}

// ---------------------------------------------------------------------------------------------
// Falling back on another model.
// ---------------------------------------------------------------------------------------------

/// Another model is tried only where there is one and the first refused the request as invalid.
pub fn fallback_wanted(error: &CompactError, has_fallback: bool) -> (r: bool)
    ensures
        r == (has_fallback && error@ is InvalidRequest),
{
    let invalid = match error {
        CompactError::InvalidRequest(_) => true,
        _ => false,
    };
    has_fallback && invalid
}

/// What comes of a fallback: its result, or else the first error.
pub fn fallback_result<T>(first: CompactError, second: Result<T, CompactError>) -> (r: Result<
    T,
    CompactError,
>)
    ensures
        match second {
            Ok(done) => r == Ok::<T, CompactError>(done),
            Err(_) => r == Err::<T, CompactError>(first),
        },
{
    match second {
        Ok(done) => Ok(done),
        Err(_) => Err(first),
    }
}

// -- laws -------------------------------------------------------------------------------------

/// A compaction over a transcript that succeeds ends with the exact tail, item for item, and a
/// failure over an unusable summary or an unfit replacement always has its reason.
pub proof fn law_transcript_compaction_keeps_the_exact_tail<M: SessionModel>(
    model: M,
    task: TranscriptTaskView,
    output: ItemView,
    usage: Option<TokenUsage>,
    injection: InitialContextInjection,
)
    ensures
        match transcript_outcome(
            model,
            task,
            Ok::<(ItemView, Option<TokenUsage>), CompactErrorView>((output, usage)),
            injection,
        ) {
            Ok((items, _)) => ends_with_items(items, task.prepared.plan.hot_suffix),
            Err(failure) => failure.reason is Some,
        },
{
}

/// What is sent as a transcript holds messages only: no call, output or id of the history.
pub proof fn law_transcript_request_is_clean<M: SessionModel>(
    model: M,
    history: Seq<ItemView>,
    context: Seq<ItemView>,
    base_instructions: Seq<char>,
    task: CompactionTask,
    details: CompactionAnalyticsDetails,
)
    ensures
        match transcript_begin(model, history, context, base_instructions, task, details) {
            TranscriptBeginView::Ready(begun) => all_clean(
                model,
                begun.items,
                item_limit(begun.prepared.plan.diagnostics.max_model_visible_item_tokens),
            ),
            _ => true,
        },
{
    match prepared_plan(
        model,
        source_items(model, history, task),
        context,
        base_instructions,
        prepare_input(model, history, task),
    ) {
        Ok(Some(prepared)) => {
            law_transcript_is_clean(
                model,
                prepared.plan.cold_history,
                prepared.plan.diagnostics.max_model_visible_item_tokens,
            );
        },
        _ => {},
    }
}

} // verus!
