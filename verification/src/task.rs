//! What every compaction does around its calls to the model: what is summarised, whether it can be
//! sent, and what a failure leads to.

use crate::compact::InitialContextInjection;
use crate::exact_tail::{
    backend_context_exceeded, cold_input_too_large, exact_tail_backend_context_exceeded_error,
    exact_tail_cold_input_too_large_error, policy_of,
    remote_legacy_summary_scaffold_overhead_tokens, reported, AutoCompactTokenLimitScope,
    CompactionConfig, CompactionHistoryPolicy, CompactionTrigger, ErrorView, ExactTailError,
    ExactTailFailReason, ExactTailImplementation,
    EXACT_TAIL_LOCAL_RETAINED_COLD_USER_MESSAGE_BUDGET_TOKENS,
};
use crate::exact_tail_plan::{ExactTailDiagnostics, ExactTailPlan};
use crate::exact_tail_replacement::{
    changed_count, check_cold_input_fits, cold_input_failure, local_scaffold,
    local_summary_scaffold_overhead_tokens, normalize_tool_outputs_for_exact_tail_policy,
    normalized_items, prepare_exact_tail_plan, prepared_plan, ExactTailPrepareInput,
    PreparedExactTailPlan, PreparedView,
};
use crate::item::{clone_items, item_views, ItemView, ResponseItem};
use crate::retention::REMOTE_COMPACTION_V2_RETAINED_MESSAGE_TOKEN_BUDGET;
use crate::session_model::SessionModel;
use crate::stream::{CompactError, CompactErrorView};
use vstd::prelude::*;
use vstd::string::*;

verus! {

// ---------------------------------------------------------------------------------------------
// Failures.
// ---------------------------------------------------------------------------------------------

/// A failed compaction: the error of the task, and the reason that goes into the report where a
/// plan had been made.
#[derive(Debug)]
pub struct CompactFailure {
    pub error: CompactError,
    pub reason: Option<ExactTailFailReason>,
}

pub struct FailureView {
    pub error: CompactErrorView,
    pub reason: Option<ExactTailFailReason>,
}

impl View for CompactFailure {
    type V = FailureView;

    open spec fn view(&self) -> FailureView {
        FailureView { error: self.error@, reason: self.reason }
    }
}

/// An exact tail that cannot be kept fails the task, with the message that names the reason.
pub open spec fn exact_tail_failure(error: ErrorView) -> FailureView {
    FailureView {
        error: CompactErrorView::ExactTailCompactionFailed(reported(error)),
        reason: Some(error.reason),
    }
}

pub fn fail_exact_tail(error: ExactTailError) -> (failure: CompactFailure)
    ensures
        failure@ == exact_tail_failure(error@),
{
    let reason = error.reason;
    CompactFailure {
        error: CompactError::ExactTailCompactionFailed(error.into_message()),
        reason: Some(reason),
    }
}

/// What becomes of an error of the service: with an exact tail a request that was too large cannot
/// be made smaller, so it fails for good.
pub open spec fn service_failure(error: CompactErrorView, has_plan: bool) -> FailureView {
    if error is ContextWindowExceeded && has_plan {
        FailureView {
            error: CompactErrorView::Stream(backend_context_exceeded()),
            reason: Some(ExactTailFailReason::BackendContextExceeded),
        }
    } else {
        FailureView { error, reason: None }
    }
}

pub fn backend_failure(error: CompactError, has_plan: bool) -> (failure: CompactFailure)
    ensures
        failure@ == service_failure(error@, has_plan),
{
    let exceeded = match &error {
        CompactError::ContextWindowExceeded => true,
        _ => false,
    };
    if exceeded && has_plan {
        CompactFailure {
            error: CompactError::Stream(exact_tail_backend_context_exceeded_error()),
            reason: Some(ExactTailFailReason::BackendContextExceeded),
        }
    } else {
        CompactFailure { error, reason: None }
    }
}

/// How a task ended.
#[derive(Clone, Copy, Debug, Eq, PartialEq, Structural)]
pub enum CompactionStatus {
    Completed,
    Interrupted,
    Failed,
}

pub open spec fn status_of(error: Option<CompactErrorView>) -> CompactionStatus {
    match error {
        None => CompactionStatus::Completed,
        Some(CompactErrorView::Interrupted) => CompactionStatus::Interrupted,
        Some(CompactErrorView::TurnAborted) => CompactionStatus::Interrupted,
        Some(_) => CompactionStatus::Failed,
    }
}

pub fn compaction_status_from_result<T>(result: &Result<T, CompactError>) -> (status:
    CompactionStatus)
    ensures
        status == status_of(
            match *result {
                Ok(_) => None,
                Err(error) => Some(error@),
            },
        ),
{
    match result {
        Ok(_) => CompactionStatus::Completed,
        Err(CompactError::Interrupted) => CompactionStatus::Interrupted,
        Err(CompactError::TurnAborted) => CompactionStatus::Interrupted,
        Err(_) => CompactionStatus::Failed,
    }
}

/// The end of a task: a hook that stops a successful task aborts the turn.
pub fn finish_task<T>(result: Result<T, CompactError>, stopped_by_post_hook: bool) -> (r: Result<
    (),
    CompactError,
>)
    ensures
        match result {
            Err(error) => r == Err::<(), CompactError>(error),
            Ok(_) => if stopped_by_post_hook {
                r is Err && r->Err_0@ == CompactErrorView::TurnAborted
            } else {
                r is Ok
            },
        },
{
    match result {
        Err(error) => Err(error),
        Ok(_) => if stopped_by_post_hook {
            Err(CompactError::TurnAborted)
        } else {
            Ok(())
        },
    }
}

/// Whether the failure of a remote task is shown to the user: an aborted turn is not, except where
/// a transcript was summarised.
pub fn remote_task_reports_error(
    implementation: ExactTailImplementation,
    error: &CompactError,
) -> (r: bool)
    ensures
        r == (implementation == ExactTailImplementation::SemanticTranscript || !(error@
            is TurnAborted)),
{
    let aborted = match error {
        CompactError::TurnAborted => true,
        _ => false,
    };
    implementation == ExactTailImplementation::SemanticTranscript || !aborted
}

// ---------------------------------------------------------------------------------------------
// The start.
// ---------------------------------------------------------------------------------------------

/// What a compaction depends on, beside the history and the current context.
#[derive(Clone, Copy, Debug, PartialEq, Eq, Structural)]
pub struct CompactionTask {
    pub config: CompactionConfig,
    /// The tokens that the body of a tool output may take.
    pub tool_output_tokens: usize,
    pub trigger: CompactionTrigger,
    pub initial_context_injection: InitialContextInjection,
    pub model_context_window: Option<i64>,
    pub model_auto_compact_token_limit: Option<i64>,
    pub model_auto_compact_token_limit_scope: AutoCompactTokenLimitScope,
    /// The tokens of messages that stay beside a summarised transcript.
    pub transcript_retained_tokens: i64,
    pub implementation: ExactTailImplementation,
}

/// The history as it is planned over.
pub open spec fn source_items<M: SessionModel>(
    model: M,
    history: Seq<ItemView>,
    task: CompactionTask,
) -> Seq<ItemView> {
    match policy_of(task.config) {
        CompactionHistoryPolicy::Standard => history,
        CompactionHistoryPolicy::PreserveRecentExact { .. } => normalized_items(
            model,
            history,
            task.tool_output_tokens as nat,
        ),
    }
}

/// What the plan has to know: each implementation sets its own reserves aside.
pub open spec fn prepare_input<M: SessionModel>(
    model: M,
    history: Seq<ItemView>,
    task: CompactionTask,
) -> ExactTailPrepareInput {
    ExactTailPrepareInput {
        policy: policy_of(task.config),
        trigger: task.trigger,
        initial_context_injection: task.initial_context_injection,
        model_context_window: task.model_context_window,
        model_auto_compact_token_limit: task.model_auto_compact_token_limit,
        model_auto_compact_token_limit_scope: task.model_auto_compact_token_limit_scope,
        estimated_summary_scaffold_overhead_tokens: match task.implementation {
            ExactTailImplementation::Local => local_scaffold(model),
            ExactTailImplementation::RemoteLegacy => 0,
            ExactTailImplementation::RemoteV2 => 0,
            ExactTailImplementation::SemanticTranscript => 0,
        },
        retained_cold_user_message_budget_tokens: match task.implementation {
            ExactTailImplementation::Local =>
                EXACT_TAIL_LOCAL_RETAINED_COLD_USER_MESSAGE_BUDGET_TOKENS,
            ExactTailImplementation::RemoteLegacy => 0,
            ExactTailImplementation::RemoteV2 => REMOTE_COMPACTION_V2_RETAINED_MESSAGE_TOKEN_BUDGET as i64,
            ExactTailImplementation::SemanticTranscript => task.transcript_retained_tokens,
        },
        normalized_tool_output_count: match policy_of(task.config) {
            CompactionHistoryPolicy::Standard => 0,
            CompactionHistoryPolicy::PreserveRecentExact { .. } => changed_count(
                model,
                history,
                task.tool_output_tokens as nat,
            ) as usize,
        },
        implementation: task.implementation,
    }
}

/// How the current context is had before a plan is made.
#[derive(Clone, Copy, Debug, PartialEq, Eq, Structural)]
pub enum PlanContext {
    /// No plan is made, and no context is built.
    Unneeded,
    /// The context is measured, and building it leaves no trace in the session.
    Measured,
    /// The context is measured and becomes part of the replacement.
    Injected,
}

/// Only a plan asks for the context; it is built for good where the replacement carries it.
pub open spec fn context_for_plan(task: CompactionTask) -> PlanContext {
    match policy_of(task.config) {
        CompactionHistoryPolicy::Standard => PlanContext::Unneeded,
        CompactionHistoryPolicy::PreserveRecentExact { .. } => match task.initial_context_injection {
            InitialContextInjection::BeforeLastUserMessage => PlanContext::Injected,
            InitialContextInjection::DoNotInject => PlanContext::Measured,
        },
    }
}

impl CompactionTask {
    pub fn plan_context(&self) -> (r: PlanContext)
        ensures
            r == context_for_plan(*self),
    {
        match CompactionHistoryPolicy::from_config(&self.config) {
            CompactionHistoryPolicy::Standard => PlanContext::Unneeded,
            CompactionHistoryPolicy::PreserveRecentExact { .. } =>
                match self.initial_context_injection {
                    InitialContextInjection::BeforeLastUserMessage => PlanContext::Injected,
                    InitialContextInjection::DoNotInject => PlanContext::Measured,
                },
        }
    }
}

/// Where no context is needed, preparing comes to the same with any; where it is only measured,
/// none of it is kept for the replacement.
pub proof fn law_plan_takes_only_the_context_it_needs<M: SessionModel>(
    model: M,
    history: Seq<ItemView>,
    context: Seq<ItemView>,
    other: Seq<ItemView>,
    base_instructions: Seq<char>,
    task: CompactionTask,
)
    ensures
        ({
            let source = source_items(model, history, task);
            let input = prepare_input(model, history, task);
            let outcome = prepared_plan(model, source, context, base_instructions, input);
            &&& context_for_plan(task) == PlanContext::Unneeded ==> outcome == prepared_plan(
                model,
                source,
                other,
                base_instructions,
                input,
            )
            &&& outcome matches Ok(Some(prepared)) ==> prepared.initial_context == if context_for_plan(
                task,
            ) == PlanContext::Injected {
                context
            } else {
                Seq::empty()
            }
        }),
{
}

/// What goes to the summariser, and the plan where there is one.
#[derive(Debug)]
pub struct StartedCompaction {
    pub history: Vec<ResponseItem>,
    pub prepared: Option<PreparedExactTailPlan>,
}

pub open spec fn prepared_view(prepared: Option<PreparedExactTailPlan>) -> Option<PreparedView> {
    match prepared {
        Some(prepared) => Some(prepared@),
        None => None,
    }
}

/// With a plan its cold part is summarised, else the whole history.
pub open spec fn summarised(source: Seq<ItemView>, prepared: Option<PreparedView>) -> Seq<ItemView> {
    match prepared {
        Some(prepared) => prepared.plan.cold_history,
        None => source,
    }
}

/// Starts a compaction: the tool outputs are cut to size, the plan is made, and the part of the
/// history that is summarised is set apart.
pub fn start_compaction<M: SessionModel>(
    model: &M,
    history: Vec<ResponseItem>,
    current_context: Vec<ResponseItem>,
    base_instructions: &str,
    task: CompactionTask,
) -> (r: Result<StartedCompaction, ExactTailError>)
    ensures
        ({
            let source = source_items(*model, item_views(history@), task);
            let outcome = prepared_plan(
                *model,
                source,
                item_views(current_context@),
                base_instructions@,
                prepare_input(*model, item_views(history@), task),
            );
            match r {
                Ok(started) => outcome == Ok::<Option<PreparedView>, ErrorView>(
                    prepared_view(started.prepared),
                ) && item_views(started.history@) == summarised(
                    source,
                    prepared_view(started.prepared),
                ),
                Err(error) => outcome == Err::<Option<PreparedView>, ErrorView>(error@),
            }
        }),
{
    let policy = CompactionHistoryPolicy::from_config(&task.config);
    let mut source = history;
    let normalized: usize = normalize_tool_outputs_for_exact_tail_policy(
        model,
        &mut source,
        policy,
        task.tool_output_tokens,
    );
    let scaffold: i64 = match task.implementation {
        ExactTailImplementation::Local => local_summary_scaffold_overhead_tokens(model),
        ExactTailImplementation::RemoteLegacy => remote_legacy_summary_scaffold_overhead_tokens(),
        ExactTailImplementation::RemoteV2 => 0,
        ExactTailImplementation::SemanticTranscript => 0,
    };
    let retained: i64 = match task.implementation {
        ExactTailImplementation::Local => EXACT_TAIL_LOCAL_RETAINED_COLD_USER_MESSAGE_BUDGET_TOKENS,
        ExactTailImplementation::RemoteLegacy => 0,
        ExactTailImplementation::RemoteV2 => REMOTE_COMPACTION_V2_RETAINED_MESSAGE_TOKEN_BUDGET as i64,
        ExactTailImplementation::SemanticTranscript => task.transcript_retained_tokens,
    };
    let input = ExactTailPrepareInput {
        policy,
        trigger: task.trigger,
        initial_context_injection: task.initial_context_injection,
        model_context_window: task.model_context_window,
        model_auto_compact_token_limit: task.model_auto_compact_token_limit,
        model_auto_compact_token_limit_scope: task.model_auto_compact_token_limit_scope,
        estimated_summary_scaffold_overhead_tokens: scaffold,
        retained_cold_user_message_budget_tokens: retained,
        normalized_tool_output_count: normalized,
        implementation: task.implementation,
    };
    match prepare_exact_tail_plan(
        model,
        source.as_slice(),
        current_context,
        base_instructions,
        input,
    ) {
        Err(error) => Err(error),
        Ok(Some(prepared)) => {
            let cold = clone_items(prepared.plan.cold_history.as_slice());
            Ok(StartedCompaction { history: cold, prepared: Some(prepared) })
        },
        Ok(None) => Ok(StartedCompaction { history: source, prepared: None }),
    }
}

/// Why what goes to the summariser cannot be sent; without a plan it is sent in any case.
pub open spec fn request_failure<M: SessionModel>(
    model: M,
    diagnostics: Option<ExactTailDiagnostics>,
    items: Seq<ItemView>,
    context_window: Option<i64>,
    base_instructions: Seq<char>,
) -> Option<FailureView> {
    match diagnostics {
        None => None,
        Some(diagnostics) => match cold_input_failure(model, diagnostics, items, context_window) {
            Some(error) => Some(exact_tail_failure(error)),
            None => match (context_window, model.spec_request_tokens(items, base_instructions)) {
                (Some(window), Some(tokens)) => if tokens > window {
                    Some(
                        FailureView {
                            error: CompactErrorView::Stream(cold_input_too_large(tokens, window)),
                            reason: Some(ExactTailFailReason::ColdInputTooLarge),
                        },
                    )
                } else {
                    None
                },
                _ => None,
            },
        },
    }
}

pub open spec fn diagnostics_of(prepared: Option<PreparedView>) -> Option<ExactTailDiagnostics> {
    match prepared {
        Some(prepared) => Some(prepared.plan.diagnostics),
        None => None,
    }
}

/// Checks what goes to the summariser under a plan, alone and with the base instructions.
pub fn check_plan_request<M: SessionModel>(
    model: &M,
    plan: &ExactTailPlan,
    items: &Vec<ResponseItem>,
    context_window: Option<i64>,
    base_instructions: &str,
) -> (r: Result<(), CompactFailure>)
    ensures
        ({
            let failure = request_failure(
                *model,
                Some(plan.diagnostics),
                item_views(items@),
                context_window,
                base_instructions@,
            );
            match r {
                Ok(_) => failure is None,
                Err(error) => failure == Some(error@),
            }
        }),
{
    if let Err(error) = check_cold_input_fits(model, plan, items.as_slice(), context_window) {
        return Err(fail_exact_tail(error));
    }
    let tokens = model.request_tokens(items, base_instructions);
    match (context_window, tokens) {
        (Some(window), Some(tokens)) => if tokens > window {
            Err(
                CompactFailure {
                    error: CompactError::Stream(
                        exact_tail_cold_input_too_large_error(tokens, window),
                    ),
                    reason: Some(ExactTailFailReason::ColdInputTooLarge),
                },
            )
        } else {
            Ok(())
        },
        _ => Ok(()),
    }
}

/// Checks what goes to the summariser; without a plan it is sent in any case.
pub fn check_compaction_request<M: SessionModel>(
    model: &M,
    prepared: &Option<PreparedExactTailPlan>,
    items: &Vec<ResponseItem>,
    context_window: Option<i64>,
    base_instructions: &str,
) -> (r: Result<(), CompactFailure>)
    ensures
        ({
            let failure = request_failure(
                *model,
                diagnostics_of(prepared_view(*prepared)),
                item_views(items@),
                context_window,
                base_instructions@,
            );
            match r {
                Ok(_) => failure is None,
                Err(error) => failure == Some(error@),
            }
        }),
{
    match prepared {
        None => Ok(()),
        Some(prepared) => check_plan_request(
            model,
            &prepared.plan,
            items,
            context_window,
            base_instructions,
        ),
    }
}

} // verus!
