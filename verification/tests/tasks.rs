use codex_core::compact::InitialContextInjection;
use codex_core::exact_tail::{
    AutoCompactTokenLimitScope, CompactExactTailStrategy, CompactionConfig, CompactionTrigger,
    ExactTailFailReason, ExactTailImplementation,
};
use codex_core::item::{FunctionCallOutputPayload, ItemBody, ResponseItem};
use codex_core::marker_model::{MarkerModel, MarkerPair};
use codex_core::session_model::{InputModality, SessionModel};
use codex_core::stream::{
    drain_closed_error, drain_event, CompactError, DrainAction, LocalCompactionDrainMode,
    RemoteCompactionV2Output, ResponseEvent, TokenUsage,
};
use codex_core::task::{
    check_compaction_request, compaction_status_from_result, finish_task,
    remote_task_reports_error, CompactionStatus, CompactionTask, PlanContext,
};
use codex_core::task_local::{begin_local_compaction, LocalBegin, LocalNext, LocalTask};
use codex_core::task_remote::{
    after_failed_request, begin_remote_legacy_compaction, begin_remote_v2_compaction,
    compaction_service_tier, AfterRequestFailure, CompactionAnalyticsDetails, RemoteBegin,
    RemoteTask,
};
use codex_core::task_transcript::{
    begin_transcript_compaction, fallback_result, fallback_wanted, TranscriptBegin,
};

fn pair(start: &str, end: &str) -> MarkerPair {
    MarkerPair { start: start.to_string(), end: end.to_string() }
}

fn model() -> MarkerModel {
    MarkerModel {
        developer_markers: vec![
            pair("<permissions instructions>", ""),
            pair("<token_budget>", ""),
            pair("<apps_instructions>", ""),
            pair("<plugins_instructions>", ""),
        ],
        user_markers: vec![pair("<skill>", "</skill>")],
        environment: pair("<environment_context>", "</environment_context>"),
        instructions: pair("# AGENTS.md instructions for ", "</INSTRUCTIONS>"),
        hook_prompt: pair("<hook_prompt", "</hook_prompt>"),
        delegation: pair("{\"author\":", "}"),
        item_overhead_tokens: 10,
        summary_prefix: "Another language model started to solve this problem.".to_string(),
        code_tool_name: "exec".to_string(),
    }
}

const PREFIX: &str = "Another language model started to solve this problem.";

fn message(role: &str, text: &str) -> ResponseItem {
    ResponseItem::text_message(role, text.to_string())
}

fn compaction(text: &str) -> ResponseItem {
    ResponseItem::new(ItemBody::Compaction { encrypted_content: text.to_string() })
}

fn config(preserve: Option<i64>) -> CompactionConfig {
    CompactionConfig {
        compact_preserve_recent_tokens: preserve,
        tool_output_token_limit: None,
        compact_exact_tail_strategy: CompactExactTailStrategy::Auto,
        remote_compaction_v2: true,
        remote_compaction_v2_explicit: true,
    }
}

fn task(preserve: Option<i64>, implementation: ExactTailImplementation) -> CompactionTask {
    CompactionTask {
        config: config(preserve),
        tool_output_tokens: 10_000,
        trigger: CompactionTrigger::Auto,
        initial_context_injection: InitialContextInjection::DoNotInject,
        model_context_window: Some(200_000),
        model_auto_compact_token_limit: None,
        model_auto_compact_token_limit_scope: AutoCompactTokenLimitScope::Total,
        transcript_retained_tokens: 1_000,
        implementation,
    }
}

fn history() -> Vec<ResponseItem> {
    vec![
        message("user", "old question"),
        message("assistant", "old answer"),
        message("user", "recent question"),
    ]
}

fn local(preserve: Option<i64>) -> LocalTask {
    match begin_local_compaction(
        &model(),
        history(),
        message("user", "Summarise."),
        Vec::new(),
        "base",
        task(preserve, ExactTailImplementation::Local),
    ) {
        LocalBegin::Ready(task) => task,
        other => panic!("expected a task: {other:?}"),
    }
}

#[test]
fn local_task_without_a_plan_sends_the_whole_history() {
    let task = local(None);
    assert!(task.prepared.is_none());
    assert_eq!(task.drain_mode(), LocalCompactionDrainMode::RecordToSession);
    let prompt = task.prompt(&model(), &[InputModality::Text]);
    assert_eq!(prompt.len(), 4);
    assert_eq!(prompt[3], message("user", "Summarise."));
}

#[test]
fn local_task_with_a_plan_sends_the_cold_history() {
    let task = local(Some(1));
    assert_eq!(task.drain_mode(), LocalCompactionDrainMode::BufferOnly);
    let prompt = task.prompt(&model(), &[InputModality::Text]);
    assert_eq!(
        prompt,
        vec![
            message("user", "old question"),
            message("assistant", "old answer"),
            message("user", "Summarise."),
        ]
    );
}

#[test]
fn local_task_without_budget_is_not_planned() {
    let mut wanted = task(Some(1), ExactTailImplementation::Local);
    wanted.model_context_window = None;
    match begin_local_compaction(
        &model(),
        history(),
        message("user", "Summarise."),
        Vec::new(),
        "base",
        wanted,
    ) {
        LocalBegin::Unplanned(error) => {
            assert_eq!(error.reason, ExactTailFailReason::BudgetUnavailable)
        }
        other => panic!("expected no plan: {other:?}"),
    }
}

#[test]
fn local_task_refuses_a_request_that_cannot_fit() {
    let base = "b".repeat(4 * 199_990);
    match begin_local_compaction(
        &model(),
        vec![
            message("user", &"old ".repeat(9_000)),
            message("user", "recent question"),
        ],
        message("user", &"S".repeat(50_000)),
        Vec::new(),
        "base",
        task(Some(1), ExactTailImplementation::Local),
    ) {
        LocalBegin::Refused { prepared, failure } => {
            assert!(prepared.is_some());
            assert_eq!(failure.reason, Some(ExactTailFailReason::ModelVisibleItemTooLarge));
        }
        other => panic!("expected a refusal: {other:?}"),
    }
    // The instructions alone fill the window, so that only the whole request is too large.
    let plan = local(Some(1)).prepared;
    let items = vec![message("user", "old question")];
    let failure =
        check_compaction_request(&model(), &plan, &items, Some(200_000), &base).expect_err("too large");
    assert_eq!(failure.reason, Some(ExactTailFailReason::ColdInputTooLarge));
    assert_eq!(
        failure.error,
        CompactError::Stream(
            "ExactTailColdInputTooLarge: exact-tail compaction request estimates to 200004 tokens, \
             exceeding context window 200000; pruning cold input would lose coverage"
                .to_string()
        )
    );
    assert!(check_compaction_request(&model(), &None, &items, Some(1), &base).is_ok());
}

#[test]
fn failed_local_attempts_are_retried_and_shortened() {
    let mut task = local(None);
    match task.on_failure(&model(), CompactError::Backend("busy".to_string()), 4, 1) {
        LocalNext::AttemptAgain { notice, error } => {
            assert_eq!(notice, "Reconnecting... 1/1");
            assert_eq!(error, CompactError::Backend("busy".to_string()));
        }
        other => panic!("expected another attempt: {other:?}"),
    }
    assert_eq!(task.retries, 1);
    match task.on_failure(&model(), CompactError::ContextWindowExceeded, 4, 1) {
        LocalNext::AttemptShorter => {}
        other => panic!("expected a shorter attempt: {other:?}"),
    }
    assert_eq!(task.retries, 0);
    assert_eq!(task.history.len(), 3);
    assert_eq!(task.history[0], message("assistant", "old answer"));
    match task.on_failure(&model(), CompactError::ContextWindowExceeded, 1, 1) {
        LocalNext::FailWithFullWindow(CompactError::ContextWindowExceeded) => {}
        other => panic!("expected a full window: {other:?}"),
    }
    match task.on_failure(&model(), CompactError::TurnAborted, 3, 1) {
        LocalNext::Stop(CompactError::TurnAborted) => {}
        other => panic!("expected the end: {other:?}"),
    }
    match task.on_failure(&model(), CompactError::Fatal("no".to_string()), 3, 0) {
        LocalNext::Fail(failure) => {
            assert_eq!(failure.error, CompactError::Fatal("no".to_string()));
            assert_eq!(failure.reason, None);
        }
        other => panic!("expected a failure: {other:?}"),
    }
}

#[test]
fn planned_local_attempts_are_never_shortened() {
    let mut task = local(Some(1));
    match task.on_failure(&model(), CompactError::ContextWindowExceeded, 3, 5) {
        LocalNext::Fail(failure) => {
            assert_eq!(failure.reason, Some(ExactTailFailReason::BackendContextExceeded));
            assert_eq!(
                failure.error,
                CompactError::Stream(
                    "ExactTailBackendContextExceeded: exact-tail compaction request exceeded the \
                     backend context window and cannot be pruned without losing cold coverage."
                        .to_string()
                )
            );
        }
        other => panic!("expected a failure: {other:?}"),
    }
    assert_eq!(task.history.len(), 3);
}

#[test]
fn shortening_takes_a_tool_call_off_whole() {
    let call = ResponseItem::new(ItemBody::FunctionCall {
        name: "shell".to_string(),
        namespace: None,
        arguments: "{}".to_string(),
        call_id: "c1".to_string(),
    });
    let output = ResponseItem::new(ItemBody::FunctionCallOutput {
        call_id: "c1".to_string(),
        output: FunctionCallOutputPayload::from_text("done".to_string()),
    });
    let kept = message("user", "between");
    assert_eq!(
        model().without_first(vec![call, kept.clone(), output]),
        vec![kept]
    );
}

#[test]
fn local_compaction_with_a_plan_keeps_the_exact_tail() {
    let task = local(Some(1));
    let done = task
        .on_completed(
            &model(),
            &vec![message("assistant", "the summary")],
            &Vec::new(),
            Vec::new(),
            InitialContextInjection::DoNotInject,
            Some("{\"turn_id\":\"t1\"}".to_string()),
        )
        .expect("the replacement fits");
    assert_eq!(done.summary_suffix, "the summary");
    assert_eq!(done.summary_text, format!("{PREFIX}\nthe summary"));
    let mut summary = message("user", &format!("{PREFIX}\nthe summary"));
    summary.metadata = Some("{\"turn_id\":\"t1\"}".to_string());
    assert_eq!(
        done.new_history,
        vec![
            message("user", "old question"),
            summary,
            message("user", "recent question"),
        ]
    );
    assert!(done.replacement.expect("numbers").hot_suffix_exact_match);

    let blank = task
        .on_completed(
            &model(),
            &vec![message("assistant", "  ")],
            &Vec::new(),
            Vec::new(),
            InitialContextInjection::DoNotInject,
            None,
        )
        .expect_err("a blank summary is none");
    assert_eq!(blank.reason, Some(ExactTailFailReason::NoUsableColdSummary));
    assert_eq!(
        blank.error,
        CompactError::ExactTailCompactionFailed(
            "ExactTailNoUsableColdSummary: Exact-tail compaction returned no usable cold summary \
             for the cold prefix."
                .to_string()
        )
    );
}

#[test]
fn local_compaction_without_a_plan_brings_the_context_back() {
    let task = local(None);
    let context = message("developer", "current context");
    let mut session = history();
    session.push(message("assistant", "said last"));
    let done = task
        .on_completed(
            &model(),
            &Vec::new(),
            &session,
            vec![context.clone()],
            InitialContextInjection::BeforeLastUserMessage,
            None,
        )
        .expect("there is nothing to check");
    assert_eq!(
        done.new_history,
        vec![
            message("user", "old question"),
            context,
            message("user", "recent question"),
            message("user", &format!("{PREFIX}\nsaid last")),
        ]
    );
    assert_eq!(done.replacement, None);
}

#[test]
fn the_context_is_built_only_where_it_is_needed() {
    let mut planned = task(Some(1_000), ExactTailImplementation::RemoteV2);
    assert_eq!(planned.plan_context(), PlanContext::Measured);
    planned.initial_context_injection = InitialContextInjection::BeforeLastUserMessage;
    assert_eq!(planned.plan_context(), PlanContext::Injected);

    for preserve in [None, Some(0), Some(-1)] {
        let mut unplanned = task(preserve, ExactTailImplementation::Local);
        assert_eq!(unplanned.plan_context(), PlanContext::Unneeded);
        unplanned.initial_context_injection = InitialContextInjection::BeforeLastUserMessage;
        assert_eq!(unplanned.plan_context(), PlanContext::Unneeded);
    }

    let without_plan = local(None);
    assert!(without_plan.takes_context(InitialContextInjection::BeforeLastUserMessage));
    assert!(!without_plan.takes_context(InitialContextInjection::DoNotInject));
    let with_plan = local(Some(1));
    assert!(with_plan.prepared.is_some());
    assert!(!with_plan.takes_context(InitialContextInjection::BeforeLastUserMessage));
    assert!(!with_plan.takes_context(InitialContextInjection::DoNotInject));
}

fn details() -> CompactionAnalyticsDetails {
    CompactionAnalyticsDetails {
        active_context_tokens_before: Some(1_000),
        ..CompactionAnalyticsDetails::default()
    }
}

fn remote(preserve: Option<i64>) -> RemoteTask {
    match begin_remote_v2_compaction(
        &model(),
        history(),
        Vec::new(),
        "base",
        task(preserve, ExactTailImplementation::RemoteV2),
        details(),
    ) {
        RemoteBegin::Ready(task) => task,
        other => panic!("expected a task: {other:?}"),
    }
}

fn reply(text: &str) -> Result<RemoteCompactionV2Output, CompactError> {
    Ok(RemoteCompactionV2Output {
        compaction_output: compaction(text),
        token_usage: Some(TokenUsage {
            input_tokens: 70,
            cached_input_tokens: 60,
            output_tokens: 50,
            reasoning_output_tokens: 40,
            total_tokens: 120,
        }),
    })
}

#[test]
fn remote_task_with_a_plan_keeps_the_exact_tail() {
    let mut task = remote(Some(1));
    let request = task.request(&model(), &[InputModality::Text], "t1");
    assert_eq!(
        request.prompt_input,
        vec![message("user", "old question"), message("assistant", "old answer")]
    );
    assert_eq!(request.input.len(), 3);
    assert_eq!(request.input[2].body, ItemBody::CompactionTrigger);
    assert_eq!(
        request.isolated_cache_key.as_deref(),
        Some("exact-tail-v2-compaction:t1")
    );
    let done = task
        .on_reply(
            &model(),
            reply("summary"),
            &request.prompt_input,
            InitialContextInjection::DoNotInject,
        )
        .expect("the replacement fits");
    assert_eq!(
        done.new_history,
        vec![
            message("user", "old question"),
            compaction("summary"),
            message("user", "recent question"),
        ]
    );
    assert_eq!(task.details.active_context_tokens_before, Some(1_000));
    assert_eq!(task.details.compaction_summary_tokens, Some(50));
    assert_eq!(task.details.cached_input_tokens, Some(60));
    assert_eq!(task.details.retained_image_count, Some(0));

    let mut again = remote(Some(1));
    let failure = again
        .on_reply(
            &model(),
            reply(" "),
            &request.prompt_input,
            InitialContextInjection::DoNotInject,
        )
        .expect_err("a blank summary is none");
    assert_eq!(failure.reason, Some(ExactTailFailReason::NoUsableColdSummary));
    assert_eq!(again.details.retained_image_count, None);
    let failure = again
        .on_reply(
            &model(),
            Err(CompactError::ContextWindowExceeded),
            &request.prompt_input,
            InitialContextInjection::DoNotInject,
        )
        .expect_err("too large");
    assert_eq!(failure.reason, Some(ExactTailFailReason::BackendContextExceeded));
}

#[test]
fn remote_task_without_a_plan_uses_what_the_request_cost() {
    let mut task = remote(None);
    task.on_trimmed(history(), 500, 300);
    assert_eq!(task.details.active_context_tokens_before, Some(700));
    let request = task.request(&model(), &[InputModality::Text], "t1");
    assert_eq!(request.isolated_cache_key, None);
    let done = task
        .on_reply(
            &model(),
            reply("summary"),
            &request.prompt_input,
            InitialContextInjection::DoNotInject,
        )
        .expect("nothing is checked");
    assert_eq!(
        done.new_history,
        vec![
            message("user", "old question"),
            message("user", "recent question"),
            compaction("summary"),
        ]
    );
    assert_eq!(task.details.active_context_tokens_before, Some(70));
    let failure = task
        .on_reply(
            &model(),
            Err(CompactError::ContextWindowExceeded),
            &request.prompt_input,
            InitialContextInjection::DoNotInject,
        )
        .expect_err("too large");
    assert_eq!(failure.error, CompactError::ContextWindowExceeded);
    assert_eq!(failure.reason, None);
}

#[test]
fn legacy_task_hands_the_history_on() {
    let begun = begin_remote_legacy_compaction(
        &model(),
        history(),
        Vec::new(),
        "base",
        task(Some(1), ExactTailImplementation::RemoteLegacy),
        &[InputModality::Text],
        details(),
    );
    let RemoteBegin::Ready(task) = begun else {
        panic!("expected a task: {begun:?}");
    };
    assert_eq!(
        task.legacy_prompt(&model(), &[InputModality::Text]),
        vec![message("user", "old question"), message("assistant", "old answer")]
    );
    assert_eq!(
        task.on_legacy_reply(Ok(history())).expect("as it is"),
        history()
    );
    let failure = task
        .on_legacy_reply(Err(CompactError::ContextWindowExceeded))
        .expect_err("too large");
    assert_eq!(failure.reason, Some(ExactTailFailReason::BackendContextExceeded));
}

#[test]
fn requests_are_repeated_within_both_limits() {
    assert_eq!(after_failed_request(false, 5), AfterRequestFailure::Fail);
    assert_eq!(
        after_failed_request(true, 5),
        AfterRequestFailure::RetryUpTo { max_retries: 2 }
    );
    assert_eq!(
        after_failed_request(true, 1),
        AfterRequestFailure::RetryUpTo { max_retries: 1 }
    );
    assert_eq!(compaction_service_tier(true, Some("fast".to_string())), None);
    assert_eq!(
        compaction_service_tier(false, Some("fast".to_string())).as_deref(),
        Some("fast")
    );
}

#[test]
fn transcript_task_retains_messages_beside_the_summary() {
    let begun = begin_transcript_compaction(
        &model(),
        history(),
        Vec::new(),
        "base",
        task(Some(1), ExactTailImplementation::SemanticTranscript),
        details(),
    );
    let TranscriptBegin::Ready(mut task) = begun else {
        panic!("expected a task: {begun:?}");
    };
    assert_eq!(task.items.len(), 2);
    assert_eq!(task.retained_messages, vec![message("user", "old question")]);
    let numbers = task.prepared.plan.diagnostics;
    assert_eq!(numbers.semantic_transcript_item_count, Some(2));
    assert_eq!(numbers.semantic_transcript_tool_observation_count, Some(0));
    assert_eq!(numbers.retained_cold_message_count, Some(1));
    let request = task.request(&model(), &[InputModality::Text], "t1");
    assert_eq!(
        request.isolated_cache_key.as_deref(),
        Some("semantic-transcript-v2-compaction:t1")
    );
    let done = task
        .on_reply(&model(), reply("summary"), InitialContextInjection::DoNotInject)
        .expect("the replacement fits");
    assert_eq!(
        done.replacement_history,
        vec![
            message("user", "old question"),
            compaction("summary"),
            message("user", "recent question"),
        ]
    );
    // The item takes ten tokens beside the two of its text.
    assert_eq!(task.details.compaction_summary_tokens, Some(12));
    assert_eq!(task.prepared.plan.diagnostics.actual_summary_tokens, Some(12));
    assert!(task
        .prepared
        .plan
        .diagnostics
        .attempted_replacement_tokens_estimate
        .is_some());
    let failure = task
        .on_reply(&model(), reply(" "), InitialContextInjection::DoNotInject)
        .expect_err("a blank summary is none");
    assert_eq!(failure.reason, Some(ExactTailFailReason::NoUsableColdSummary));
    let failure = task
        .on_reply(
            &model(),
            Err(CompactError::ContextWindowExceeded),
            InitialContextInjection::DoNotInject,
        )
        .expect_err("too large");
    assert_eq!(failure.reason, Some(ExactTailFailReason::BackendContextExceeded));
}

#[test]
fn transcript_task_needs_a_plan() {
    match begin_transcript_compaction(
        &model(),
        history(),
        Vec::new(),
        "base",
        task(None, ExactTailImplementation::SemanticTranscript),
        details(),
    ) {
        TranscriptBegin::Failed { prepared, failure, .. } => {
            assert!(prepared.is_none());
            assert_eq!(
                failure.error,
                CompactError::Stream(
                    "Semantic transcript compaction requires active exact-tail configuration."
                        .to_string()
                )
            );
        }
        other => panic!("expected a failure: {other:?}"),
    }
}

#[test]
fn fallback_is_for_invalid_requests() {
    let invalid = CompactError::InvalidRequest("no such model".to_string());
    assert!(fallback_wanted(&invalid, true));
    assert!(!fallback_wanted(&invalid, false));
    assert!(!fallback_wanted(&CompactError::Interrupted, true));
    assert_eq!(fallback_result(invalid, Ok(1)), Ok(1));
    assert_eq!(
        fallback_result::<u8>(CompactError::Interrupted, Err(CompactError::TurnAborted)),
        Err(CompactError::Interrupted)
    );
}

#[test]
fn tasks_end_with_a_status() {
    let aborted: Result<(), CompactError> = Err(CompactError::TurnAborted);
    assert_eq!(compaction_status_from_result(&aborted), CompactionStatus::Interrupted);
    assert_eq!(
        compaction_status_from_result::<()>(&Err(CompactError::Interrupted)),
        CompactionStatus::Interrupted
    );
    assert_eq!(
        compaction_status_from_result::<()>(&Err(CompactError::Fatal("x".to_string()))),
        CompactionStatus::Failed
    );
    assert_eq!(compaction_status_from_result(&Ok(())), CompactionStatus::Completed);
    assert_eq!(finish_task(Ok(()), true), Err(CompactError::TurnAborted));
    assert_eq!(finish_task(Ok(3), false), Ok(()));
    assert_eq!(
        finish_task::<()>(Err(CompactError::Interrupted), true),
        Err(CompactError::Interrupted)
    );
    assert!(!remote_task_reports_error(
        ExactTailImplementation::RemoteV2,
        &CompactError::TurnAborted
    ));
    assert!(remote_task_reports_error(
        ExactTailImplementation::SemanticTranscript,
        &CompactError::TurnAborted
    ));
    assert!(remote_task_reports_error(
        ExactTailImplementation::RemoteV2,
        &CompactError::Interrupted
    ));
}

#[test]
fn drained_events_go_where_they_belong() {
    let mut buffer = Vec::new();
    let item = message("assistant", "text");
    match drain_event(
        ResponseEvent::OutputItemDone(item.clone()),
        LocalCompactionDrainMode::RecordToSession,
        &mut buffer,
    ) {
        DrainAction::Record(recorded) => assert_eq!(recorded, item),
        other => panic!("expected a record: {other:?}"),
    }
    assert!(buffer.is_empty());
    match drain_event(
        ResponseEvent::OutputItemDone(item.clone()),
        LocalCompactionDrainMode::BufferOnly,
        &mut buffer,
    ) {
        DrainAction::Continue => assert_eq!(buffer, vec![item]),
        other => panic!("expected nothing: {other:?}"),
    }
    assert!(matches!(
        drain_event(
            ResponseEvent::Completed { token_usage: None },
            LocalCompactionDrainMode::BufferOnly,
            &mut buffer,
        ),
        DrainAction::Complete(None)
    ));
    assert!(matches!(
        drain_event(
            ResponseEvent::ServerReasoningIncluded(true),
            LocalCompactionDrainMode::BufferOnly,
            &mut buffer,
        ),
        DrainAction::SetServerReasoningIncluded(true)
    ));
    assert_eq!(
        drain_closed_error(),
        CompactError::Stream("stream closed before response.completed".to_string())
    );
}
