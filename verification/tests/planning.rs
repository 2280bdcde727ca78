use codex_core::boundary::{floor_char_boundary, next_char_boundary};
use codex_core::compact::{
    build_compacted_history, build_compacted_history_with_limit, collect_user_messages,
    content_items_to_text, insert_initial_context_before_last_real_user_or_summary,
    CompactedUserMessage,
};
use codex_core::exact_tail::{
    exact_tail_replacement_budget, max_model_visible_item_tokens, model_visible_item_label,
    model_visible_tool_output_item_token_limit,
    model_visible_tool_output_item_token_limit_for_policy, AutoCompactTokenLimitScope,
    CompactExactTailStrategy, CompactionConfig, CompactionHistoryPolicy, CompactionTrigger,
    ExactTailError, ExactTailFailReason, ExactTailImplementation,
};
use codex_core::exact_tail_diagnostics::{
    exact_tail_compaction_diagnostic, exact_tail_prepare_failure_diagnostic,
    ExactTailCompactionFitResult, ExactTailReportIds,
};
use codex_core::exact_tail_plan::{plan_exact_tail, ExactTailPlanInput};
use codex_core::exact_tail_replacement::ExactTailReplacementDiagnostics;
use codex_core::fragments::{escape_xml, ContextualUserFragment, ExactTailToolSurfaceNotice};
use codex_core::item::{
    AgentContent, ContentItem, FunctionCallOutputPayload, ItemBody, LocalShellExecAction, ResponseItem, WebSearchAction,
};
use codex_core::marker_model::{MarkerModel, MarkerPair};
use codex_core::projection_basis::projection_basis_fingerprint;
use codex_core::rolling::RollingPromptError;
use codex_core::rolling_pairwise::{
    default_protected_hot_exact_tokens, PairwiseRollingPromptParams, RollingPromptBuildOutcome,
};
use codex_core::rolling_projection::shrink_token_budget;
use codex_core::rolling_prompt::{
    build_rolling_prompt, build_rolling_prompt_with_live_summaries, RollingPromptParams,
};
use codex_core::rolling_state::{
    apply_target_scale, reset_or_clamp_state, rolling_target_tokens, History, RollingPromptState,
};
use codex_core::route::{
    compact_route_for_config, default_compact_route, remote_compaction_v2_explicitly_enabled,
    should_use_remote_compact_task_v2_for_config, CompactRoute, ConfigLayer, ConfigLayerSource,
};
use codex_core::session_model::{InputModality, SessionModel};
use codex_core::stream::CompactError;
use codex_core::summary_tree::{CoverageInterval, PairwiseNode};
use codex_core::text::{is_blank, trim_text};
use codex_core::tokens::{approx_bytes_for_tokens, approx_token_count, truncate_text};

fn pair(start: &str, end: &str) -> MarkerPair {
    MarkerPair { start: start.to_string(), end: end.to_string() }
}

fn model() -> MarkerModel {
    MarkerModel {
        developer_markers: vec![
            pair("<permissions instructions>", ""),
            pair("<token_budget>", ""),
            pair("<apps_instructions>", ""),
            pair("<plugins_instructions>", ""),
        ],
        user_markers: vec![pair("<skill>", "</skill>")],
        environment: pair("<environment_context>", "</environment_context>"),
        instructions: pair("# AGENTS.md instructions for ", "</INSTRUCTIONS>"),
        hook_prompt: pair("<hook_prompt", "</hook_prompt>"),
        delegation: pair("{\"author\":", "}"),
        item_overhead_tokens: 10,
        summary_prefix: "Another language model started to solve this problem.".to_string(),
        code_tool_name: "exec".to_string(),
    }
}

fn message(role: &str, text: &str) -> ResponseItem {
    ResponseItem::text_message(role, text.to_string())
}

fn config(preserve: Option<i64>, strategy: CompactExactTailStrategy) -> CompactionConfig {
    CompactionConfig {
        compact_preserve_recent_tokens: preserve,
        tool_output_token_limit: None,
        compact_exact_tail_strategy: strategy,
        remote_compaction_v2: true,
        remote_compaction_v2_explicit: false,
    }
}

#[test]
fn routes_follow_the_configuration() {
    let auto = config(None, CompactExactTailStrategy::Auto);
    assert_eq!(compact_route_for_config(&auto, false), Ok(CompactRoute::Local));
    assert_eq!(compact_route_for_config(&auto, true), Ok(CompactRoute::RemoteV2));
    // An exact tail falls back on the first protocol unless the second was asked for.
    let mut exact = config(Some(100), CompactExactTailStrategy::Auto);
    assert_eq!(compact_route_for_config(&exact, true), Ok(CompactRoute::RemoteLegacy));
    exact.remote_compaction_v2_explicit = true;
    assert_eq!(compact_route_for_config(&exact, true), Ok(CompactRoute::RemoteV2));
    exact.remote_compaction_v2 = false;
    assert!(!should_use_remote_compact_task_v2_for_config(&exact));
    let named = config(Some(100), CompactExactTailStrategy::SemanticTranscript);
    assert_eq!(
        compact_route_for_config(&named, true),
        Ok(CompactRoute::SemanticTranscript)
    );
    assert_eq!(
        compact_route_for_config(&named, false),
        Err(CompactError::Stream(
            "Exact-tail compaction strategy `semantic_transcript` requires a provider with remote \
             compaction support."
                .to_string()
        ))
    );
    let unused = config(None, CompactExactTailStrategy::SemanticTranscript);
    assert_eq!(compact_route_for_config(&unused, true), Ok(CompactRoute::RemoteV2));
    assert_eq!(default_compact_route(&auto, false).metric_name(), "local");
    assert_eq!(CompactRoute::RemoteLegacy.metric_name(), "remote");
    assert_eq!(CompactRoute::RemoteV2.metric_name(), "remote_v2");
}

#[test]
fn the_nearest_explicit_layer_decides() {
    let layer = |source, remote_compaction_v2| ConfigLayer { source, remote_compaction_v2 };
    assert!(!remote_compaction_v2_explicitly_enabled(&[]));
    assert!(!remote_compaction_v2_explicitly_enabled(&[layer(
        ConfigLayerSource::Other,
        Some(true)
    )]));
    assert!(remote_compaction_v2_explicitly_enabled(&[
        layer(ConfigLayerSource::Other, Some(false)),
        layer(ConfigLayerSource::Project, None),
        layer(ConfigLayerSource::User, Some(true)),
    ]));
    assert!(!remote_compaction_v2_explicitly_enabled(&[
        layer(ConfigLayerSource::Project, Some(false)),
        layer(ConfigLayerSource::User, Some(true)),
    ]));
}

#[test]
fn policies_come_from_the_configuration() {
    assert_eq!(
        CompactionHistoryPolicy::from_config(&config(Some(0), CompactExactTailStrategy::Auto)),
        CompactionHistoryPolicy::Standard
    );
    assert_eq!(
        CompactionHistoryPolicy::from_config(&config(Some(7), CompactExactTailStrategy::Auto)),
        CompactionHistoryPolicy::PreserveRecentExact {
            target_tokens: 7,
            max_model_visible_item_tokens: 10_000,
        }
    );
    let mut limited = config(Some(7), CompactExactTailStrategy::Auto);
    limited.tool_output_token_limit = Some(20_000);
    assert_eq!(max_model_visible_item_tokens(&limited), 22_000);
    assert_eq!(model_visible_tool_output_item_token_limit(100), 228);
    assert_eq!(model_visible_tool_output_item_token_limit(100_000), 104_096);
    assert_eq!(model_visible_tool_output_item_token_limit(0), 0);
}

#[test]
fn budgets_follow_the_trigger() {
    use_budget(CompactionTrigger::Manual, AutoCompactTokenLimitScope::Total, Some(100), Some(200));
    assert_eq!(
        exact_tail_replacement_budget(
            None,
            Some(100),
            AutoCompactTokenLimitScope::BodyAfterPrefix,
            CompactionTrigger::Auto,
        ),
        Some(100)
    );
    assert_eq!(
        exact_tail_replacement_budget(
            None,
            None,
            AutoCompactTokenLimitScope::Total,
            CompactionTrigger::Auto,
        ),
        None
    );
}

fn use_budget(
    trigger: CompactionTrigger,
    scope: AutoCompactTokenLimitScope,
    limit: Option<i64>,
    window: Option<i64>,
) {
    assert_eq!(exact_tail_replacement_budget(window, limit, scope, trigger), window);
}

#[test]
fn labels_tell_items_apart() {
    let call = ResponseItem {
        id: Some("ts_1".to_string()),
        metadata: None,
        body: ItemBody::ToolSearchCall {
            call_id: Some("a\"b".to_string()),
            status: None,
            execution: "client".to_string(),
            arguments: "{}".to_string(),
        },
    };
    assert_eq!(
        model_visible_item_label(&call),
        "tool_search_call id=ts_1 call_id=Some(\"a\\\"b\")"
    );
    assert_eq!(
        model_visible_item_label(&message("user", "text")),
        "message role=user"
    );
}

#[test]
fn error_messages_name_their_reason() {
    let error = ExactTailError::new(ExactTailFailReason::NoColdPrefix, "nothing".to_string());
    assert_eq!(error.into_message(), "ExactTailNoColdPrefix: nothing");
    let named = ExactTailError::new(
        ExactTailFailReason::NoColdPrefix,
        "see ExactTailNoColdPrefix".to_string(),
    );
    assert_eq!(named.into_message(), "see ExactTailNoColdPrefix");
}

#[test]
fn texts_of_messages_are_joined() {
    let part = |text: &str| ContentItem::InputText { text: text.to_string() };
    assert_eq!(content_items_to_text(&vec![part("")]), None);
    assert_eq!(
        content_items_to_text(&vec![
            part("a"),
            part(""),
            ContentItem::InputImage { image_url: "u".to_string(), detail: None },
            ContentItem::OutputText { text: "b".to_string() },
        ])
        .as_deref(),
        Some("a\nb")
    );
}

#[test]
fn compacted_history_keeps_the_newest_messages() {
    let keep = |text: &str| CompactedUserMessage { message: text.to_string(), metadata: None };
    let messages = vec![keep("first message"), keep("second message"), keep("third")];
    let items = build_compacted_history_with_limit(Vec::new(), &messages, "summary", 4);
    assert_eq!(items.len(), 3);
    assert_eq!(items[1], message("user", "third"));
    assert_eq!(items[2], message("user", "summary"));
    let ItemBody::Message { content, .. } = &items[0].body else {
        panic!("expected a message: {items:?}");
    };
    let text = content_items_to_text(content).expect("text");
    assert!(text.contains("tokens truncated"), "{text}");
    let empty = build_compacted_history(Vec::new(), &Vec::new(), "");
    assert_eq!(empty, vec![message("user", "(no summary available)")]);
    let prefix = model().summary_prefix;
    let collected = collect_user_messages(
        &model(),
        &[
            message("user", "question"),
            message("user", &format!("{prefix}\nolder summary")),
            message("user", "<environment_context>x</environment_context>"),
            message("assistant", "answer"),
        ],
    );
    assert_eq!(collected, vec![keep("question")]);
}

#[test]
fn initial_context_goes_before_the_last_user_message() {
    let context = message("developer", "context");
    let prefix = model().summary_prefix;
    let summary = message("user", &format!("{prefix}\ns"));
    let question = message("user", "question");
    assert_eq!(
        insert_initial_context_before_last_real_user_or_summary(
            &model(),
            vec![question.clone(), summary.clone()],
            vec![context.clone()],
        ),
        vec![context.clone(), question, summary.clone()]
    );
    assert_eq!(
        insert_initial_context_before_last_real_user_or_summary(
            &model(),
            vec![message("assistant", "a"), summary.clone()],
            vec![context.clone()],
        ),
        vec![message("assistant", "a"), context, summary]
    );
}

#[test]
fn targets_lie_within_the_window() {
    assert_eq!(rolling_target_tokens(1_000, Some(10), None), 900);
    assert_eq!(rolling_target_tokens(1_000, Some(10), Some(500)), 500);
    assert_eq!(rolling_target_tokens(1_000, Some(10), Some(5_000)), 900);
    assert_eq!(rolling_target_tokens(0, Some(10), None), 1);
    assert_eq!(apply_target_scale(900, Some(90)), 810);
    assert_eq!(apply_target_scale(900, Some(100)), 900);
    assert_eq!(apply_target_scale(1, Some(1)), 1);
    assert_eq!(default_protected_hot_exact_tokens(300), 200);
    assert_eq!(default_protected_hot_exact_tokens(i64::MAX), 160_000);
    assert_eq!(shrink_token_budget(100), 90);
    assert_eq!(shrink_token_budget(1), 0);
    assert_eq!(shrink_token_budget(0), 1);
}

#[test]
fn states_follow_their_history() {
    let history = History { raw_items: vec![message("user", "a")], version: 4 };
    let summary = PairwiseNode::summary_with_text(
        CoverageInterval::new(0, 1),
        1,
        9,
        "text".to_string(),
    );
    let mut state = RollingPromptState {
        history_version: 3,
        raw_history_start_index: 7,
        projection_basis_fingerprint: 5,
        pairwise_summaries: vec![summary],
    };
    reset_or_clamp_state(&history, &mut state);
    assert_eq!(state.history_version, 4);
    assert_eq!(state.raw_history_start_index, 0);
    assert!(state.pairwise_summaries.is_empty());
    let again = RollingPromptState {
        history_version: 4,
        raw_history_start_index: 0,
        projection_basis_fingerprint: 5,
        pairwise_summaries: Vec::new(),
    };
    reset_or_clamp_state(&history, &mut state);
    assert_eq!(state, again);
}

#[test]
fn boundaries_fall_between_characters() {
    let text = "aé…b";
    assert_eq!(floor_char_boundary(text, 2), 1);
    assert_eq!(floor_char_boundary(text, 3), 3);
    assert_eq!(next_char_boundary(text, 1), 3);
    assert_eq!(next_char_boundary(text, 3), 6);
    assert_eq!(floor_char_boundary(text, 100), text.len());
}

#[test]
fn truncation_shows_what_it_took() {
    assert_eq!(truncate_text("short", 10), "short");
    assert_eq!(truncate_text("middle1234", 2), "midd…1 tokens truncated…1234");
    assert_eq!(approx_token_count("12345"), 2);
    assert_eq!(approx_bytes_for_tokens(3), 12);
}

#[test]
fn markup_in_a_summary_is_inert() {
    assert_eq!(escape_xml("<a b=\"c\">&</a>"), "&lt;a b=&quot;c&quot;&gt;&amp;&lt;/a&gt;");
    let text = "a &amp; <b> \"c\" &lt;";
    let undone = escape_xml(text)
        .replace("&quot;", "\"")
        .replace("&gt;", ">")
        .replace("&lt;", "<")
        .replace("&amp;", "&");
    assert_eq!(undone, text);
    let notice = ExactTailToolSurfaceNotice::new(2, 1, 1);
    let rendered = notice.render();
    assert!(ExactTailToolSurfaceNotice::matches_text(&rendered));
    assert_eq!(
        rendered,
        "<exact_tail_tool_surface_notice>\n2 tool reference(s) from the preserved exact-tail \
         history are not currently available as direct callable tools.\n1 older exact-tail tool \
         reference(s) were beyond the continuity hint cap and were not rehydrated.\nRediscover \
         still-available deferred tools before calling them.\n</exact_tail_tool_surface_notice>"
    );
}

#[test]
fn items_have_json_forms() {
    let mut item = message("user", "a \"quoted\" text");
    item.id = Some("m1".to_string());
    let json = model().item_json(&item);
    assert_eq!(
        json,
        "{\"type\":\"message\",\"role\":\"user\",\"content\":[{\"type\":\"input_text\",\"text\":\"a \\\"quoted\\\" text\"}],\"id\":\"m1\"}"
    );
    let bodies = vec![
        ItemBody::AgentMessage {
            author: "a".to_string(),
            recipient: "b".to_string(),
            content: vec![AgentContent::InputText { text: "t".to_string() }],
        },
        ItemBody::Reasoning {
            summary: vec!["s".to_string()],
            content: None,
            encrypted_content: Some("e".to_string()),
        },
        ItemBody::FunctionCallOutput {
            call_id: "c".to_string(),
            output: FunctionCallOutputPayload::from_text("o".to_string()),
        },
        ItemBody::CustomToolCall {
            status: None,
            call_id: "c".to_string(),
            name: "n".to_string(),
            input: "i".to_string(),
        },
        ItemBody::ToolSearchCall {
            call_id: None,
            status: None,
            execution: "client".to_string(),
            arguments: "{\"q\":1}".to_string(),
        },
        ItemBody::ToolSearchOutput {
            call_id: None,
            status: "completed".to_string(),
            execution: "client".to_string(),
            tools: vec!["{\"name\":\"t\"}".to_string()],
        },
        ItemBody::WebSearchCall { status: None, action: Some(WebSearchAction::Other) },
        ItemBody::ImageGenerationCall {
            status: "done".to_string(),
            revised_prompt: None,
            result: "r".to_string(),
        },
        ItemBody::Compaction { encrypted_content: "e".to_string() },
        ItemBody::CompactionTrigger,
        ItemBody::ContextCompaction { encrypted_content: None },
        ItemBody::Other,
    ];
    for body in bodies {
        let json = model().item_json(&ResponseItem::new(body));
        let value: serde_json::Value = serde_json::from_str(&json).expect("valid JSON");
        assert!(value["type"].is_string(), "{json}");
    }
}

#[test]
fn shell_and_search_actions_have_json_forms() {
    let action = LocalShellExecAction {
        command: vec!["echo".to_string(), "a\"\n\u{1}é".to_string()],
        timeout_ms: None,
        working_directory: Some("/w".to_string()),
        env: None,
        user: None,
    };
    let json = model().shell_json(&action);
    assert_eq!(
        json,
        "{\"type\":\"exec\",\"command\":[\"echo\",\"a\\\"\\n\\u0001é\"],\"working_directory\":\"/w\"}"
    );
    let value: serde_json::Value = serde_json::from_str(&json).expect("valid JSON");
    assert_eq!(value["command"][1], "a\"\n\u{1}é");
    let search = Some(WebSearchAction::Search {
        query: Some("q\\".to_string()),
        queries: Some(vec!["x".to_string()]),
    });
    assert_eq!(
        model().web_search_json(&search),
        "{\"type\":\"search\",\"query\":\"q\\\\\",\"queries\":[\"x\"]}"
    );
    assert_eq!(model().web_search_json(&None), "null");
}

#[test]
fn reports_carry_the_numbers_of_the_plan() {
    let history = [message("user", "old"), message("user", "recent")];
    let plan = plan_exact_tail(
        &model(),
        &history,
        ExactTailPlanInput {
            target_tokens: 1,
            effective_replacement_budget: Some(50_000),
            required_current_context_budget: 0,
            final_replacement_extra_budget_tokens: 0,
            max_model_visible_item_tokens: 10_000,
            estimated_summary_scaffold_overhead_tokens: 0,
            retained_cold_user_message_budget_tokens: 0,
            implementation: ExactTailImplementation::RemoteV2,
        },
    )
    .expect("the plan fits");
    let ids = ExactTailReportIds { thread_id: "th", turn_id: "tu", compaction_id: "co" };
    let failed = exact_tail_compaction_diagnostic(
        &ids,
        CompactionTrigger::Manual,
        &plan,
        None,
        Some(ExactTailFailReason::ColdInputTooLarge),
    );
    assert_eq!(failed.fit_result, ExactTailCompactionFitResult::Failure);
    assert_eq!(failed.failure_reason.as_deref(), Some("ExactTailColdInputTooLarge"));
    assert_eq!(failed.thread_id, "th");
    assert_eq!(failed.numbers.hot_group_count, Some(1));
    assert_eq!(failed.numbers.summary_tokens, None);
    let fitted = exact_tail_compaction_diagnostic(
        &ids,
        CompactionTrigger::Manual,
        &plan,
        Some(ExactTailReplacementDiagnostics {
            actual_summary_tokens: 5,
            replacement_tokens_estimate: 6,
            final_replacement_tokens_estimate: 7,
            hot_suffix_exact_match: true,
            planned_hot_suffix_item_count: 1,
            installed_hot_suffix_item_count: 1,
        }),
        None,
    );
    assert_eq!(fitted.fit_result, ExactTailCompactionFitResult::Success);
    assert_eq!(fitted.failure_reason, None);
    assert_eq!(fitted.numbers.summary_tokens, Some(5));
    let unplanned = exact_tail_prepare_failure_diagnostic(
        &ids,
        CompactionTrigger::Auto,
        ExactTailImplementation::Local,
        ExactTailFailReason::BudgetUnavailable,
    );
    assert_eq!(
        unplanned.failure_reason.as_deref(),
        Some("ExactTailBudgetUnavailable")
    );
    assert_eq!(unplanned.numbers.hot_group_count, None);
}

fn live_params(cold: usize) -> RollingPromptParams {
    RollingPromptParams {
        input_modalities: vec![InputModality::Text],
        base_instructions: "base".to_string(),
        invariant_prefix: Vec::new(),
        effective_context_window: Some(10_000),
        reserve_percent: Some(0),
        target_tokens: None,
        target_scale_percent: None,
        tool_output_limit_tokens: 10_000,
        pairwise_compaction: Some(PairwiseRollingPromptParams {
            protected_hot_exact_tokens: Some(1),
            summary_group_token_cap: 64,
            summary_group_token_cap_max: 2_048,
            max_summary_levels: 3,
            compact_when_level_group_count_gt: cold,
        }),
    }
}

#[test]
fn live_summaries_are_asked_for_and_used() {
    let items: Vec<ResponseItem> =
        (0..5).map(|index| message("user", &format!("message number {index}"))).collect();
    let history = History { raw_items: items, version: 0 };
    let mut state = RollingPromptState::default();
    let mut asked = 0;
    let result = loop {
        match build_rolling_prompt_with_live_summaries(&model(), &history, &state, live_params(2))
            .expect("the prompt fits")
        {
            RollingPromptBuildOutcome::Ready(result) => break result,
            RollingPromptBuildOutcome::NeedsPairSummary { request, mut projected_state } => {
                asked += 1;
                assert!(asked < 10, "summaries must be used once they are there");
                assert_eq!(request.coverage_label(), "raw[0..2)");
                assert!(!request.input.is_empty());
                request.add_to_projected_state(&mut projected_state, "PAIR_SUMMARY".to_string());
                state.commit_pairwise_summary_cache(&projected_state);
            }
        }
    };
    assert_eq!(asked, 1);
    let text = format!("{:?}", result.prompt_input);
    assert!(text.contains("PAIR_SUMMARY"));
    assert!(!text.contains("message number 0"));
    assert!(text.contains("message number 4"));
    assert!(result.estimated_prompt_tokens <= result.target_tokens);
}

#[test]
fn rolling_errors_say_what_is_too_large() {
    assert_eq!(
        RollingPromptError::NoContextWindow.message(),
        "rolling prompt retention requires a context window"
    );
    assert_eq!(
        RollingPromptError::InvariantPrefixExceedsTarget { pinned_tokens: 5, target_tokens: 4 }
            .message(),
        "rolling prompt invariant prefix uses 5 tokens, exceeding target 4"
    );
    let history = History { raw_items: vec![message("user", "a")], version: 0 };
    let mut params = live_params(2);
    params.effective_context_window = None;
    assert_eq!(
        build_rolling_prompt(&model(), &history, &RollingPromptState::default(), params).err(),
        Some(RollingPromptError::NoContextWindow)
    );
    let mut params = live_params(2);
    params.effective_context_window = Some(20);
    params.invariant_prefix = vec![message("developer", &"p".repeat(400))];
    assert!(matches!(
        build_rolling_prompt(&model(), &history, &RollingPromptState::default(), params),
        Err(RollingPromptError::InvariantPrefixExceedsTarget { .. })
    ));
}

#[test]
fn fingerprints_follow_the_basis() {
    let print = |params: &RollingPromptParams| projection_basis_fingerprint(&model(), params);
    let first = print(&live_params(2));
    assert_eq!(print(&live_params(2)), first);
    assert!(print(&live_params(3)) != first);
    let mut prefixed = live_params(2);
    prefixed.invariant_prefix = vec![message("developer", "prefix")];
    assert!(print(&prefixed) != first);
    let mut other = live_params(2);
    other.invariant_prefix = vec![message("developer", "another prefix")];
    assert!(print(&other) != print(&prefixed));
    let mut scaled = live_params(2);
    scaled.target_scale_percent = Some(50);
    scaled.base_instructions = "other instructions".to_string();
    assert_eq!(print(&scaled), first);
}

#[test]
fn summaries_of_another_basis_are_dropped() {
    let items: Vec<ResponseItem> =
        (0..5).map(|index| message("user", &format!("message number {index}"))).collect();
    let history = History { raw_items: items, version: 0 };
    let result = build_rolling_prompt(
        &model(),
        &history,
        &RollingPromptState::default(),
        live_params(2),
    )
    .expect("the prompt fits");
    let mut state = result.projected_state;
    assert_eq!(
        state.projection_basis_fingerprint,
        projection_basis_fingerprint(&model(), &live_params(2))
    );
    state.pairwise_summaries = vec![PairwiseNode::summary_with_text(
        CoverageInterval::new(0, 2),
        1,
        9,
        "KEPT_SUMMARY".to_string(),
    )];
    let same = build_rolling_prompt(&model(), &history, &state, live_params(2)).expect("fits");
    assert!(format!("{:?}", same.prompt_input).contains("KEPT_SUMMARY"));
    let mut changed = live_params(2);
    changed.invariant_prefix = vec![message("developer", "prefix")];
    let other = build_rolling_prompt(&model(), &history, &state, changed).expect("fits");
    assert!(!format!("{:?}", other.prompt_input).contains("KEPT_SUMMARY"));
}

#[test]
fn summaries_move_between_states_of_one_basis() {
    let node = |text: &str| {
        PairwiseNode::summary_with_text(CoverageInterval::new(0, 2), 1, 9, text.to_string())
    };
    let mut own = RollingPromptState {
        history_version: 4,
        raw_history_start_index: 1,
        projection_basis_fingerprint: 5,
        pairwise_summaries: vec![node("own")],
    };
    let projected = RollingPromptState {
        history_version: 4,
        raw_history_start_index: 3,
        projection_basis_fingerprint: 5,
        pairwise_summaries: vec![node("projected")],
    };
    let merged = own.with_pairwise_summaries_from_projection(&projected);
    assert_eq!(merged.raw_history_start_index, 1);
    assert_eq!(merged.pairwise_summaries, vec![node("projected")]);
    let foreign = RollingPromptState {
        projection_basis_fingerprint: 6,
        history_version: 4,
        raw_history_start_index: 3,
        pairwise_summaries: vec![node("foreign")],
    };
    assert_eq!(own.with_pairwise_summaries_from_projection(&foreign), own);
    own.commit_projection(&projected, 10);
    assert_eq!(own.raw_history_start_index, 3);
    let behind = RollingPromptState {
        history_version: 4,
        raw_history_start_index: 2,
        projection_basis_fingerprint: 5,
        pairwise_summaries: Vec::new(),
    };
    own.commit_projection(&behind, 10);
    assert_eq!(own.raw_history_start_index, 3, "the cursor never goes back");
    own.add_pairwise_summary(PairwiseNode::summary_with_text(
        CoverageInterval::new(0, 4),
        2,
        9,
        "wider".to_string(),
    ));
    own.add_pairwise_summary(node("narrower"));
    assert_eq!(own.pairwise_summaries.len(), 1);
    assert_eq!(own.pairwise_summaries[0].coverage_label(), "raw[0..4)");
}

#[test]
fn adjacent_ranges_join() {
    let first = CoverageInterval::new(0, 2);
    let next = CoverageInterval::new(2, 5);
    assert_eq!(first.union(next), Some(CoverageInterval::new(0, 5)));
    assert_eq!(next.union(first), None);
    assert!(CoverageInterval::new(0, 5).covers(next));
    assert!(!first.covers(next));
    assert_eq!(model_visible_tool_output_item_token_limit_for_policy(20_000), 22_000);
}

#[test]
fn truncated_texts_keep_to_the_budget() {
    let text = "ä".repeat(100);
    let short = truncate_text(&text, 10);
    let note = "…40 tokens truncated…";
    assert!(short.contains(note), "{short}");
    assert!(short.len() <= 40 + note.len());
    assert_eq!(truncate_text(&text, 50), text);
    assert!(is_blank(" \u{2003}\n"));
    assert_eq!(trim_text(" \u{2003}\n"), "");
    assert_eq!(trim_text("\u{a0}a b\t"), "a b");
}
