use codex_core::item::{AgentContent, ContentItem, FunctionCallOutputPayload, ItemBody, ResponseItem};
use codex_core::marker_model::{MarkerModel, MarkerPair};
use codex_core::fragments::{
    ContextualUserFragment, ExtensionContextualUserFragment, RollingInvariantDeveloperContext,
};
use codex_core::rolling::{RollingPromptError, MAX_ROLLING_PROMPT_ITEM_TOKENS};
use codex_core::rolling_projection::project_rolling_message_item;
use codex_core::rolling_prompt::{build_rolling_prompt, RollingPromptParams};
use codex_core::rolling_state::{History, RollingPromptState};
use codex_core::session_model::{InputModality, SessionModel};

fn pair(start: &str, end: &str) -> MarkerPair {
    MarkerPair { start: start.to_string(), end: end.to_string() }
}

fn model() -> MarkerModel {
    MarkerModel {
        developer_markers: vec![
            pair("<permissions instructions>", ""),
            pair("<token_budget>", ""),
        ],
        user_markers: vec![pair("<skill>", "</skill>")],
        environment: pair("<environment_context>", "</environment_context>"),
        instructions: pair("# AGENTS.md instructions for ", "</INSTRUCTIONS>"),
        hook_prompt: pair("<hook_prompt", "</hook_prompt>"),
        delegation: pair("{\"author\":", "}"),
        item_overhead_tokens: 10,
        summary_prefix: "Another language model started to solve this problem.".to_string(),
        code_tool_name: "exec".to_string(),
    }
}

fn history(items: Vec<ResponseItem>) -> History {
    History { raw_items: items, version: 0 }
}

fn default_input_modalities() -> Vec<InputModality> {
    vec![InputModality::Text, InputModality::Image]
}

fn base_instructions() -> String {
    "base".to_string()
}

fn message(role: &str, content: Vec<ContentItem>) -> ResponseItem {
    ResponseItem::new(ItemBody::Message { role: role.to_string(), content, phase: None })
}

fn input_text(text: &str) -> ContentItem {
    ContentItem::InputText { text: text.to_string() }
}

fn developer_msg(text: &str) -> ResponseItem {
    message("developer", vec![input_text(text)])
}

fn rolling_invariant_developer_msg(text: &str) -> ResponseItem {
    message(
        "developer",
        vec![
            ContentItem::InputText { text: RollingInvariantDeveloperContext.render() },
            input_text(text),
        ],
    )
}

fn contextual_user_msg(text: &str) -> ResponseItem {
    message("user", vec![input_text(text)])
}

fn user_msg(text: &str) -> ResponseItem {
    message("user", vec![input_text(text)])
}

fn assistant_msg(text: &str) -> ResponseItem {
    message("assistant", vec![ContentItem::OutputText { text: text.to_string() }])
}

fn custom_tool_call(call_id: &str) -> ResponseItem {
    ResponseItem::new(ItemBody::CustomToolCall {
        status: None,
        call_id: call_id.to_string(),
        name: "custom".to_string(),
        input: "input".to_string(),
    })
}

fn custom_tool_output(call_id: &str, output: &str) -> ResponseItem {
    ResponseItem::new(ItemBody::CustomToolCallOutput {
        call_id: call_id.to_string(),
        name: Some("custom".to_string()),
        output: FunctionCallOutputPayload::from_text(output.to_string()),
    })
}

fn oversized_pass_through_items() -> Vec<ResponseItem> {
    vec![
        ResponseItem::new(ItemBody::AgentMessage {
            author: "agent-a".to_string(),
            recipient: "agent-b".to_string(),
            content: vec![AgentContent::EncryptedContent {
                encrypted_content: "agent encrypted ".repeat(30_000),
            }],
        }),
        ResponseItem {
            id: Some("reasoning-1".to_string()),
            metadata: None,
            body: ItemBody::Reasoning {
                summary: Vec::new(),
                content: None,
                encrypted_content: Some("reasoning encrypted ".repeat(30_000)),
            },
        },
        ResponseItem::new(ItemBody::Compaction {
            encrypted_content: "compaction encrypted ".repeat(30_000),
        }),
        ResponseItem::new(ItemBody::ContextCompaction {
            encrypted_content: Some("context compaction encrypted ".repeat(30_000)),
        }),
    ]
}

#[test]
fn rolling_prompt_filters_historical_extension_contextual_user_prefix() {
    let old_extension_context =
        user_msg(&ExtensionContextualUserFragment::new("STALE_EXTENSION_CONTEXT".to_string()).render());
    let current_extension_context =
        user_msg(&ExtensionContextualUserFragment::new("CURRENT_EXTENSION_CONTEXT".to_string()).render());
    let history = history(vec![
        old_extension_context,
        user_msg(&"old body ".repeat(1_000)),
        user_msg("NEWEST_BODY"),
    ]);
    let state = RollingPromptState::default();
    let current_prefix = vec![current_extension_context];

    let result = build_rolling_prompt(
        &model(),
        &history,
        &state,
        RollingPromptParams {
            input_modalities: default_input_modalities(),
            base_instructions: base_instructions(),
            invariant_prefix: current_prefix,
            effective_context_window: Some(1_000),
            reserve_percent: Some(0),
            target_tokens: Some(500),
            target_scale_percent: None,
            tool_output_limit_tokens: 10_000,
            pairwise_compaction: None,
        },
    )
    .expect("current extension context plus newest body should fit");

    let prompt_text = format!("{:?}", result.prompt_input);
    assert!(
        prompt_text.contains("CURRENT_EXTENSION_CONTEXT"),
        "current extension contextual-user prefix should be retained"
    );
    assert!(
        !prompt_text.contains("STALE_EXTENSION_CONTEXT"),
        "stale extension contextual-user prefix should be filtered"
    );
    assert!(
        prompt_text.contains("NEWEST_BODY"),
        "newest body should remain"
    );
}

#[test]
fn rolling_invariant_developer_marker_is_contextual_dev_fragment() {
    let ItemBody::Message { content, .. } = rolling_invariant_developer_msg("CURRENT_DEV").body
    else {
        panic!("fixture should build a developer message");
    };

    assert!(model().rolling_invariant_developer(&content));
    assert!(model().contextual_developer(&content));
}

#[test]
fn rolling_prompt_does_not_reinclude_generated_context_before_cursor() {
    let prelude = developer_msg("TURN_PRELUDE_CONTEXT");
    let user = user_msg("USER_PROMPT_SENTINEL");
    let newest = assistant_msg("NEWER_SENTINEL");
    let history = history(vec![prelude, user, newest.clone()]);
    let state = RollingPromptState {
        history_version: history.version,
        raw_history_start_index: 1,
        projection_basis_fingerprint: 0,
        pairwise_summaries: Vec::new(),
    };

    let result = build_rolling_prompt(
        &model(),
        &history,
        &state,
        RollingPromptParams {
            input_modalities: default_input_modalities(),
            base_instructions: base_instructions(),
            invariant_prefix: Vec::new(),
            effective_context_window: Some(1_000),
            reserve_percent: Some(0),
            target_tokens: None,
            target_scale_percent: None,
            tool_output_limit_tokens: 10_000,
            pairwise_compaction: None,
        },
    )
    .expect("newer suffix should fit without rehydrating pre-cursor context");

    assert_eq!(result.prompt_input, vec![newest]);
}

#[test]
fn rolling_prompt_keeps_turn_scoped_developer_context_as_body() {
    let turn_scoped_developer = developer_msg("hook additional context for this turn only");
    let history = history(vec![
        developer_msg("<permissions instructions>\nstale"),
        user_msg(&"old ".repeat(1_000)),
        turn_scoped_developer.clone(),
        user_msg("new"),
    ]);
    let state = RollingPromptState::default();
    let current_prefix = vec![developer_msg("<permissions instructions>\ncurrent")];

    let result = build_rolling_prompt(
        &model(),
        &history,
        &state,
        RollingPromptParams {
            input_modalities: default_input_modalities(),
            base_instructions: base_instructions(),
            invariant_prefix: current_prefix.clone(),
            effective_context_window: Some(1_000),
            reserve_percent: Some(0),
            target_tokens: Some(500),
            target_scale_percent: None,
            tool_output_limit_tokens: 10_000,
            pairwise_compaction: None,
        },
    )
    .expect("turn-scoped developer context should fit");

    assert_eq!(
        result.prompt_input,
        vec![
            current_prefix[0].clone(),
            turn_scoped_developer,
            user_msg("new")
        ]
    );
}

#[test]
fn rolling_prompt_filters_legacy_unmarked_developer_preamble_when_current_dev_changes() {
    let history = history(vec![
        developer_msg("OLD_DEVELOPER_PREFIX"),
        user_msg("OLD_BODY"),
        user_msg("NEWEST_BODY"),
    ]);
    let state = RollingPromptState::default();
    let current_prefix = vec![rolling_invariant_developer_msg("NEW_DEVELOPER_PREFIX")];

    let result = build_rolling_prompt(
        &model(),
        &history,
        &state,
        RollingPromptParams {
            input_modalities: default_input_modalities(),
            base_instructions: base_instructions(),
            invariant_prefix: current_prefix.clone(),
            effective_context_window: Some(10_000),
            reserve_percent: Some(0),
            target_tokens: None,
            target_scale_percent: None,
            tool_output_limit_tokens: 10_000,
            pairwise_compaction: None,
        },
    )
    .expect("current prefix and body should fit");

    assert_eq!(
        result.prompt_input,
        vec![
            current_prefix[0].clone(),
            user_msg("OLD_BODY"),
            user_msg("NEWEST_BODY")
        ]
    );
}

#[test]
fn rolling_prompt_filters_unmarked_historical_developer_prefix_matching_current_invariant() {
    let old_compact_setup = developer_msg("EXTENSION_DEVELOPER_SETUP");
    let current_prefix = vec![rolling_invariant_developer_msg("EXTENSION_DEVELOPER_SETUP")];
    let history = history(vec![
        old_compact_setup,
        user_msg(&"old ".repeat(1_000)),
        user_msg("NEWEST_BODY"),
    ]);
    let state = RollingPromptState::default();

    let result = build_rolling_prompt(
        &model(),
        &history,
        &state,
        RollingPromptParams {
            input_modalities: default_input_modalities(),
            base_instructions: base_instructions(),
            invariant_prefix: current_prefix.clone(),
            effective_context_window: Some(1_000),
            reserve_percent: Some(0),
            target_tokens: Some(500),
            target_scale_percent: None,
            tool_output_limit_tokens: 10_000,
            pairwise_compaction: None,
        },
    )
    .expect("current prefix and newest body should fit");

    assert_eq!(
        result.prompt_input,
        vec![current_prefix[0].clone(), user_msg("NEWEST_BODY")]
    );
}

#[test]
fn rolling_prompt_filters_large_unmarked_historical_developer_prefix_before_projection() {
    let developer_setup = "LARGE_EXTENSION_DEVELOPER_SETUP ".repeat(8_000);
    let current_prefix = vec![rolling_invariant_developer_msg(&developer_setup)];
    let projected_current_prefix = current_prefix
        .clone()
        .into_iter()
        .flat_map(|item| project_rolling_message_item(&model(), item, MAX_ROLLING_PROMPT_ITEM_TOKENS))
        .collect::<Vec<_>>();
    assert!(
        projected_current_prefix.len() > 1,
        "fixture should force current invariant developer prefix projection"
    );
    let history = history(vec![
        developer_msg(&developer_setup),
        user_msg(&"old ".repeat(1_000)),
        user_msg("NEWEST_BODY"),
    ]);
    let state = RollingPromptState::default();

    let result = build_rolling_prompt(
        &model(),
        &history,
        &state,
        RollingPromptParams {
            input_modalities: default_input_modalities(),
            base_instructions: base_instructions(),
            invariant_prefix: current_prefix,
            effective_context_window: Some(100_000),
            reserve_percent: Some(0),
            target_tokens: None,
            target_scale_percent: None,
            tool_output_limit_tokens: 10_000,
            pairwise_compaction: None,
        },
    )
    .expect("current split prefix and newest body should fit");

    assert_eq!(
        &result.prompt_input[..projected_current_prefix.len()],
        projected_current_prefix.as_slice()
    );
    let developer_message_count = result
        .prompt_input
        .iter()
        .filter(|item| matches!(&item.body, ItemBody::Message { role, .. } if role == "developer"))
        .count();
    assert_eq!(
        developer_message_count,
        projected_current_prefix.len(),
        "historical unmarked developer prefix must not remain after the projected current prefix"
    );
    assert!(
        result.prompt_input.contains(&user_msg("NEWEST_BODY")),
        "newest body should remain"
    );
}

#[test]
fn rolling_prompt_rejects_encrypted_reasoning_when_summary_exceeds_item_cap() {
    let reasoning = ResponseItem {
        id: Some(String::new()),
        metadata: None,
        body: ItemBody::Reasoning {
            summary: vec!["ROLLCTX_REASONING_SUMMARY ".repeat(30_000)],
            content: None,
            encrypted_content: Some("A".repeat(1_868)),
        },
    };
    let history = history(vec![reasoning]);
    let state = RollingPromptState::default();

    let error = build_rolling_prompt(
        &model(),
        &history,
        &state,
        RollingPromptParams {
            input_modalities: default_input_modalities(),
            base_instructions: base_instructions(),
            invariant_prefix: Vec::new(),
            effective_context_window: Some(100_000),
            reserve_percent: Some(0),
            target_tokens: Some(50_000),
            target_scale_percent: None,
            tool_output_limit_tokens: 10_000,
            pairwise_compaction: None,
        },
    )
    .expect_err("oversized pass-through reasoning should not bypass the per-item cap");

    assert!(matches!(error, RollingPromptError::ItemExceedsLimit { .. }));
}

#[test]
fn rolling_prompt_keeps_turn_scoped_skill_context_as_body() {
    let skill_context =
        user_msg("<skill>\n<name>demo</name>\n<path>skills/demo/SKILL.md</path>\nbody\n</skill>");
    let history = history(vec![
        contextual_user_msg("<environment_context>\nstale\n</environment_context>"),
        user_msg(&"old ".repeat(1_000)),
        user_msg("new"),
        skill_context.clone(),
    ]);
    let state = RollingPromptState::default();
    let current_prefix = vec![contextual_user_msg(
        "<environment_context>\ncurrent\n</environment_context>",
    )];

    let result = build_rolling_prompt(
        &model(),
        &history,
        &state,
        RollingPromptParams {
            input_modalities: default_input_modalities(),
            base_instructions: base_instructions(),
            invariant_prefix: current_prefix.clone(),
            effective_context_window: Some(1_000),
            reserve_percent: Some(0),
            target_tokens: Some(500),
            target_scale_percent: None,
            tool_output_limit_tokens: 10_000,
            pairwise_compaction: None,
        },
    )
    .expect("turn-scoped skill context should fit");

    assert_eq!(
        result.prompt_input,
        vec![current_prefix[0].clone(), user_msg("new"), skill_context,]
    );
}

#[test]
fn rolling_prompt_filters_marked_historical_raw_developer_prefix() {
    let history = history(vec![
        rolling_invariant_developer_msg("STALE_RAW_DEVELOPER_SENTINEL"),
        user_msg("NEWEST_BODY"),
    ]);
    let state = RollingPromptState::default();
    let current_prefix = vec![rolling_invariant_developer_msg(
        "CURRENT_RAW_DEVELOPER_SENTINEL",
    )];

    let result = build_rolling_prompt(
        &model(),
        &history,
        &state,
        RollingPromptParams {
            input_modalities: default_input_modalities(),
            base_instructions: base_instructions(),
            invariant_prefix: current_prefix,
            effective_context_window: Some(2_000),
            reserve_percent: Some(0),
            target_tokens: None,
            target_scale_percent: None,
            tool_output_limit_tokens: 10_000,
            pairwise_compaction: None,
        },
    )
    .expect("current developer prefix and newest body should fit");

    let prompt = format!("{:?}", result.prompt_input);
    assert!(prompt.contains("CURRENT_RAW_DEVELOPER_SENTINEL"));
    assert!(
        !prompt.contains("STALE_RAW_DEVELOPER_SENTINEL"),
        "stale marked generated developer prefix must not remain as body"
    );
}

#[test]
fn rolling_prompt_keeps_post_user_generated_context_atomic_with_user_prompt() {
    let history = history(vec![
        user_msg("USER_PROMPT_SENTINEL"),
        contextual_user_msg(&format!(
            "<skill>\n{}\n</skill>",
            "POST_USER_SKILL_CONTEXT ".repeat(120)
        )),
    ]);
    let state = RollingPromptState::default();

    let error = build_rolling_prompt(
        &model(),
        &history,
        &state,
        RollingPromptParams {
            input_modalities: default_input_modalities(),
            base_instructions: base_instructions(),
            invariant_prefix: Vec::new(),
            effective_context_window: Some(500),
            reserve_percent: Some(0),
            target_tokens: Some(80),
            target_scale_percent: None,
            tool_output_limit_tokens: 10_000,
            pairwise_compaction: None,
        },
    )
    .expect_err("post-user generated context and user prompt should fail as one newest frontier");

    assert!(matches!(
        error,
        RollingPromptError::FrontierExceedsBudget { .. }
    ));
}

#[test]
fn rolling_prompt_splits_generated_context_message_under_item_cap() {
    let history = history(vec![
        user_msg("USER_WITH_LARGE_SKILL_CONTEXT"),
        contextual_user_msg(&format!(
            "<skill>\n{}\n</skill>",
            "LARGE_SKILL_CONTEXT ".repeat(8_000)
        )),
    ]);
    let state = RollingPromptState::default();

    let result = build_rolling_prompt(
        &model(),
        &history,
        &state,
        RollingPromptParams {
            input_modalities: default_input_modalities(),
            base_instructions: base_instructions(),
            invariant_prefix: Vec::new(),
            effective_context_window: Some(80_000),
            reserve_percent: Some(0),
            target_tokens: None,
            target_scale_percent: None,
            tool_output_limit_tokens: 10_000,
            pairwise_compaction: None,
        },
    )
    .expect("generated turn context should split into model-visible bounded items");

    assert!(
        result
            .prompt_input
            .iter()
            .all(|item| model().item_tokens(item) <= MAX_ROLLING_PROMPT_ITEM_TOKENS),
        "all split generated context items must respect the per-item cap"
    );
    assert!(
        format!("{:?}", result.prompt_input)
            .contains("LARGE_SKILL_CONTEXT"),
        "split prompt should preserve generated context text"
    );
}

#[test]
fn rolling_prompt_keeps_multiple_outputs_for_one_custom_tool_call() {
    let history = history(vec![
        custom_tool_call("custom-call-1"),
        custom_tool_output("custom-call-1", "CUSTOM_NOTIFY_OUTPUT"),
        custom_tool_output("custom-call-1", "CUSTOM_FINAL_OUTPUT"),
    ]);
    let state = RollingPromptState::default();

    let result = build_rolling_prompt(
        &model(),
        &history,
        &state,
        RollingPromptParams {
            input_modalities: default_input_modalities(),
            base_instructions: base_instructions(),
            invariant_prefix: Vec::new(),
            effective_context_window: Some(2_000),
            reserve_percent: Some(0),
            target_tokens: None,
            target_scale_percent: None,
            tool_output_limit_tokens: 10_000,
            pairwise_compaction: None,
        },
    )
    .expect("custom call with notify and final outputs should fit");

    assert_eq!(
        result.prompt_input,
        vec![
            custom_tool_call("custom-call-1"),
            custom_tool_output("custom-call-1", "CUSTOM_NOTIFY_OUTPUT"),
            custom_tool_output("custom-call-1", "CUSTOM_FINAL_OUTPUT"),
        ]
    );
}

#[test]
fn rolling_prompt_budgets_actual_custom_tool_output_size_used_by_code_mode() {
    let code_mode_output = "x".repeat(20_000);
    let output_item = custom_tool_output("call-1", &code_mode_output);
    let newest = user_msg("new frontier");
    let history = history(vec![
        custom_tool_call("call-1"),
        output_item.clone(),
        newest.clone(),
    ]);
    let state = RollingPromptState::default();

    assert!(
        model().item_tokens(&output_item) > 2_000,
        "fixture should exceed the rolling body budget"
    );
    assert!(
        model().item_tokens(&output_item) < MAX_ROLLING_PROMPT_ITEM_TOKENS,
        "fixture should prove budget accounting without tripping the per-item cap"
    );

    let result = build_rolling_prompt(
        &model(),
        &history,
        &state,
        RollingPromptParams {
            input_modalities: default_input_modalities(),
            base_instructions: base_instructions(),
            invariant_prefix: Vec::new(),
            effective_context_window: Some(100_000),
            reserve_percent: Some(0),
            target_tokens: Some(2_000),
            target_scale_percent: None,
            tool_output_limit_tokens: 10_000,
            pairwise_compaction: None,
        },
    )
    .expect("rolling prompt should eject oversized old custom output and keep frontier");

    assert_eq!(result.prompt_input, vec![newest]);
    assert_eq!(result.raw_history_start_index, 2);
    assert_eq!(result.dropped_body_items, 2);
}

#[test]
fn rolling_prompt_drops_old_pass_through_items_that_exceed_per_item_limit() {
    for oversized in oversized_pass_through_items() {
        assert!(
            model().item_tokens(&oversized) > MAX_ROLLING_PROMPT_ITEM_TOKENS,
            "fixture should exceed the model-visible item cap: {oversized:?}"
        );
        let newest = user_msg("newest body");
        let history = history(vec![oversized, newest.clone()]);
        let state = RollingPromptState::default();

        let result = build_rolling_prompt(
            &model(),
            &history,
            &state,
            RollingPromptParams {
                input_modalities: default_input_modalities(),
                base_instructions: base_instructions(),
                invariant_prefix: Vec::new(),
                effective_context_window: Some(100_000),
                reserve_percent: Some(0),
                target_tokens: None,
                target_scale_percent: None,
                tool_output_limit_tokens: 10_000,
                pairwise_compaction: None,
            },
        )
        .expect("oversized old pass-through item should be droppable");

        assert_eq!(result.prompt_input, vec![newest]);
    }
}

#[test]
fn rolling_prompt_errors_when_newest_pass_through_item_exceeds_per_item_limit() {
    for oversized in oversized_pass_through_items() {
        let history = history(vec![oversized]);
        let state = RollingPromptState::default();

        let error = build_rolling_prompt(
            &model(),
            &history,
            &state,
            RollingPromptParams {
                input_modalities: default_input_modalities(),
                base_instructions: base_instructions(),
                invariant_prefix: Vec::new(),
                effective_context_window: Some(100_000),
                reserve_percent: Some(0),
                target_tokens: None,
                target_scale_percent: None,
                tool_output_limit_tokens: 10_000,
                pairwise_compaction: None,
            },
        )
        .expect_err("oversized newest pass-through item should fail clearly");

        assert!(matches!(error, RollingPromptError::ItemExceedsLimit { .. }));
    }
}
