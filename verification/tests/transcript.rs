use codex_core::item::{ContentItem, FunctionCallOutputPayload, ItemBody, MessagePhase, ResponseItem};
use codex_core::marker_model::{MarkerModel, MarkerPair};
use codex_core::session_model::estimate_items_tokens;
use codex_core::transcript::render_semantic_transcript;

fn pair(start: &str, end: &str) -> MarkerPair {
    MarkerPair { start: start.to_string(), end: end.to_string() }
}

fn model() -> MarkerModel {
    MarkerModel {
        developer_markers: vec![
            pair("<permissions instructions>", ""),
            pair("<token_budget>", ""),
            pair("<apps_instructions>", ""),
            pair("<plugins_instructions>", ""),
        ],
        user_markers: vec![pair("<skill>", "</skill>")],
        environment: pair("<environment_context>", "</environment_context>"),
        instructions: pair("# AGENTS.md instructions for ", "</INSTRUCTIONS>"),
        hook_prompt: pair("<hook_prompt", "</hook_prompt>"),
        delegation: pair("{\"author\":", "}"),
        item_overhead_tokens: 10,
        summary_prefix: "Another language model started to solve this problem.".to_string(),
        code_tool_name: "exec".to_string(),
    }
}

fn message(role: &str, text: &str) -> ResponseItem {
    ResponseItem { id: Some(format!("{role}-id")), metadata: Some("{}".to_string()), body: ItemBody::Message { role: role.to_string(), content: vec![ContentItem::InputText {
            text: text.to_string(),
        }], phase: None } }
}

#[test]
fn semantic_transcript_strips_protocol_ids_and_keeps_tool_observation() {
    let cold_history = vec![
        message("user", "SEM_USER_DIRECTIVE"),
        ResponseItem { id: Some("assistant-id".to_string()), metadata: Some("{}".to_string()), body: ItemBody::Message { role: "assistant".to_string(), content: vec![ContentItem::OutputText {
                text: "SEM_ASSISTANT_VISIBLE".to_string(),
            }], phase: Some(MessagePhase::Commentary) } },
        ResponseItem { id: Some("fc-id".to_string()), metadata: Some("{}".to_string()), body: ItemBody::FunctionCall { name: "shell_command".to_string(), namespace: Some("functions".to_string()), arguments: "{\"command\":\"rg SEM\"}".to_string(), call_id: "call_sem".to_string() } },
        ResponseItem { id: Some("out-id".to_string()), metadata: Some("{}".to_string()), body: ItemBody::FunctionCallOutput { call_id: "call_sem".to_string(), output: FunctionCallOutputPayload::from_text("SEM_TOOL_OUTPUT".to_string()) } },
    ];

    let transcript = render_semantic_transcript(&model(), &cold_history, 10_000).expect("render transcript");

    assert_eq!(transcript.tool_observation_count, 1);
    assert_eq!(transcript.items.len(), 3);
    let serialized = format!("{:?}", transcript.items);
    assert!(serialized.contains("SEM_USER_DIRECTIVE"));
    assert!(serialized.contains("SEM_ASSISTANT_VISIBLE"));
    assert!(serialized.contains("SEM_TOOL_OUTPUT"));
    assert!(serialized.contains("functions.shell_command"));
    assert!(!serialized.contains("call_sem"));
    assert!(!serialized.contains("fc-id"));
    assert!(!serialized.contains("out-id"));
}

#[test]
fn semantic_transcript_keeps_prior_summaries_as_cold_summary_entries() {
    let cold_history = vec![
        ResponseItem { id: Some("summary-id".to_string()), metadata: Some("{}".to_string()), body: ItemBody::Compaction { encrypted_content: "SEM_PRIOR_SUMMARY".to_string() } },
        ResponseItem { id: Some("context-summary-id".to_string()), metadata: Some("{}".to_string()), body: ItemBody::ContextCompaction { encrypted_content: Some("SEM_CONTEXT_SUMMARY".to_string()) } },
    ];

    let transcript = render_semantic_transcript(&model(), &cold_history, 10_000).expect("render transcript");

    let serialized = format!("{:?}", transcript.items);
    assert!(serialized.contains("SEM_PRIOR_SUMMARY"));
    assert!(serialized.contains("SEM_CONTEXT_SUMMARY"));
    assert!(!serialized.contains("summary-id"));
    assert!(!serialized.contains("context-summary-id"));
}

#[test]
fn semantic_transcript_bounds_large_tool_outputs() {
    let cold_history = vec![
        ResponseItem::new(ItemBody::FunctionCall { name: "shell_command".to_string(), namespace: None, arguments: "{}".to_string(), call_id: "call_large".to_string() }),
        ResponseItem::new(ItemBody::FunctionCallOutput { call_id: "call_large".to_string(), output: FunctionCallOutputPayload::from_text("word ".repeat(10_000)) }),
    ];

    let transcript = render_semantic_transcript(&model(), &cold_history, 512).expect("render transcript");
    let serialized = format!("{:?}", transcript.items);
    assert!(serialized.contains("tokens truncated"));

    for item in &transcript.items {
        assert!(
            estimate_items_tokens(&model(), std::slice::from_ref(item)) <= 512,
            "transcript item should fit cap: {item:?}"
        );
    }
}

#[test]
fn semantic_transcript_uses_reasoning_summary_not_hidden_content() {
    let cold_history = vec![ResponseItem { id: Some("reasoning-id".to_string()), metadata: Some("{}".to_string()), body: ItemBody::Reasoning { summary: vec!["SEM_REASONING_SUMMARY".to_string()], content: None, encrypted_content: Some("SEM_HIDDEN_REASONING".to_string()) } }];

    let transcript = render_semantic_transcript(&model(), &cold_history, 10_000).expect("render transcript");

    let serialized = format!("{:?}", transcript.items);
    assert!(serialized.contains("SEM_REASONING_SUMMARY"));
    assert!(!serialized.contains("SEM_HIDDEN_REASONING"));
    assert!(!serialized.contains("reasoning-id"));
}

#[test]
fn semantic_transcript_flushes_orphan_tool_calls_in_source_order() {
    let cold_history = vec![
        ResponseItem::new(ItemBody::FunctionCall { name: "first_tool".to_string(), namespace: None, arguments: "{}".to_string(), call_id: "call_first".to_string() }),
        ResponseItem::new(ItemBody::FunctionCall { name: "second_tool".to_string(), namespace: None, arguments: "{}".to_string(), call_id: "call_second".to_string() }),
    ];

    let transcript = render_semantic_transcript(&model(), &cold_history, 10_000).expect("render transcript");

    let serialized = format!("{:?}", transcript.items);
    let first = serialized.find("first_tool").expect("first tool present");
    let second = serialized.find("second_tool").expect("second tool present");
    assert!(
        first < second,
        "orphan calls should retain source order: {serialized}"
    );
    assert!(!serialized.contains("call_first"));
    assert!(!serialized.contains("call_second"));
}
