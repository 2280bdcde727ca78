use codex_core::item::{ContentItem, ItemBody, MessagePhase, ResponseItem};
use codex_core::marker_model::{MarkerModel, MarkerPair};
use codex_core::stream::{
    collect_compaction_output, collect_rollctx_pair_summary_text, CompactError, ResponseEvent,
    TokenUsage,
};

fn pair(start: &str, end: &str) -> MarkerPair {
    MarkerPair { start: start.to_string(), end: end.to_string() }
}

fn model() -> MarkerModel {
    MarkerModel {
        developer_markers: vec![
            pair("<permissions instructions>", ""),
            pair("<token_budget>", ""),
            pair("<apps_instructions>", ""),
            pair("<plugins_instructions>", ""),
        ],
        user_markers: vec![pair("<skill>", "</skill>")],
        environment: pair("<environment_context>", "</environment_context>"),
        instructions: pair("# AGENTS.md instructions for ", "</INSTRUCTIONS>"),
        hook_prompt: pair("<hook_prompt", "</hook_prompt>"),
        delegation: pair("{\"author\":", "}"),
        item_overhead_tokens: 10,
        summary_prefix: "Another language model started to solve this problem.".to_string(),
        code_tool_name: "exec".to_string(),
    }
}

fn message(role: &str, text: &str, phase: Option<MessagePhase>) -> ResponseItem {
    ResponseItem::new(ItemBody::Message {
        role: role.to_string(),
        content: vec![ContentItem::InputText { text: text.to_string() }],
        phase,
    })
}

fn usage() -> TokenUsage {
    TokenUsage {
        input_tokens: 123_456,
        cached_input_tokens: 7_890,
        output_tokens: 42,
        reasoning_output_tokens: 5,
        total_tokens: 123_498,
    }
}

fn error_text(error: &CompactError) -> &str {
    match error {
        CompactError::Fatal(message) | CompactError::Stream(message) => message,
        other => panic!("unexpected error: {other:?}"),
    }
}

#[test]
fn collect_compaction_output_accepts_additional_output_items() {
    let compaction = ResponseItem::new(ItemBody::Compaction {
        encrypted_content: "encrypted".to_string(),
    });
    let output = collect_compaction_output(vec![
        ResponseEvent::OutputItemDone(message(
            "assistant",
            "IGNORED_COMPACT_REPLY",
            Some(MessagePhase::FinalAnswer),
        )),
        ResponseEvent::OutputItemDone(compaction.clone()),
        ResponseEvent::Completed { token_usage: Some(usage()) },
    ])
    .expect("compaction should be collected");

    assert_eq!(output.compaction_output, compaction);
    assert_eq!(output.token_usage, Some(usage()));
}

#[test]
fn compaction_needs_exactly_one_output() {
    let none = collect_compaction_output(vec![
        ResponseEvent::OutputItemDone(message("assistant", "text", None)),
        ResponseEvent::Completed { token_usage: None },
    ])
    .expect_err("no compaction item");
    assert_eq!(
        error_text(&none),
        "remote compaction v2 expected exactly one compaction output item, got 0 from 1 output items"
    );

    let open = collect_compaction_output(vec![ResponseEvent::OutputItemDone(ResponseItem::new(
        ItemBody::Compaction { encrypted_content: "encrypted".to_string() },
    ))])
    .expect_err("the stream did not end");
    assert_eq!(
        error_text(&open),
        "remote compaction v2 stream closed before response.completed"
    );
}

#[test]
fn events_after_the_end_do_not_count() {
    let compaction = ResponseItem::new(ItemBody::Compaction {
        encrypted_content: "encrypted".to_string(),
    });
    let output = collect_compaction_output(vec![
        ResponseEvent::OutputItemDone(compaction.clone()),
        ResponseEvent::Completed { token_usage: None },
        ResponseEvent::OutputItemDone(compaction.clone()),
    ])
    .expect("only one compaction came before the end");
    assert_eq!(output.compaction_output, compaction);
}

#[test]
fn returns_assistant_text() {
    let text = collect_rollctx_pair_summary_text(&model(), vec![
        ResponseEvent::Other,
        ResponseEvent::OutputTextDelta("standing facts".to_string()),
        ResponseEvent::Completed { token_usage: None },
    ])
    .expect("summary text should be collected");

    assert_eq!(text, "standing facts");
}

#[test]
fn rejects_tool_items() {
    let err = collect_rollctx_pair_summary_text(&model(), vec![
        ResponseEvent::OutputItemDone(ResponseItem::new(ItemBody::FunctionCall {
            name: "shell_command".to_string(),
            namespace: None,
            arguments: "{}".to_string(),
            call_id: "call-1".to_string(),
        })),
        ResponseEvent::Completed { token_usage: None },
    ])
    .expect_err("tool items must be rejected");

    assert!(
        error_text(&err).contains("rollctx pair-summary received unexpected output item"),
        "unexpected error: {err:?}"
    );
    assert!(
        error_text(&err).ends_with(
            "{\"type\":\"function_call\",\"name\":\"shell_command\",\"arguments\":\"{}\",\"call_id\":\"call-1\"}"
        ),
        "the error shows the item: {err:?}"
    );
}

#[test]
fn rejects_stream_without_completion() {
    let err = collect_rollctx_pair_summary_text(&model(), vec![ResponseEvent::OutputTextDelta(
        "partial".to_string(),
    )])
    .expect_err("missing response.completed must fail");

    assert!(
        error_text(&err).contains("stream closed before response.completed"),
        "unexpected error: {err:?}"
    );
}

#[test]
fn pair_summary_falls_back_on_whole_messages() {
    let text = collect_rollctx_pair_summary_text(&model(), vec![
        ResponseEvent::OutputItemDone(message("assistant", "whole ", None)),
        ResponseEvent::OutputItemDone(message("assistant", "message", None)),
        ResponseEvent::Completed { token_usage: None },
    ])
    .expect("messages make up the text");
    assert_eq!(text, "whole message");

    let empty = collect_rollctx_pair_summary_text(&model(), vec![
        ResponseEvent::OutputTextDelta("  ".to_string()),
        ResponseEvent::Completed { token_usage: None },
    ])
    .expect_err("a blank summary is none");
    assert_eq!(error_text(&empty), "rollctx pair-summary produced empty assistant text");
}
