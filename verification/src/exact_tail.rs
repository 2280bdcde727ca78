//! Exact-tail compaction: the newest groups of a history stay exactly as they are, the rest is
//! summarised. This file holds its types, budgets and errors.

use crate::item::{item_views, option_view, BodyView, ItemBody, ItemView, ResponseItem};
use crate::rolling_context_filter::same_text;
use crate::rolling_state::{divided, truncating_div};
use crate::session_model::{
    saturating, saturating_add, saturating_sub, SessionModel,
};
use crate::text::{
    contains, debug_quoted, debug_text, occurs_in, signed_decimal, signed_decimal_text,
};
use vstd::prelude::*;
use vstd::string::*;

verus! {

pub const EXACT_TAIL_CONSERVATIVE_SUMMARY_BUDGET_TOKENS: i64 = 16_384;

pub const EXACT_TAIL_REPLACEMENT_OVERHEAD_MARGIN_TOKENS: i64 = 1_024;

pub const EXACT_TAIL_MIN_SAFETY_MARGIN_TOKENS: i64 = 4_096;

pub const EXACT_TAIL_DEFAULT_MAX_MODEL_VISIBLE_ITEM_TOKENS: i64 = 10_000;

pub const EXACT_TAIL_LOCAL_RETAINED_COLD_USER_MESSAGE_BUDGET_TOKENS: i64 = 20_000;

// ---------------------------------------------------------------------------------------------
// Policy.
// ---------------------------------------------------------------------------------------------

pub const TOOL_OUTPUT_ITEM_OVERHEAD_MIN_TOKENS: i64 = 128;

pub const TOOL_OUTPUT_ITEM_OVERHEAD_MAX_TOKENS: i64 = 4_096;

/// A tool output as an item is this part larger than its body: one tenth, at least 128 and at most
/// 4,096 tokens.
pub open spec fn item_overhead(body_token_limit: i64) -> int {
    let share = body_token_limit / 10;
    if share < TOOL_OUTPUT_ITEM_OVERHEAD_MIN_TOKENS {
        TOOL_OUTPUT_ITEM_OVERHEAD_MIN_TOKENS as int
    } else if share > TOOL_OUTPUT_ITEM_OVERHEAD_MAX_TOKENS {
        TOOL_OUTPUT_ITEM_OVERHEAD_MAX_TOKENS as int
    } else {
        share as int
    }
}

/// The limit on an item whose body is limited to `body_token_limit` tokens.
pub open spec fn output_item_limit(body_token_limit: i64) -> i64 {
    if body_token_limit <= 0 {
        body_token_limit
    } else {
        saturating(body_token_limit + item_overhead(body_token_limit))
    }
}

pub fn model_visible_tool_output_item_token_limit(body_token_limit: i64) -> (r: i64)
    ensures
        r == output_item_limit(body_token_limit),
{
    if body_token_limit <= 0 {
        return body_token_limit;
    }
    let share: i64 = body_token_limit / 10;
    let overhead: i64 = if share < TOOL_OUTPUT_ITEM_OVERHEAD_MIN_TOKENS {
        TOOL_OUTPUT_ITEM_OVERHEAD_MIN_TOKENS
    } else if share > TOOL_OUTPUT_ITEM_OVERHEAD_MAX_TOKENS {
        TOOL_OUTPUT_ITEM_OVERHEAD_MAX_TOKENS
    } else {
        share
    };
    saturating_add(body_token_limit, overhead)
}

/// The item limit for a truncation policy with the given token budget.
pub fn model_visible_tool_output_item_token_limit_for_policy(token_budget: usize) -> (r: i64)
    ensures
        r == output_item_limit(saturating(token_budget as int)),
{
    let body: i64 = if token_budget as u64 <= i64::MAX as u64 {
        token_budget as i64
    } else {
        i64::MAX
    };
    model_visible_tool_output_item_token_limit(body)
}

/// What the configuration says about compaction.
#[derive(Clone, Copy, Debug, PartialEq, Eq, Structural)]
pub struct CompactionConfig {
    /// How many tokens of the newest history stay exact; none or zero turns this off.
    pub compact_preserve_recent_tokens: Option<i64>,
    /// The configured limit on the body of a tool output.
    pub tool_output_token_limit: Option<usize>,
    pub compact_exact_tail_strategy: CompactExactTailStrategy,
    /// The feature that routes compaction through the second remote protocol.
    pub remote_compaction_v2: bool,
    /// Whether a layer that the user or the project wrote turns that feature on.
    pub remote_compaction_v2_explicit: bool,
}

#[derive(Clone, Copy, Debug, PartialEq, Eq, Structural)]
pub enum CompactExactTailStrategy {
    Auto,
    RemoteLegacy,
    RemoteV2,
    SemanticTranscript,
}

/// How a history is compacted.
#[derive(Clone, Copy, Debug, Eq, PartialEq, Structural)]
pub enum CompactionHistoryPolicy {
    Standard,
    PreserveRecentExact { target_tokens: i64, max_model_visible_item_tokens: i64 },
}

/// The item limit that the configuration gives.
pub open spec fn configured_item_limit(config: CompactionConfig) -> i64 {
    match config.tool_output_token_limit {
        Some(tokens) => if 0 < tokens <= i64::MAX {
            output_item_limit(tokens as i64)
        } else {
            EXACT_TAIL_DEFAULT_MAX_MODEL_VISIBLE_ITEM_TOKENS
        },
        None => EXACT_TAIL_DEFAULT_MAX_MODEL_VISIBLE_ITEM_TOKENS,
    }
}

pub fn max_model_visible_item_tokens(config: &CompactionConfig) -> (r: i64)
    ensures
        r == configured_item_limit(*config),
{
    match config.tool_output_token_limit {
        Some(tokens) => if 0 < tokens && tokens as u64 <= i64::MAX as u64 {
            model_visible_tool_output_item_token_limit(tokens as i64)
        } else {
            EXACT_TAIL_DEFAULT_MAX_MODEL_VISIBLE_ITEM_TOKENS
        },
        None => EXACT_TAIL_DEFAULT_MAX_MODEL_VISIBLE_ITEM_TOKENS,
    }
}

pub open spec fn policy_of(config: CompactionConfig) -> CompactionHistoryPolicy {
    match config.compact_preserve_recent_tokens {
        Some(target_tokens) => if target_tokens > 0 {
            CompactionHistoryPolicy::PreserveRecentExact {
                target_tokens,
                max_model_visible_item_tokens: configured_item_limit(config),
            }
        } else {
            CompactionHistoryPolicy::Standard
        },
        None => CompactionHistoryPolicy::Standard,
    }
}

impl CompactionHistoryPolicy {
    pub fn from_config(config: &CompactionConfig) -> (r: Self)
        ensures
            r == policy_of(*config),
    {
        match config.compact_preserve_recent_tokens {
            Some(target_tokens) => if target_tokens > 0 {
                CompactionHistoryPolicy::PreserveRecentExact {
                    target_tokens,
                    max_model_visible_item_tokens: max_model_visible_item_tokens(config),
                }
            } else {
                CompactionHistoryPolicy::Standard
            },
            None => CompactionHistoryPolicy::Standard,
        }
    }
}

/// Who writes the summary.
#[derive(Clone, Copy, Debug, Eq, PartialEq, Structural)]
pub enum ExactTailImplementation {
    Local,
    RemoteLegacy,
    RemoteV2,
    SemanticTranscript,
}

impl ExactTailImplementation {
    pub open spec fn name(self) -> Seq<char> {
        match self {
            ExactTailImplementation::Local => "local"@,
            ExactTailImplementation::RemoteLegacy => "remote_legacy"@,
            ExactTailImplementation::RemoteV2 => "remote_v2"@,
            ExactTailImplementation::SemanticTranscript => "semantic_transcript"@,
        }
    }

    pub fn as_str(self) -> (r: &'static str)
        ensures
            r@ == self.name(),
    {
        match self {
            ExactTailImplementation::Local => "local",
            ExactTailImplementation::RemoteLegacy => "remote_legacy",
            ExactTailImplementation::RemoteV2 => "remote_v2",
            ExactTailImplementation::SemanticTranscript => "semantic_transcript",
        }
    }
}

// ---------------------------------------------------------------------------------------------
// Errors.
// ---------------------------------------------------------------------------------------------

#[derive(Clone, Copy, Debug, Eq, PartialEq, Structural)]
pub enum ExactTailFailReason {
    BudgetUnavailable,
    NoColdPrefix,
    MinimumHotSuffixTooLarge,
    ReplacementTooLarge,
    ColdInputMismatch,
    ColdInputTooLarge,
    NoUsableColdSummary,
    ModelVisibleItemTooLarge,
    BackendContextExceeded,
    HotSuffixItemIdMissing,
    HotSuffixMismatch,
}

impl ExactTailFailReason {
    pub open spec fn name(self) -> Seq<char> {
        match self {
            ExactTailFailReason::BudgetUnavailable => "ExactTailBudgetUnavailable"@,
            ExactTailFailReason::NoColdPrefix => "ExactTailNoColdPrefix"@,
            ExactTailFailReason::MinimumHotSuffixTooLarge => "ExactTailMinimumHotSuffixTooLarge"@,
            ExactTailFailReason::ReplacementTooLarge => "ExactTailReplacementTooLarge"@,
            ExactTailFailReason::ColdInputMismatch => "ExactTailColdInputMismatch"@,
            ExactTailFailReason::ColdInputTooLarge => "ExactTailColdInputTooLarge"@,
            ExactTailFailReason::NoUsableColdSummary => "ExactTailNoUsableColdSummary"@,
            ExactTailFailReason::ModelVisibleItemTooLarge => "ExactTailModelVisibleItemTooLarge"@,
            ExactTailFailReason::BackendContextExceeded => "ExactTailBackendContextExceeded"@,
            ExactTailFailReason::HotSuffixItemIdMissing => "ExactTailHotSuffixItemIdMissing"@,
            ExactTailFailReason::HotSuffixMismatch => "ExactTailHotSuffixMismatch"@,
        }
    }

    pub fn as_str(self) -> (r: &'static str)
        ensures
            r@ == self.name(),
    {
        match self {
            ExactTailFailReason::BudgetUnavailable => "ExactTailBudgetUnavailable",
            ExactTailFailReason::NoColdPrefix => "ExactTailNoColdPrefix",
            ExactTailFailReason::MinimumHotSuffixTooLarge => "ExactTailMinimumHotSuffixTooLarge",
            ExactTailFailReason::ReplacementTooLarge => "ExactTailReplacementTooLarge",
            ExactTailFailReason::ColdInputMismatch => "ExactTailColdInputMismatch",
            ExactTailFailReason::ColdInputTooLarge => "ExactTailColdInputTooLarge",
            ExactTailFailReason::NoUsableColdSummary => "ExactTailNoUsableColdSummary",
            ExactTailFailReason::ModelVisibleItemTooLarge => "ExactTailModelVisibleItemTooLarge",
            ExactTailFailReason::BackendContextExceeded => "ExactTailBackendContextExceeded",
            ExactTailFailReason::HotSuffixItemIdMissing => "ExactTailHotSuffixItemIdMissing",
            ExactTailFailReason::HotSuffixMismatch => "ExactTailHotSuffixMismatch",
        }
    }
}

/// What an item is to the model.
#[derive(Clone, Copy, Debug, Eq, PartialEq, Structural)]
pub enum ExactTailModelVisibleItemKind {
    Message,
    AgentMessage,
    Reasoning,
    LocalShellCall,
    FunctionCall,
    ToolSearchCall,
    FunctionCallOutput,
    ToolSearchOutput,
    CustomToolCall,
    CustomToolCallOutput,
    WebSearchCall,
    ImageGenerationCall,
    Compaction,
    CompactionTrigger,
    ContextCompaction,
    Other,
}

impl ExactTailModelVisibleItemKind {
    pub open spec fn name(self) -> Seq<char> {
        match self {
            ExactTailModelVisibleItemKind::Message => "message"@,
            ExactTailModelVisibleItemKind::AgentMessage => "agent_message"@,
            ExactTailModelVisibleItemKind::Reasoning => "reasoning"@,
            ExactTailModelVisibleItemKind::LocalShellCall => "local_shell_call"@,
            ExactTailModelVisibleItemKind::FunctionCall => "function_call"@,
            ExactTailModelVisibleItemKind::ToolSearchCall => "tool_search_call"@,
            ExactTailModelVisibleItemKind::FunctionCallOutput => "function_call_output"@,
            ExactTailModelVisibleItemKind::ToolSearchOutput => "tool_search_output"@,
            ExactTailModelVisibleItemKind::CustomToolCall => "custom_tool_call"@,
            ExactTailModelVisibleItemKind::CustomToolCallOutput => "custom_tool_call_output"@,
            ExactTailModelVisibleItemKind::WebSearchCall => "web_search_call"@,
            ExactTailModelVisibleItemKind::ImageGenerationCall => "image_generation_call"@,
            ExactTailModelVisibleItemKind::Compaction => "compaction"@,
            ExactTailModelVisibleItemKind::CompactionTrigger => "compaction_trigger"@,
            ExactTailModelVisibleItemKind::ContextCompaction => "context_compaction"@,
            ExactTailModelVisibleItemKind::Other => "other"@,
        }
    }

    pub fn as_str(self) -> (r: &'static str)
        ensures
            r@ == self.name(),
    {
        match self {
            ExactTailModelVisibleItemKind::Message => "message",
            ExactTailModelVisibleItemKind::AgentMessage => "agent_message",
            ExactTailModelVisibleItemKind::Reasoning => "reasoning",
            ExactTailModelVisibleItemKind::LocalShellCall => "local_shell_call",
            ExactTailModelVisibleItemKind::FunctionCall => "function_call",
            ExactTailModelVisibleItemKind::ToolSearchCall => "tool_search_call",
            ExactTailModelVisibleItemKind::FunctionCallOutput => "function_call_output",
            ExactTailModelVisibleItemKind::ToolSearchOutput => "tool_search_output",
            ExactTailModelVisibleItemKind::CustomToolCall => "custom_tool_call",
            ExactTailModelVisibleItemKind::CustomToolCallOutput => "custom_tool_call_output",
            ExactTailModelVisibleItemKind::WebSearchCall => "web_search_call",
            ExactTailModelVisibleItemKind::ImageGenerationCall => "image_generation_call",
            ExactTailModelVisibleItemKind::Compaction => "compaction",
            ExactTailModelVisibleItemKind::CompactionTrigger => "compaction_trigger",
            ExactTailModelVisibleItemKind::ContextCompaction => "context_compaction",
            ExactTailModelVisibleItemKind::Other => "other",
        }
    }
}

pub open spec fn kind_of(item: ItemView) -> ExactTailModelVisibleItemKind {
    match item.body {
        BodyView::Message { .. } => ExactTailModelVisibleItemKind::Message,
        BodyView::AgentMessage { .. } => ExactTailModelVisibleItemKind::AgentMessage,
        BodyView::Reasoning { .. } => ExactTailModelVisibleItemKind::Reasoning,
        BodyView::LocalShellCall { .. } => ExactTailModelVisibleItemKind::LocalShellCall,
        BodyView::FunctionCall { .. } => ExactTailModelVisibleItemKind::FunctionCall,
        BodyView::ToolSearchCall { .. } => ExactTailModelVisibleItemKind::ToolSearchCall,
        BodyView::FunctionCallOutput { .. } => ExactTailModelVisibleItemKind::FunctionCallOutput,
        BodyView::ToolSearchOutput { .. } => ExactTailModelVisibleItemKind::ToolSearchOutput,
        BodyView::CustomToolCall { .. } => ExactTailModelVisibleItemKind::CustomToolCall,
        BodyView::CustomToolCallOutput { .. } => {
            ExactTailModelVisibleItemKind::CustomToolCallOutput
        },
        BodyView::WebSearchCall { .. } => ExactTailModelVisibleItemKind::WebSearchCall,
        BodyView::ImageGenerationCall { .. } => ExactTailModelVisibleItemKind::ImageGenerationCall,
        BodyView::Compaction { .. } => ExactTailModelVisibleItemKind::Compaction,
        BodyView::CompactionTrigger => ExactTailModelVisibleItemKind::CompactionTrigger,
        BodyView::ContextCompaction { .. } => ExactTailModelVisibleItemKind::ContextCompaction,
        BodyView::Other => ExactTailModelVisibleItemKind::Other,
    }
}

pub fn model_visible_item_kind(item: &ResponseItem) -> (r: ExactTailModelVisibleItemKind)
    ensures
        r == kind_of(item@),
{
    match &item.body {
        ItemBody::Message { .. } => ExactTailModelVisibleItemKind::Message,
        ItemBody::AgentMessage { .. } => ExactTailModelVisibleItemKind::AgentMessage,
        ItemBody::Reasoning { .. } => ExactTailModelVisibleItemKind::Reasoning,
        ItemBody::LocalShellCall { .. } => ExactTailModelVisibleItemKind::LocalShellCall,
        ItemBody::FunctionCall { .. } => ExactTailModelVisibleItemKind::FunctionCall,
        ItemBody::ToolSearchCall { .. } => ExactTailModelVisibleItemKind::ToolSearchCall,
        ItemBody::FunctionCallOutput { .. } => ExactTailModelVisibleItemKind::FunctionCallOutput,
        ItemBody::ToolSearchOutput { .. } => ExactTailModelVisibleItemKind::ToolSearchOutput,
        ItemBody::CustomToolCall { .. } => ExactTailModelVisibleItemKind::CustomToolCall,
        ItemBody::CustomToolCallOutput { .. } => {
            ExactTailModelVisibleItemKind::CustomToolCallOutput
        },
        ItemBody::WebSearchCall { .. } => ExactTailModelVisibleItemKind::WebSearchCall,
        ItemBody::ImageGenerationCall { .. } => ExactTailModelVisibleItemKind::ImageGenerationCall,
        ItemBody::Compaction { .. } => ExactTailModelVisibleItemKind::Compaction,
        ItemBody::CompactionTrigger => ExactTailModelVisibleItemKind::CompactionTrigger,
        ItemBody::ContextCompaction { .. } => ExactTailModelVisibleItemKind::ContextCompaction,
        ItemBody::Other => ExactTailModelVisibleItemKind::Other,
    }
}

/// An optional call id as it is shown: the quoted id in `Some(..)`, or `None`.
pub open spec fn shown_call_id(call_id: Option<Seq<char>>) -> Seq<char> {
    match call_id {
        Some(id) => "Some("@ + debug_quoted(id) + ")"@,
        None => "None"@,
    }
}

/// ` id=...` where the item has an id.
pub open spec fn shown_id(item: ItemView) -> Seq<char> {
    match item.id {
        Some(id) => " id="@ + id,
        None => Seq::empty(),
    }
}

/// How an error names an item: its kind, and what tells it apart from others of the kind.
pub open spec fn item_label(item: ItemView) -> Seq<char> {
    let kind = kind_of(item).name();
    match item.body {
        BodyView::Message { role, content, phase } => kind + " role="@ + role,
        BodyView::FunctionCall { name, namespace, arguments, call_id } => kind + " name="@ + name
            + " call_id="@ + call_id,
        BodyView::CustomToolCall { status, call_id, name, input } => kind + " name="@ + name
            + " call_id="@ + call_id,
        BodyView::FunctionCallOutput { call_id, output } => kind + " call_id="@ + call_id,
        BodyView::CustomToolCallOutput { call_id, name, output } => kind + " call_id="@ + call_id,
        BodyView::ToolSearchCall { call_id, status, execution, arguments } => kind + shown_id(item)
            + " call_id="@ + shown_call_id(call_id),
        BodyView::ToolSearchOutput { call_id, status, execution, tools } => kind + shown_id(item)
            + " call_id="@ + shown_call_id(call_id),
        BodyView::LocalShellCall { call_id, status, action } => kind + shown_id(item)
            + " call_id="@ + shown_call_id(call_id),
        _ => kind + shown_id(item),
    }
}

fn append_id(label: &mut String, item: &ResponseItem)
    ensures
        final(label)@ == old(label)@ + shown_id(item@),
{
    match &item.id {
        Some(id) => {
            let ghost before = label@;
            label.append(" id=");
            label.append(id.as_str());
            assert(label@ =~= before + shown_id(item@));
        },
        None => {
            assert(label@ =~= label@ + shown_id(item@));
        },
    }
}

fn append_call_id(label: &mut String, call_id: &Option<String>)
    ensures
        final(label)@ == old(label)@ + " call_id="@ + shown_call_id(option_view(*call_id)),
{
    let ghost before = label@;
    label.append(" call_id=");
    match call_id {
        Some(id) => {
            label.append("Some(");
            label.append(debug_text(id.as_str()).as_str());
            label.append(")");
            assert(label@ =~= before + " call_id="@ + shown_call_id(option_view(*call_id)));
        },
        None => {
            label.append("None");
        },
    }
}

pub fn model_visible_item_label(item: &ResponseItem) -> (label: String)
    ensures
        label@ == item_label(item@),
{
    let mut label = String::from_str(model_visible_item_kind(item).as_str());
    match &item.body {
        ItemBody::Message { role, content: _, phase: _ } => {
            label.append(" role=");
            label.append(role.as_str());
        },
        ItemBody::FunctionCall { name, namespace: _, arguments: _, call_id } => {
            label.append(" name=");
            label.append(name.as_str());
            label.append(" call_id=");
            label.append(call_id.as_str());
        },
        ItemBody::CustomToolCall { status: _, call_id, name, input: _ } => {
            label.append(" name=");
            label.append(name.as_str());
            label.append(" call_id=");
            label.append(call_id.as_str());
        },
        ItemBody::FunctionCallOutput { call_id, output: _ } => {
            label.append(" call_id=");
            label.append(call_id.as_str());
        },
        ItemBody::CustomToolCallOutput { call_id, name: _, output: _ } => {
            label.append(" call_id=");
            label.append(call_id.as_str());
        },
        ItemBody::ToolSearchCall { call_id, status: _, execution: _, arguments: _ } => {
            append_id(&mut label, item);
            append_call_id(&mut label, call_id);
        },
        ItemBody::ToolSearchOutput { call_id, status: _, execution: _, tools: _ } => {
            append_id(&mut label, item);
            append_call_id(&mut label, call_id);
        },
        ItemBody::LocalShellCall { call_id, status: _, action: _ } => {
            append_id(&mut label, item);
            append_call_id(&mut label, call_id);
        },
        _ => {
            append_id(&mut label, item);
        },
    }
    label
}

/// The limit that an item broke.
#[derive(Clone, Copy, Debug, Eq, PartialEq, Structural)]
pub struct ExactTailModelVisibleItemLimit {
    pub item_kind: ExactTailModelVisibleItemKind,
    pub item_tokens: i64,
    pub max_item_tokens: i64,
}

#[derive(Debug)]
pub struct ExactTailError {
    pub reason: ExactTailFailReason,
    pub message: String,
    pub model_visible_item_limit: Option<ExactTailModelVisibleItemLimit>,
}

pub struct ErrorView {
    pub reason: ExactTailFailReason,
    pub message: Seq<char>,
    pub model_visible_item_limit: Option<ExactTailModelVisibleItemLimit>,
}

impl View for ExactTailError {
    type V = ErrorView;

    open spec fn view(&self) -> ErrorView {
        ErrorView {
            reason: self.reason,
            message: self.message@,
            model_visible_item_limit: self.model_visible_item_limit,
        }
    }
}

pub open spec fn plain_error(reason: ExactTailFailReason, message: Seq<char>) -> ErrorView {
    ErrorView { reason, message, model_visible_item_limit: None }
}

/// The message as it is reported: it names the reason.
pub open spec fn reported(error: ErrorView) -> Seq<char> {
    if occurs_in(error.message, error.reason.name()) {
        error.message
    } else {
        error.reason.name() + ": "@ + error.message
    }
}

impl ExactTailError {
    pub fn new(reason: ExactTailFailReason, message: String) -> (r: Self)
        ensures
            r@ == plain_error(reason, message@),
    {
        ExactTailError { reason, message, model_visible_item_limit: None }
    }

    pub fn with_model_visible_item_limit(self, limit: ExactTailModelVisibleItemLimit) -> (r: Self)
        ensures
            r@ == (ErrorView { model_visible_item_limit: Some(limit), ..self@ }),
    {
        ExactTailError {
            reason: self.reason,
            message: self.message,
            model_visible_item_limit: Some(limit),
        }
    }

    /// The message for the session, which names the reason.
    pub fn into_message(self) -> (message: String)
        ensures
            message@ == reported(self@),
    {
        let reason = self.reason.as_str();
        if contains(self.message.as_str(), reason) {
            self.message
        } else {
            let mut message = String::from_str(reason);
            message.append(": ");
            message.append(self.message.as_str());
            message
        }
    }
}

/// The message on a cold input that does not fit the model's window.
pub open spec fn cold_input_too_large(request_tokens: i64, context_window: i64) -> Seq<char> {
    ExactTailFailReason::ColdInputTooLarge.name()
        + ": exact-tail compaction request estimates to "@ + signed_decimal(request_tokens as int)
        + " tokens, exceeding context window "@ + signed_decimal(context_window as int)
        + "; pruning cold input would lose coverage"@
}

pub fn exact_tail_cold_input_too_large_error(request_tokens: i64, context_window: i64) -> (message:
    String)
    ensures
        message@ == cold_input_too_large(request_tokens, context_window),
{
    let mut message = String::from_str(ExactTailFailReason::ColdInputTooLarge.as_str());
    message.append(": exact-tail compaction request estimates to ");
    message.append(signed_decimal_text(request_tokens).as_str());
    message.append(" tokens, exceeding context window ");
    message.append(signed_decimal_text(context_window).as_str());
    message.append("; pruning cold input would lose coverage");
    message
}

/// The message on a request that the backend refused for its size.
pub open spec fn backend_context_exceeded() -> Seq<char> {
    ExactTailFailReason::BackendContextExceeded.name()
        + ": exact-tail compaction request exceeded the backend context window and cannot be pruned without losing cold coverage."@
}

pub fn exact_tail_backend_context_exceeded_error() -> (message: String)
    ensures
        message@ == backend_context_exceeded(),
{
    let mut message = String::from_str(ExactTailFailReason::BackendContextExceeded.as_str());
    message.append(
        ": exact-tail compaction request exceeded the backend context window and cannot be pruned without losing cold coverage.",
    );
    message
}

// ---------------------------------------------------------------------------------------------
// Budgets.
// ---------------------------------------------------------------------------------------------

/// What set a compaction off.
#[derive(Clone, Copy, Debug, Eq, PartialEq, Structural)]
pub enum CompactionTrigger {
    Manual,
    Auto,
}

/// What the limit for automatic compaction counts.
#[derive(Clone, Copy, Debug, Eq, PartialEq, Structural)]
pub enum AutoCompactTokenLimitScope {
    Total,
    BodyAfterPrefix,
}

#[derive(Clone, Copy, Debug, Eq, PartialEq, Structural)]
pub struct ExactTailBudgetReservation {
    pub conservative_cold_summary_budget: i64,
    pub safety_margin: i64,
    pub available_for_hot: i64,
}

/// What is set aside for the summary: its own budget, its wrapping, the kept user messages and a
/// margin.
pub open spec fn summary_reserve(scaffold: i64, retained: i64) -> i64 {
    saturating(
        saturating(
            saturating(EXACT_TAIL_CONSERVATIVE_SUMMARY_BUDGET_TOKENS + scaffold) + retained,
        ) + EXACT_TAIL_REPLACEMENT_OVERHEAD_MARGIN_TOKENS,
    )
}

/// One percent of the budget, at least 4,096 tokens.
pub open spec fn safety_reserve(budget: i64) -> i64 {
    let share = truncating_div(budget as int, 100);
    if share > EXACT_TAIL_MIN_SAFETY_MARGIN_TOKENS {
        share as i64
    } else {
        EXACT_TAIL_MIN_SAFETY_MARGIN_TOKENS
    }
}

pub open spec fn reservation(
    budget: i64,
    required_context: i64,
    scaffold: i64,
    retained: i64,
) -> ExactTailBudgetReservation {
    ExactTailBudgetReservation {
        conservative_cold_summary_budget: summary_reserve(scaffold, retained),
        safety_margin: safety_reserve(budget),
        available_for_hot: saturating(
            saturating(
                saturating(budget - required_context) - summary_reserve(scaffold, retained),
            ) - safety_reserve(budget),
        ),
    }
}

pub fn exact_tail_budget_reservation(
    effective_replacement_budget: i64,
    required_current_context_budget: i64,
    estimated_summary_scaffold_overhead_tokens: i64,
    retained_cold_user_message_budget_tokens: i64,
) -> (r: ExactTailBudgetReservation)
    ensures
        r == reservation(
            effective_replacement_budget,
            required_current_context_budget,
            estimated_summary_scaffold_overhead_tokens,
            retained_cold_user_message_budget_tokens,
        ),
{
    let summary: i64 = saturating_add(
        saturating_add(
            saturating_add(
                EXACT_TAIL_CONSERVATIVE_SUMMARY_BUDGET_TOKENS,
                estimated_summary_scaffold_overhead_tokens,
            ),
            retained_cold_user_message_budget_tokens,
        ),
        EXACT_TAIL_REPLACEMENT_OVERHEAD_MARGIN_TOKENS,
    );
    let share: i64 = divided(effective_replacement_budget, 100);
    let safety: i64 = if share > EXACT_TAIL_MIN_SAFETY_MARGIN_TOKENS {
        share
    } else {
        EXACT_TAIL_MIN_SAFETY_MARGIN_TOKENS
    };
    ExactTailBudgetReservation {
        conservative_cold_summary_budget: summary,
        safety_margin: safety,
        available_for_hot: saturating_sub(
            saturating_sub(
                saturating_sub(effective_replacement_budget, required_current_context_budget),
                summary,
            ),
            safety,
        ),
    }
}

/// The budget of a replacement history: for a manual compaction the window; for an automatic one
/// the limit that set it off, as far as that counts the whole prompt.
pub open spec fn replacement_budget(
    window: Option<i64>,
    limit: Option<i64>,
    scope: AutoCompactTokenLimitScope,
    trigger: CompactionTrigger,
) -> Option<i64> {
    match (trigger, scope, limit, window) {
        (CompactionTrigger::Manual, _, _, w) => w,
        (CompactionTrigger::Auto, AutoCompactTokenLimitScope::Total, Some(l), Some(w)) => Some(
            if l <= w {
                l
            } else {
                w
            },
        ),
        (CompactionTrigger::Auto, AutoCompactTokenLimitScope::Total, Some(l), None) => Some(l),
        (CompactionTrigger::Auto, AutoCompactTokenLimitScope::Total, None, w) => w,
        (CompactionTrigger::Auto, AutoCompactTokenLimitScope::BodyAfterPrefix, l, None) => l,
        (CompactionTrigger::Auto, AutoCompactTokenLimitScope::BodyAfterPrefix, _, Some(w)) => Some(
            w,
        ),
    }
}

pub fn exact_tail_replacement_budget(
    model_context_window: Option<i64>,
    model_auto_compact_token_limit: Option<i64>,
    model_auto_compact_token_limit_scope: AutoCompactTokenLimitScope,
    trigger: CompactionTrigger,
) -> (r: Option<i64>)
    ensures
        r == replacement_budget(
            model_context_window,
            model_auto_compact_token_limit,
            model_auto_compact_token_limit_scope,
            trigger,
        ),
{
    match trigger {
        CompactionTrigger::Manual => model_context_window,
        CompactionTrigger::Auto => match model_auto_compact_token_limit_scope {
            AutoCompactTokenLimitScope::Total => match (
                model_auto_compact_token_limit,
                model_context_window,
            ) {
                (Some(limit), Some(window)) => Some(
                    if limit <= window {
                        limit
                    } else {
                        window
                    },
                ),
                (Some(limit), None) => Some(limit),
                (None, window) => window,
            },
            AutoCompactTokenLimitScope::BodyAfterPrefix => match model_context_window {
                Some(window) => Some(window),
                None => model_auto_compact_token_limit,
            },
        },
    }
}

/// A remote service that returns the replacement itself needs no wrapping for its summary.
pub fn remote_legacy_summary_scaffold_overhead_tokens() -> (r: i64)
    ensures
        r == 0,
{
    0
}

// ---------------------------------------------------------------------------------------------
// Kinds of history items.
// ---------------------------------------------------------------------------------------------

#[derive(Clone, Copy, Debug, Eq, PartialEq, Structural)]
pub enum ExactTailItemClass {
    ConversationOrProtocol,
    DependencyProtocol,
    StaleContextWrapper,
    MixedDeveloperContext,
    Unsupported,
}

/// What an item is to exact-tail compaction.
pub open spec fn class_of<M: SessionModel>(model: M, item: ItemView) -> ExactTailItemClass {
    match item.body {
        BodyView::Message { role, content, phase } => if role == "developer"@ {
            if model.spec_contextual_developer(content) {
                if model.spec_non_contextual_developer(content) {
                    ExactTailItemClass::MixedDeveloperContext
                } else {
                    ExactTailItemClass::StaleContextWrapper
                }
            } else {
                ExactTailItemClass::ConversationOrProtocol
            }
        } else if role == "user"@ && !model.spec_hook_prompt(item.id, content)
            && model.spec_contextual_user(content) {
            ExactTailItemClass::StaleContextWrapper
        } else {
            ExactTailItemClass::ConversationOrProtocol
        },
        BodyView::AgentMessage { .. }
        | BodyView::Reasoning { .. }
        | BodyView::Compaction { .. }
        | BodyView::ContextCompaction { .. } => ExactTailItemClass::ConversationOrProtocol,
        BodyView::CompactionTrigger => ExactTailItemClass::StaleContextWrapper,
        BodyView::Other => ExactTailItemClass::Unsupported,
        _ => ExactTailItemClass::DependencyProtocol,
    }
}

pub fn classify_exact_tail_history_item<M: SessionModel>(
    model: &M,
    item: &ResponseItem,
) -> (class: ExactTailItemClass)
    ensures
        class == class_of(*model, item@),
{
    match &item.body {
        ItemBody::Message { role, content, phase: _ } => if same_text(role.as_str(), "developer") {
            if model.contextual_developer(content) {
                if model.non_contextual_developer(content) {
                    ExactTailItemClass::MixedDeveloperContext
                } else {
                    ExactTailItemClass::StaleContextWrapper
                }
            } else {
                ExactTailItemClass::ConversationOrProtocol
            }
        } else if same_text(role.as_str(), "user") && !model.hook_prompt(&item.id, content)
            && model.contextual_user(content) {
            ExactTailItemClass::StaleContextWrapper
        } else {
            ExactTailItemClass::ConversationOrProtocol
        },
        ItemBody::AgentMessage { .. }
        | ItemBody::Reasoning { .. }
        | ItemBody::Compaction { .. }
        | ItemBody::ContextCompaction { .. } => ExactTailItemClass::ConversationOrProtocol,
        ItemBody::LocalShellCall { .. }
        | ItemBody::FunctionCall { .. }
        | ItemBody::ToolSearchCall { .. }
        | ItemBody::FunctionCallOutput { .. }
        | ItemBody::ToolSearchOutput { .. }
        | ItemBody::CustomToolCall { .. }
        | ItemBody::CustomToolCallOutput { .. }
        | ItemBody::WebSearchCall { .. }
        | ItemBody::ImageGenerationCall { .. } => ExactTailItemClass::DependencyProtocol,
        ItemBody::CompactionTrigger => ExactTailItemClass::StaleContextWrapper,
        ItemBody::Other => ExactTailItemClass::Unsupported,
    }
}

/// The item counts against the limit on single items: stale context is rebuilt anyway, and a
/// function call is the model's own and stays as the model wrote it.
pub open spec fn limited<M: SessionModel>(model: M, item: ItemView) -> bool {
    class_of(model, item) != ExactTailItemClass::StaleContextWrapper && !(item.body is FunctionCall)
}

/// The item is over the limit.
pub open spec fn too_large<M: SessionModel>(model: M, item: ItemView, limit: i64) -> bool {
    limited(model, item) && model.spec_item_tokens(item) > limit
}

/// The error that an item over the limit gives.
pub open spec fn too_large_error<M: SessionModel>(model: M, item: ItemView, limit: i64) -> ErrorView {
    ErrorView {
        reason: ExactTailFailReason::ModelVisibleItemTooLarge,
        message: ExactTailFailReason::ModelVisibleItemTooLarge.name() + ": exact-tail "@
            + item_label(item) + " estimates to "@ + signed_decimal(
            model.spec_item_tokens(item) as int,
        ) + " tokens, exceeding per-item cap "@ + signed_decimal(limit as int),
        model_visible_item_limit: Some(
            ExactTailModelVisibleItemLimit {
                item_kind: kind_of(item),
                item_tokens: model.spec_item_tokens(item),
                max_item_tokens: limit,
            },
        ),
    }
}

/// The first item, from `from` on, that is over the limit.
pub open spec fn first_too_large<M: SessionModel>(
    model: M,
    items: Seq<ItemView>,
    from: int,
    limit: i64,
) -> Option<ItemView>
    decreases items.len() - from,
{
    if from < 0 || from >= items.len() {
        None
    } else if too_large(model, items[from], limit) {
        Some(items[from])
    } else {
        first_too_large(model, items, from + 1, limit)
    }
}

/// The error that the first item over the limit gives.
pub open spec fn item_limit_error<M: SessionModel>(
    model: M,
    items: Seq<ItemView>,
    limit: i64,
) -> Option<ErrorView> {
    match first_too_large(model, items, 0, limit) {
        Some(item) => Some(too_large_error(model, item, limit)),
        None => None,
    }
}

pub fn ensure_model_visible_items_within_limit<M: SessionModel>(
    model: &M,
    items: &[ResponseItem],
    max_model_visible_item_tokens: i64,
) -> (r: Result<(), ExactTailError>)
    ensures
        match r {
            Ok(_) => item_limit_error(
                *model,
                item_views(items@),
                max_model_visible_item_tokens,
            ) is None,
            Err(error) => item_limit_error(
                *model,
                item_views(items@),
                max_model_visible_item_tokens,
            ) == Some(error@),
        },
{
    let ghost all = item_views(items@);
    let limit: i64 = max_model_visible_item_tokens;
    let mut i: usize = 0;
    while i < items.len()
        invariant
            i <= items@.len(),
            all == item_views(items@),
            limit == max_model_visible_item_tokens,
            first_too_large(*model, all, i as int, limit) == first_too_large(*model, all, 0, limit),
        decreases items@.len() - i,
    {
        let item = &items[i];
        assert(all[i as int] == item@);
        let is_call = match &item.body {
            ItemBody::FunctionCall { .. } => true,
            _ => false,
        };
        if !is_call && classify_exact_tail_history_item(model, item)
            != ExactTailItemClass::StaleContextWrapper {
            let item_tokens: i64 = model.item_tokens(item);
            if item_tokens > limit {
                let mut message = String::from_str(
                    ExactTailFailReason::ModelVisibleItemTooLarge.as_str(),
                );
                message.append(": exact-tail ");
                message.append(model_visible_item_label(item).as_str());
                message.append(" estimates to ");
                message.append(signed_decimal_text(item_tokens).as_str());
                message.append(" tokens, exceeding per-item cap ");
                message.append(signed_decimal_text(limit).as_str());
                let error = ExactTailError::new(
                    ExactTailFailReason::ModelVisibleItemTooLarge,
                    message,
                );
                return Err(
                    error.with_model_visible_item_limit(
                        ExactTailModelVisibleItemLimit {
                            item_kind: model_visible_item_kind(item),
                            item_tokens,
                            max_item_tokens: limit,
                        },
                    ),
                );
            }
        }
        i += 1;
    }
    Ok(())
}

} // verus!
