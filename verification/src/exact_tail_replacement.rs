//! Carrying out an exact-tail plan: preparing it, checking what goes to the summariser, and
//! putting the replacement history together.

use crate::compact::{
    build_compacted_history, compacted_history, compaction_item, last_compaction_index, last_index,
    splice_items, spliced, InitialContextInjection, UserMessageView,
    COMPACT_USER_MESSAGE_MAX_TOKENS,
};
use crate::exact_tail::{
    ensure_model_visible_items_within_limit, exact_tail_replacement_budget, item_limit_error,
    plain_error, replacement_budget, AutoCompactTokenLimitScope, CompactionHistoryPolicy,
    CompactionTrigger, ErrorView, ExactTailError, ExactTailFailReason, ExactTailImplementation,
};
use crate::exact_tail_plan::{
    content_has_summary_text, exact_tail_plan, has_summary_part, plan_exact_tail,
    response_item_is_summary_user_message, summary_user_message, ExactTailDiagnostics,
    ExactTailPlan, ExactTailPlanInput, PlanView,
};
use crate::item::{
    clone_items, clone_option, content_views, item_views, BodyView, ContentItem, ContentView,
    ItemBody, ItemView, ResponseItem,
};
use crate::rolling_context_filter::same_text;
use crate::rolling_projection::with_body;
use crate::rolling_prompt::{estimate_base_instructions_tokens, instruction_tokens};
use crate::session_model::{
    estimate_items_tokens, saturating, saturating_add, total_tokens,
    truncate_function_output_payload, truncated_payload, SessionModel,
};
use crate::text::{blank, is_blank, signed_decimal, signed_decimal_text};
use vstd::prelude::*;
use vstd::string::*;

verus! {

// ---------------------------------------------------------------------------------------------
// Before planning.
// ---------------------------------------------------------------------------------------------

/// The item with its tool output cut down to `tokens` tokens.
pub open spec fn normalized_item<M: SessionModel>(model: M, item: ItemView, tokens: nat) -> ItemView {
    match item.body {
        BodyView::FunctionCallOutput { call_id, output } => with_body(
            item,
            BodyView::FunctionCallOutput {
                call_id,
                output: truncated_payload(model, output, tokens),
            },
        ),
        BodyView::CustomToolCallOutput { call_id, name, output } => with_body(
            item,
            BodyView::CustomToolCallOutput {
                call_id,
                name,
                output: truncated_payload(model, output, tokens),
            },
        ),
        _ => item,
    }
}

pub open spec fn normalized_items<M: SessionModel>(
    model: M,
    items: Seq<ItemView>,
    tokens: nat,
) -> Seq<ItemView> {
    items.map_values(|i: ItemView| normalized_item(model, i, tokens))
}

/// How many items normalisation changes.
pub open spec fn changed_count<M: SessionModel>(
    model: M,
    items: Seq<ItemView>,
    tokens: nat,
) -> nat
    decreases items.len(),
{
    if items.len() == 0 {
        0
    } else {
        changed_count(model, items.drop_last(), tokens) + if normalized_item(
            model,
            items.last(),
            tokens,
        ) == items.last() {
            0nat
        } else {
            1
        }
    }
}

fn normalize_item<M: SessionModel>(model: &M, item: &ResponseItem, tokens: usize) -> (r:
    ResponseItem)
    ensures
        r@ == normalized_item(*model, item@, tokens as nat),
{
    let body = match &item.body {
        ItemBody::FunctionCallOutput { call_id, output } => ItemBody::FunctionCallOutput {
            call_id: call_id.clone(),
            output: truncate_function_output_payload(model, output, tokens),
        },
        ItemBody::CustomToolCallOutput { call_id, name, output } => {
            ItemBody::CustomToolCallOutput {
                call_id: call_id.clone(),
                name: clone_option(name),
                output: truncate_function_output_payload(model, output, tokens),
            }
        },
        _ => item.body.clone(),
    };
    ResponseItem { id: clone_option(&item.id), metadata: clone_option(&item.metadata), body }
}

/// Under a policy that keeps the newest items exact, tool outputs recorded under a larger limit are
/// cut down first. Says how many were.
pub fn normalize_tool_outputs_for_exact_tail_policy<M: SessionModel>(
    model: &M,
    items: &mut Vec<ResponseItem>,
    policy: CompactionHistoryPolicy,
    output_token_budget: usize,
) -> (changed: usize)
    ensures
        match policy {
            CompactionHistoryPolicy::Standard => changed == 0 && item_views(final(items)@)
                == item_views(old(items)@),
            CompactionHistoryPolicy::PreserveRecentExact { .. } => changed == changed_count(
                *model,
                item_views(old(items)@),
                output_token_budget as nat,
            ) && item_views(final(items)@) == normalized_items(
                *model,
                item_views(old(items)@),
                output_token_budget as nat,
            ),
        },
{
    match policy {
        CompactionHistoryPolicy::Standard => 0,
        CompactionHistoryPolicy::PreserveRecentExact {
            target_tokens: _,
            max_model_visible_item_tokens: _,
        } => {
            let ghost before = item_views(items@);
            let ghost tokens = output_token_budget as nat;
            let mut normalized: Vec<ResponseItem> = Vec::new();
            let mut changed: usize = 0;
            let mut i: usize = 0;
            assert(before.subrange(0, 0) =~= Seq::<ItemView>::empty());
            while i < items.len()
                invariant
                    i <= items@.len(),
                    before == item_views(items@),
                    tokens == output_token_budget,
                    normalized@.len() == i,
                    forall|k: int|
                        0 <= k < i ==> (#[trigger] normalized@[k])@ == normalized_item(
                            *model,
                            before[k],
                            tokens,
                        ),
                    changed <= i,
                    changed == changed_count(*model, before.subrange(0, i as int), tokens),
                decreases items@.len() - i,
            {
                let item = normalize_item(model, &items[i], output_token_budget);
                proof {
                    let next = before.subrange(0, i + 1);
                    assert(next.drop_last() =~= before.subrange(0, i as int));
                    assert(next.last() == items@[i as int]@);
                }
                if !item.same(&items[i]) {
                    changed += 1;
                }
                normalized.push(item);
                i += 1;
            }
            proof {
                assert(before.subrange(0, i as int) =~= before);
                assert(item_views(normalized@) =~= normalized_items(*model, before, tokens));
            }
            *items = normalized;
            changed
        },
    }
}

/// A plan, and the initial context that the replacement must carry.
#[derive(Debug)]
pub struct PreparedExactTailPlan {
    pub plan: ExactTailPlan,
    pub initial_context: Vec<ResponseItem>,
}

pub struct PreparedView {
    pub plan: PlanView,
    pub initial_context: Seq<ItemView>,
}

impl View for PreparedExactTailPlan {
    type V = PreparedView;

    open spec fn view(&self) -> PreparedView {
        PreparedView { plan: self.plan@, initial_context: item_views(self.initial_context@) }
    }
}

/// What preparing a plan depends on, beside the history and the current context.
#[derive(Clone, Copy, Debug, PartialEq, Eq, Structural)]
pub struct ExactTailPrepareInput {
    pub policy: CompactionHistoryPolicy,
    pub trigger: CompactionTrigger,
    pub initial_context_injection: InitialContextInjection,
    pub model_context_window: Option<i64>,
    pub model_auto_compact_token_limit: Option<i64>,
    pub model_auto_compact_token_limit_scope: AutoCompactTokenLimitScope,
    pub estimated_summary_scaffold_overhead_tokens: i64,
    pub retained_cold_user_message_budget_tokens: i64,
    pub normalized_tool_output_count: usize,
    pub implementation: ExactTailImplementation,
}

/// The input of the plan: the current context is paid for out of the budget, and where it is not
/// injected the final prompt still has to leave room for it.
pub open spec fn plan_input<M: SessionModel>(
    model: M,
    context: Seq<ItemView>,
    base_instructions: Seq<char>,
    input: ExactTailPrepareInput,
    target_tokens: i64,
    max_item_tokens: i64,
) -> ExactTailPlanInput {
    let base = instruction_tokens(base_instructions);
    let required = saturating(base + total_tokens(model, context));
    ExactTailPlanInput {
        target_tokens,
        effective_replacement_budget: replacement_budget(
            input.model_context_window,
            input.model_auto_compact_token_limit,
            input.model_auto_compact_token_limit_scope,
            input.trigger,
        ),
        required_current_context_budget: required,
        final_replacement_extra_budget_tokens: match input.initial_context_injection {
            InitialContextInjection::DoNotInject => required,
            InitialContextInjection::BeforeLastUserMessage => base,
        },
        max_model_visible_item_tokens: max_item_tokens,
        estimated_summary_scaffold_overhead_tokens:
            input.estimated_summary_scaffold_overhead_tokens,
        retained_cold_user_message_budget_tokens: input.retained_cold_user_message_budget_tokens,
        implementation: input.implementation,
    }
}

/// What preparing comes to; nothing under the standard policy.
pub open spec fn prepared_plan<M: SessionModel>(
    model: M,
    history: Seq<ItemView>,
    context: Seq<ItemView>,
    base_instructions: Seq<char>,
    input: ExactTailPrepareInput,
) -> Result<Option<PreparedView>, ErrorView> {
    match input.policy {
        CompactionHistoryPolicy::Standard => Ok(None),
        CompactionHistoryPolicy::PreserveRecentExact {
            target_tokens,
            max_model_visible_item_tokens,
        } => match item_limit_error(model, context, max_model_visible_item_tokens) {
            Some(error) => Err(error),
            None => match exact_tail_plan(
                model,
                history,
                plan_input(
                    model,
                    context,
                    base_instructions,
                    input,
                    target_tokens,
                    max_model_visible_item_tokens,
                ),
            ) {
                Err(error) => Err(error),
                Ok(plan) => Ok(
                    Some(
                        PreparedView {
                            plan: PlanView {
                                diagnostics: ExactTailDiagnostics {
                                    normalized_tool_output_count:
                                        input.normalized_tool_output_count,
                                    ..plan.diagnostics
                                },
                                ..plan
                            },
                            initial_context: match input.initial_context_injection {
                                InitialContextInjection::BeforeLastUserMessage => context,
                                InitialContextInjection::DoNotInject => Seq::empty(),
                            },
                        },
                    ),
                ),
            },
        },
    }
}

/// Plans for the current context of the session.
pub fn prepare_exact_tail_plan<M: SessionModel>(
    model: &M,
    history_items: &[ResponseItem],
    current_context: Vec<ResponseItem>,
    base_instructions: &str,
    input: ExactTailPrepareInput,
) -> (r: Result<Option<PreparedExactTailPlan>, ExactTailError>)
    ensures
        ({
            let outcome = prepared_plan(
                *model,
                item_views(history_items@),
                item_views(current_context@),
                base_instructions@,
                input,
            );
            match r {
                Ok(Some(prepared)) => outcome == Ok::<Option<PreparedView>, ErrorView>(
                    Some(prepared@),
                ),
                Ok(None) => outcome == Ok::<Option<PreparedView>, ErrorView>(None),
                Err(error) => outcome == Err::<Option<PreparedView>, ErrorView>(error@),
            }
        }),
{
    match input.policy {
        CompactionHistoryPolicy::Standard => Ok(None),
        CompactionHistoryPolicy::PreserveRecentExact {
            target_tokens,
            max_model_visible_item_tokens,
        } => {
            if let Err(error) = ensure_model_visible_items_within_limit(
                model,
                current_context.as_slice(),
                max_model_visible_item_tokens,
            ) {
                return Err(error);
            }
            let base: i64 = estimate_base_instructions_tokens(base_instructions);
            let required: i64 = saturating_add(
                base,
                estimate_items_tokens(model, current_context.as_slice()),
            );
            let plan_input = ExactTailPlanInput {
                target_tokens,
                effective_replacement_budget: exact_tail_replacement_budget(
                    input.model_context_window,
                    input.model_auto_compact_token_limit,
                    input.model_auto_compact_token_limit_scope,
                    input.trigger,
                ),
                required_current_context_budget: required,
                final_replacement_extra_budget_tokens: match input.initial_context_injection {
                    InitialContextInjection::DoNotInject => required,
                    InitialContextInjection::BeforeLastUserMessage => base,
                },
                max_model_visible_item_tokens,
                estimated_summary_scaffold_overhead_tokens:
                    input.estimated_summary_scaffold_overhead_tokens,
                retained_cold_user_message_budget_tokens:
                    input.retained_cold_user_message_budget_tokens,
                implementation: input.implementation,
            };
            match plan_exact_tail(model, history_items, plan_input) {
                Err(error) => Err(error),
                Ok(plan) => {
                    let mut plan = plan;
                    plan.diagnostics.normalized_tool_output_count =
                    input.normalized_tool_output_count;
                    let initial_context = match input.initial_context_injection {
                        InitialContextInjection::BeforeLastUserMessage => current_context,
                        InitialContextInjection::DoNotInject => Vec::new(),
                    };
                    assert(input.initial_context_injection == InitialContextInjection::DoNotInject
                        ==> item_views(initial_context@) =~= Seq::<ItemView>::empty());
                    Ok(Some(PreparedExactTailPlan { plan, initial_context }))
                },
            }
        },
    }
}

/// The tokens that a local summary takes before it says anything.
pub open spec fn local_scaffold<M: SessionModel>(model: M) -> i64 {
    total_tokens(
        model,
        compacted_history(
            Seq::empty(),
            Seq::empty(),
            model.spec_summary_prefix() + "\n"@,
            COMPACT_USER_MESSAGE_MAX_TOKENS as nat,
        ),
    )
}

pub fn local_summary_scaffold_overhead_tokens<M: SessionModel>(model: &M) -> (r: i64)
    ensures
        r == local_scaffold(*model),
{
    let mut summary = String::from_str(model.summary_prefix());
    summary.append("\n");
    let none: Vec<ResponseItem> = Vec::new();
    let messages = Vec::new();
    let scaffold = build_compacted_history(none, &messages, summary.as_str());
    proof {
        assert(item_views(none@) =~= Seq::<ItemView>::empty());
        assert(crate::compact::user_message_views(messages@) =~= Seq::<UserMessageView>::empty());
    }
    estimate_items_tokens(model, scaffold.as_slice())
}

/// Every item that stays exact has an id.
pub open spec fn all_have_ids(items: Seq<ItemView>) -> bool {
    forall|k: int| 0 <= k < items.len() ==> (#[trigger] items[k]).id is Some
}

pub open spec fn missing_item_id() -> ErrorView {
    plain_error(
        ExactTailFailReason::HotSuffixItemIdMissing,
        "Exact-tail compaction requires existing item ids on the planned hot suffix."@,
    )
}

/// Where items get ids when they are installed, one without an id would not stay exact.
pub fn ensure_hot_suffix_item_ids_are_stable(plan: &ExactTailPlan, item_ids_enabled: bool) -> (r:
    Result<(), ExactTailError>)
    ensures
        match r {
            Ok(_) => !item_ids_enabled || all_have_ids(plan@.hot_suffix),
            Err(error) => item_ids_enabled && !all_have_ids(plan@.hot_suffix) && error@
                == missing_item_id(),
        },
{
    if !item_ids_enabled {
        return Ok(());
    }
    let ghost all = plan@.hot_suffix;
    let mut i: usize = 0;
    while i < plan.hot_suffix.len()
        invariant
            item_ids_enabled,
            i <= plan.hot_suffix@.len(),
            all == item_views(plan.hot_suffix@),
            all == plan@.hot_suffix,
            forall|k: int| 0 <= k < i ==> (#[trigger] all[k]).id is Some,
        decreases plan.hot_suffix@.len() - i,
    {
        assert(all[i as int] == plan.hot_suffix@[i as int]@);
        if plan.hot_suffix[i].id.is_none() {
            return Err(
                ExactTailError::new(
                    ExactTailFailReason::HotSuffixItemIdMissing,
                    String::from_str(
                        "Exact-tail compaction requires existing item ids on the planned hot suffix.",
                    ),
                ),
            );
        }
        i += 1;
    }
    Ok(())
}

// ---------------------------------------------------------------------------------------------
// The cold input.
// ---------------------------------------------------------------------------------------------

pub open spec fn cold_input_error() -> ErrorView {
    plain_error(
        ExactTailFailReason::ColdInputTooLarge,
        "Exact-tail compaction could not safely summarize the cold prefix without losing coverage. Try a smaller compact_preserve_recent_tokens, compact earlier, or disable exact-tail."@,
    )
}

/// Why what goes to the summariser cannot be sent.
pub open spec fn cold_input_failure<M: SessionModel>(
    model: M,
    diagnostics: ExactTailDiagnostics,
    items: Seq<ItemView>,
    context_window: Option<i64>,
) -> Option<ErrorView> {
    match item_limit_error(model, items, diagnostics.max_model_visible_item_tokens) {
        Some(error) => Some(error),
        None => match context_window {
            Some(window) => if total_tokens(model, items) > window {
                Some(cold_input_error())
            } else {
                None
            },
            None => None,
        },
    }
}

pub fn check_cold_input_fits<M: SessionModel>(
    model: &M,
    plan: &ExactTailPlan,
    compact_request_items: &[ResponseItem],
    context_window: Option<i64>,
) -> (r: Result<(), ExactTailError>)
    ensures
        match r {
            Ok(_) => cold_input_failure(
                *model,
                plan.diagnostics,
                item_views(compact_request_items@),
                context_window,
            ) is None,
            Err(error) => cold_input_failure(
                *model,
                plan.diagnostics,
                item_views(compact_request_items@),
                context_window,
            ) == Some(error@),
        },
{
    if let Err(error) = ensure_model_visible_items_within_limit(
        model,
        compact_request_items,
        plan.diagnostics.max_model_visible_item_tokens,
    ) {
        return Err(error);
    }
    if let Some(window) = context_window {
        if estimate_items_tokens(model, compact_request_items) > window {
            return Err(
                ExactTailError::new(
                    ExactTailFailReason::ColdInputTooLarge,
                    String::from_str(
                        "Exact-tail compaction could not safely summarize the cold prefix without losing coverage. Try a smaller compact_preserve_recent_tokens, compact earlier, or disable exact-tail.",
                    ),
                ),
            );
        }
    }
    Ok(())
}

// ---------------------------------------------------------------------------------------------
// The summary.
// ---------------------------------------------------------------------------------------------

pub open spec fn no_summary_error() -> ErrorView {
    plain_error(
        ExactTailFailReason::NoUsableColdSummary,
        "Exact-tail compaction returned no usable cold summary for the cold prefix."@,
    )
}

fn no_usable_summary() -> (error: ExactTailError)
    ensures
        error@ == no_summary_error(),
{
    ExactTailError::new(
        ExactTailFailReason::NoUsableColdSummary,
        String::from_str(
            "Exact-tail compaction returned no usable cold summary for the cold prefix.",
        ),
    )
}

pub fn ensure_non_empty_local_summary(summary_suffix: &str) -> (r: Result<(), ExactTailError>)
    ensures
        match r {
            Ok(_) => !blank(summary_suffix@),
            Err(error) => blank(summary_suffix@) && error@ == no_summary_error(),
        },
{
    if is_blank(summary_suffix) {
        Err(no_usable_summary())
    } else {
        Ok(())
    }
}

/// The part shows some text.
pub open spec fn shows_text(part: ContentView) -> bool {
    match part {
        ContentView::InputText { text } => !blank(text),
        ContentView::OutputText { text } => !blank(text),
        ContentView::InputImage { .. } => false,
    }
}

/// The item can stand for the summarised history.
pub open spec fn usable_summary<M: SessionModel>(model: M, item: ItemView) -> bool {
    match item.body {
        BodyView::Message { role, content, phase } => if role == "assistant"@ {
            exists|k: int| 0 <= k < content.len() && shows_text(#[trigger] content[k])
        } else if role == "user"@ {
            has_summary_part(model, content)
        } else {
            false
        },
        BodyView::AgentMessage { author, recipient, content } => model.spec_agent_text(
            content,
        ) is Some,
        BodyView::Compaction { encrypted_content } => !blank(encrypted_content),
        BodyView::ContextCompaction { encrypted_content } => match encrypted_content {
            Some(content) => !blank(content),
            None => false,
        },
        _ => false,
    }
}

fn content_has_text(content: &Vec<ContentItem>) -> (r: bool)
    ensures
        r == exists|k: int|
            0 <= k < content@.len() && shows_text(#[trigger] content_views(content@)[k]),
{
    let ghost parts = content_views(content@);
    let mut i: usize = 0;
    while i < content.len()
        invariant
            i <= content@.len(),
            parts == content_views(content@),
            forall|k: int| 0 <= k < i ==> !shows_text(#[trigger] parts[k]),
        decreases content@.len() - i,
    {
        assert(parts[i as int] == content@[i as int]@);
        let shows = match &content[i] {
            ContentItem::InputText { text } | ContentItem::OutputText { text } => !is_blank(
                text.as_str(),
            ),
            ContentItem::InputImage { .. } => false,
        };
        if shows {
            return true;
        }
        i += 1;
    }
    false
}

pub fn response_item_has_usable_cold_summary<M: SessionModel>(
    model: &M,
    item: &ResponseItem,
) -> (r: bool)
    ensures
        r == usable_summary(*model, item@),
{
    match &item.body {
        ItemBody::Message { role, content, phase: _ } => if same_text(role.as_str(), "assistant") {
            assert(content_views(content@).len() == content@.len());
            content_has_text(content)
        } else if same_text(role.as_str(), "user") {
            content_has_summary_text(model, content)
        } else {
            false
        },
        ItemBody::AgentMessage { author: _, recipient: _, content } => {
            let text = model.agent_text(content);
            text.is_some()
        },
        ItemBody::Compaction { encrypted_content } => !is_blank(encrypted_content.as_str()),
        ItemBody::ContextCompaction { encrypted_content } => match encrypted_content {
            Some(content) => !is_blank(content.as_str()),
            None => false,
        },
        _ => false,
    }
}

/// Some item can stand for the summarised history.
pub open spec fn has_usable_summary<M: SessionModel>(model: M, items: Seq<ItemView>) -> bool {
    exists|k: int| 0 <= k < items.len() && usable_summary(model, #[trigger] items[k])
}

pub fn ensure_replacement_has_cold_summary<M: SessionModel>(
    model: &M,
    compacted_history: &[ResponseItem],
) -> (r: Result<(), ExactTailError>)
    ensures
        match r {
            Ok(_) => has_usable_summary(*model, item_views(compacted_history@)),
            Err(error) => !has_usable_summary(*model, item_views(compacted_history@)) && error@
                == no_summary_error(),
        },
{
    let ghost all = item_views(compacted_history@);
    let mut i: usize = 0;
    while i < compacted_history.len()
        invariant
            i <= compacted_history@.len(),
            all == item_views(compacted_history@),
            forall|k: int| 0 <= k < i ==> !usable_summary(*model, #[trigger] all[k]),
        decreases compacted_history@.len() - i,
    {
        assert(all[i as int] == compacted_history@[i as int]@);
        if response_item_has_usable_cold_summary(model, &compacted_history[i]) {
            return Ok(());
        }
        i += 1;
    }
    Err(no_usable_summary())
}

// ---------------------------------------------------------------------------------------------
// The replacement.
// ---------------------------------------------------------------------------------------------

/// A turn boundary that is no summary.
pub open spec fn real_boundary<M: SessionModel>(model: M, item: ItemView) -> bool {
    !summary_user_message(model, item) && model.spec_user_turn_boundary(item)
}

/// Where the initial context goes if nothing stays exact: before the last turn boundary, else
/// before the last summary, else before the last compaction item, else at the end.
pub open spec fn context_index<M: SessionModel>(model: M, items: Seq<ItemView>) -> int {
    match last_index(items, |i: ItemView| real_boundary(model, i)) {
        Some(at) => at,
        None => match last_index(items, |i: ItemView| summary_user_message(model, i)) {
            Some(at) => at,
            None => match last_index(items, |i: ItemView| compaction_item(i)) {
                Some(at) => at,
                None => items.len() as int,
            },
        },
    }
}

fn insert_exact_tail_initial_context<M: SessionModel>(
    model: &M,
    replacement_history: Vec<ResponseItem>,
    initial_context: Vec<ResponseItem>,
) -> (r: Vec<ResponseItem>)
    ensures
        item_views(r@) == spliced(
            item_views(replacement_history@),
            context_index(*model, item_views(replacement_history@)),
            item_views(initial_context@),
        ),
{
    let ghost all = item_views(replacement_history@);
    let ghost boundary = |i: ItemView| real_boundary(*model, i);
    let ghost summary = |i: ItemView| summary_user_message(*model, i);
    let len: usize = replacement_history.len();
    let mut last_summary: Option<usize> = None;
    let mut last_boundary: Option<usize> = None;
    let mut n: usize = len;
    assert(all.subrange(0, n as int) =~= all);
    while n > 0 && last_boundary.is_none()
        invariant
            n <= len == replacement_history@.len(),
            all == item_views(replacement_history@),
            boundary == (|i: ItemView| real_boundary(*model, i)),
            summary == (|i: ItemView| summary_user_message(*model, i)),
            match last_summary {
                Some(at) => last_index(all, summary) == Some(at as int) && at < len,
                None => last_index(all, summary) == last_index(all.subrange(0, n as int), summary),
            },
            match last_boundary {
                Some(at) => last_index(all, boundary) == Some(at as int) && at < len,
                None => last_index(all, boundary) == last_index(
                    all.subrange(0, n as int),
                    boundary,
                ),
            },
        decreases n,
    {
        proof {
            let part = all.subrange(0, n as int);
            assert(part.last() == replacement_history@[n - 1]@);
            assert(part.drop_last() =~= all.subrange(0, n - 1));
        }
        if response_item_is_summary_user_message(model, &replacement_history[n - 1]) {
            if last_summary.is_none() {
                last_summary = Some(n - 1);
            }
        } else if model.user_turn_boundary(&replacement_history[n - 1]) {
            last_boundary = Some(n - 1);
        }
        n -= 1;
    }
    proof {
        if last_boundary is None {
            assert(last_index(all.subrange(0, 0), boundary) is None);
            assert(last_index(all.subrange(0, 0), summary) is None);
        }
    }
    let at: usize = match last_boundary {
        Some(at) => at,
        None => match last_summary {
            Some(at) => at,
            None => match last_compaction_index(&replacement_history) {
                Some(at) => at,
                None => len,
            },
        },
    };
    splice_items(replacement_history, at, initial_context)
}

/// The replacement: the compacted history, the initial context where it is injected, and the exact
/// tail last.
pub open spec fn replacement<M: SessionModel>(
    model: M,
    compacted: Seq<ItemView>,
    context: Seq<ItemView>,
    hot: Seq<ItemView>,
    injection: InitialContextInjection,
) -> Seq<ItemView> {
    match injection {
        InitialContextInjection::DoNotInject => compacted + hot,
        InitialContextInjection::BeforeLastUserMessage => if hot.len() == 0 {
            spliced(compacted, context_index(model, compacted), context)
        } else {
            compacted + context + hot
        },
    }
}

pub fn append_hot_suffix_to_replacement<M: SessionModel>(
    model: &M,
    compacted_history: Vec<ResponseItem>,
    initial_context: Vec<ResponseItem>,
    hot_suffix: Vec<ResponseItem>,
    initial_context_injection: InitialContextInjection,
) -> (r: Vec<ResponseItem>)
    ensures
        item_views(r@) == replacement(
            *model,
            item_views(compacted_history@),
            item_views(initial_context@),
            item_views(hot_suffix@),
            initial_context_injection,
        ),
{
    let ghost compacted = item_views(compacted_history@);
    let ghost context = item_views(initial_context@);
    let ghost hot = item_views(hot_suffix@);
    match initial_context_injection {
        InitialContextInjection::DoNotInject => {
            let mut all = compacted_history;
            let mut tail = hot_suffix;
            all.append(&mut tail);
            assert(item_views(all@) =~= compacted + hot);
            all
        },
        InitialContextInjection::BeforeLastUserMessage => {
            if hot_suffix.len() == 0 {
                return insert_exact_tail_initial_context(model, compacted_history, initial_context);
            }
            let mut all = compacted_history;
            let mut middle = initial_context;
            let mut tail = hot_suffix;
            all.append(&mut middle);
            all.append(&mut tail);
            assert(item_views(all@) =~= compacted + context + hot);
            all
        },
    }
}

pub open spec fn too_large_replacement(tokens: i64, budget: i64) -> ErrorView {
    plain_error(
        ExactTailFailReason::ReplacementTooLarge,
        ExactTailFailReason::ReplacementTooLarge.name()
            + ": replacement history plus reserved prompt overhead estimates to "@ + signed_decimal(
            tokens as int,
        ) + " tokens, exceeding budget "@ + signed_decimal(budget as int),
    )
}

/// The tokens of a prompt with the replacement, where it can be installed.
pub open spec fn replacement_fit<M: SessionModel>(
    model: M,
    diagnostics: ExactTailDiagnostics,
    items: Seq<ItemView>,
) -> Result<i64, ErrorView> {
    match item_limit_error(model, items, diagnostics.max_model_visible_item_tokens) {
        Some(error) => Err(error),
        None => {
            let tokens = saturating(
                total_tokens(model, items) + diagnostics.final_replacement_extra_budget_tokens,
            );
            if tokens <= diagnostics.effective_replacement_budget {
                Ok(tokens)
            } else {
                Err(too_large_replacement(tokens, diagnostics.effective_replacement_budget))
            }
        },
    }
}

pub fn check_replacement_fits<M: SessionModel>(
    model: &M,
    plan: &ExactTailPlan,
    replacement_history: &[ResponseItem],
) -> (r: Result<i64, ExactTailError>)
    ensures
        match r {
            Ok(tokens) => replacement_fit(
                *model,
                plan.diagnostics,
                item_views(replacement_history@),
            ) == Ok::<i64, ErrorView>(tokens),
            Err(error) => replacement_fit(
                *model,
                plan.diagnostics,
                item_views(replacement_history@),
            ) == Err::<i64, ErrorView>(error@),
        },
{
    if let Err(error) = ensure_model_visible_items_within_limit(
        model,
        replacement_history,
        plan.diagnostics.max_model_visible_item_tokens,
    ) {
        return Err(error);
    }
    let tokens: i64 = saturating_add(
        estimate_items_tokens(model, replacement_history),
        plan.diagnostics.final_replacement_extra_budget_tokens,
    );
    let budget: i64 = plan.diagnostics.effective_replacement_budget;
    if tokens <= budget {
        return Ok(tokens);
    }
    let mut message = String::from_str(ExactTailFailReason::ReplacementTooLarge.as_str());
    message.append(": replacement history plus reserved prompt overhead estimates to ");
    message.append(signed_decimal_text(tokens).as_str());
    message.append(" tokens, exceeding budget ");
    message.append(signed_decimal_text(budget).as_str());
    Err(ExactTailError::new(ExactTailFailReason::ReplacementTooLarge, message))
}

/// That the exact tail is where it belongs.
#[derive(Clone, Copy, Debug, Eq, PartialEq, Structural)]
pub struct ExactTailHotSuffixProof {
    pub exact_match: bool,
    pub planned_item_count: usize,
    pub installed_item_count: usize,
}

/// The list ends with exactly these items.
pub open spec fn ends_with_items(items: Seq<ItemView>, tail: Seq<ItemView>) -> bool {
    tail.len() <= items.len() && items.subrange(items.len() - tail.len(), items.len() as int)
        == tail
}

pub open spec fn tail_mismatch() -> ErrorView {
    plain_error(
        ExactTailFailReason::HotSuffixMismatch,
        "Installed exact-tail replacement does not preserve the planned hot suffix exactly."@,
    )
}

pub fn verify_exact_hot_suffix_preserved(
    hot_suffix: &Vec<ResponseItem>,
    replacement_history: &Vec<ResponseItem>,
) -> (r: Result<ExactTailHotSuffixProof, ExactTailError>)
    ensures
        match r {
            Ok(proof_of_tail) => ends_with_items(
                item_views(replacement_history@),
                item_views(hot_suffix@),
            ) && proof_of_tail == (ExactTailHotSuffixProof {
                exact_match: true,
                planned_item_count: hot_suffix@.len() as usize,
                installed_item_count: hot_suffix@.len() as usize,
            }),
            Err(error) => !ends_with_items(
                item_views(replacement_history@),
                item_views(hot_suffix@),
            ) && error@ == tail_mismatch(),
        },
{
    let ghost all = item_views(replacement_history@);
    let ghost tail = item_views(hot_suffix@);
    let n: usize = hot_suffix.len();
    let len: usize = replacement_history.len();
    let mut matches = n <= len;
    let mut i: usize = 0;
    while matches && i < n
        invariant
            i <= n == hot_suffix@.len(),
            len == replacement_history@.len(),
            all == item_views(replacement_history@),
            tail == item_views(hot_suffix@),
            matches ==> n <= len && forall|k: int|
                0 <= k < i ==> all[len - n + k] == #[trigger] tail[k],
            !matches ==> !ends_with_items(all, tail),
        decreases n - i,
    {
        let same = replacement_history[len - n + i].same(&hot_suffix[i]);
        if !same {
            assert(all.subrange(len - n, len as int)[i as int] == all[len - n + i]);
            assert(tail[i as int] == hot_suffix@[i as int]@);
            assert(all[len - n + i] == replacement_history@[len - n + i]@);
            matches = false;
        }
        i += 1;
    }
    if matches {
        assert(all.subrange(len - n, len as int) =~= tail);
        Ok(
            ExactTailHotSuffixProof {
                exact_match: true,
                planned_item_count: n,
                installed_item_count: n,
            },
        )
    } else {
        Err(
            ExactTailError::new(
                ExactTailFailReason::HotSuffixMismatch,
                String::from_str(
                    "Installed exact-tail replacement does not preserve the planned hot suffix exactly.",
                ),
            ),
        )
    }
}

#[derive(Clone, Copy, Debug, Eq, PartialEq, Structural)]
pub struct ExactTailReplacementDiagnostics {
    pub actual_summary_tokens: i64,
    pub replacement_tokens_estimate: i64,
    pub final_replacement_tokens_estimate: i64,
    pub hot_suffix_exact_match: bool,
    pub planned_hot_suffix_item_count: usize,
    pub installed_hot_suffix_item_count: usize,
}

#[derive(Debug, PartialEq)]
pub struct ExactTailReplacement {
    pub replacement_history: Vec<ResponseItem>,
    pub diagnostics: ExactTailReplacementDiagnostics,
}

/// What putting the replacement together comes to.
pub open spec fn replacement_outcome<M: SessionModel>(
    model: M,
    prepared: PreparedView,
    compacted: Seq<ItemView>,
    injection: InitialContextInjection,
    summary_tokens: i64,
) -> Result<(Seq<ItemView>, ExactTailReplacementDiagnostics), ErrorView> {
    let hot = prepared.plan.hot_suffix;
    let items = replacement(model, compacted, prepared.initial_context, hot, injection);
    match replacement_fit(model, prepared.plan.diagnostics, items) {
        Err(error) => Err(error),
        Ok(tokens) => if !ends_with_items(items, hot) {
            Err(tail_mismatch())
        } else {
            Ok(
                (
                    items,
                    ExactTailReplacementDiagnostics {
                        actual_summary_tokens: summary_tokens,
                        replacement_tokens_estimate: total_tokens(model, items),
                        final_replacement_tokens_estimate: tokens,
                        hot_suffix_exact_match: true,
                        planned_hot_suffix_item_count: hot.len() as usize,
                        installed_hot_suffix_item_count: hot.len() as usize,
                    },
                ),
            )
        },
    }
}

/// Puts the replacement history together and checks it.
pub fn build_exact_tail_replacement<M: SessionModel>(
    model: &M,
    prepared: &PreparedExactTailPlan,
    compacted_history: Vec<ResponseItem>,
    initial_context_injection: InitialContextInjection,
    actual_summary_tokens: i64,
) -> (r: Result<ExactTailReplacement, ExactTailError>)
    ensures
        ({
            let outcome = replacement_outcome(
                *model,
                prepared@,
                item_views(compacted_history@),
                initial_context_injection,
                actual_summary_tokens,
            );
            match r {
                Ok(done) => outcome == Ok::<
                    (Seq<ItemView>, ExactTailReplacementDiagnostics),
                    ErrorView,
                >((item_views(done.replacement_history@), done.diagnostics)),
                Err(error) => outcome == Err::<
                    (Seq<ItemView>, ExactTailReplacementDiagnostics),
                    ErrorView,
                >(error@),
            }
        }),
{
    let replacement_history = append_hot_suffix_to_replacement(
        model,
        compacted_history,
        clone_items(prepared.initial_context.as_slice()),
        clone_items(prepared.plan.hot_suffix.as_slice()),
        initial_context_injection,
    );
    let final_tokens: i64 = match check_replacement_fits(
        model,
        &prepared.plan,
        replacement_history.as_slice(),
    ) {
        Ok(tokens) => tokens,
        Err(error) => {
            return Err(error);
        },
    };
    let tail = match verify_exact_hot_suffix_preserved(
        &prepared.plan.hot_suffix,
        &replacement_history,
    ) {
        Ok(tail) => tail,
        Err(error) => {
            return Err(error);
        },
    };
    Ok(
        ExactTailReplacement {
            diagnostics: ExactTailReplacementDiagnostics {
                actual_summary_tokens,
                replacement_tokens_estimate: estimate_items_tokens(
                    model,
                    replacement_history.as_slice(),
                ),
                final_replacement_tokens_estimate: final_tokens,
                hot_suffix_exact_match: tail.exact_match,
                planned_hot_suffix_item_count: tail.planned_item_count,
                installed_hot_suffix_item_count: tail.installed_item_count,
            },
            replacement_history,
        },
    )
}

} // verus!
