//! What a replacement history is made of and when it is refused.

use crate::compact::{compaction_item, lemma_last_index, InitialContextInjection};
use crate::compact_laws::{last_of_kind, none_of_kind};
use crate::exact_tail::ExactTailFailReason;
use crate::exact_tail_plan::{has_summary_part, summary_part, summary_user_message, ExactTailDiagnostics};
use crate::exact_tail_plan_laws::{
    law_items_over_the_limit_are_refused, marked_part, over_item_limit,
};
use crate::exact_tail_replacement::{
    changed_count, cold_input_failure, context_index, normalized_item, normalized_items, plan_input,
    real_boundary, replacement, replacement_fit, shows_text, usable_summary, ExactTailPrepareInput,
};
use crate::item::{BodyView, ContentView, ItemView, OutputBodyView, PayloadView};
use crate::session_model::{total_tokens, SessionModel};
use crate::text::{blank, text_bytes};
use crate::tokens::{law_truncation_shows_both_ends, shows_both_ends, text_tokens};
use vstd::prelude::*;

verus! {

// -- sums -------------------------------------------------------------------------------------

/// The tokens of the items, added up.
pub open spec fn plain_sum<M: SessionModel>(model: M, items: Seq<ItemView>) -> int
    decreases items.len(),
{
    if items.len() == 0 {
        0
    } else {
        plain_sum(model, items.drop_last()) + model.spec_item_tokens(items.last())
    }
}

/// The tokens of items are their sum, as far as that can be held.
pub proof fn law_tokens_add_up<M: SessionModel>(model: M, items: Seq<ItemView>)
    requires
        forall|k: int| 0 <= k < items.len() ==> model.spec_item_tokens(#[trigger] items[k]) >= 0,
    ensures
        total_tokens(model, items) == if plain_sum(model, items) <= i64::MAX {
            plain_sum(model, items)
        } else {
            i64::MAX as int
        },
        plain_sum(model, items) >= 0,
    decreases items.len(),
{
    if items.len() > 0 {
        let rest = items.drop_last();
        assert forall|k: int| 0 <= k < rest.len() implies model.spec_item_tokens(#[trigger] rest[k])
            >= 0 by {
            assert(rest[k] == items[k]);
        }
        law_tokens_add_up(model, rest);
        assert(model.spec_item_tokens(items[items.len() - 1]) >= 0);
    }
}

// -- the parts of a replacement ---------------------------------------------------------------

/// A replacement is what the summariser returned, then the current context where it is injected,
/// then the exact part, each as it is and once.
pub proof fn law_replacement_is_made_of_its_parts<M: SessionModel>(
    model: M,
    compacted: Seq<ItemView>,
    context: Seq<ItemView>,
    hot: Seq<ItemView>,
)
    ensures
        replacement(model, compacted, context, hot, InitialContextInjection::DoNotInject)
            == compacted + hot,
        hot.len() > 0 ==> replacement(
            model,
            compacted,
            context,
            hot,
            InitialContextInjection::BeforeLastUserMessage,
        ) == compacted + context + hot,
{
}

/// Where nothing stays exact, injected context goes before the last item that starts a turn of the
/// user and is no summary; else before the last summary; else before the last compaction item;
/// else behind everything.
pub proof fn law_context_has_one_place<M: SessionModel>(
    model: M,
    compacted: Seq<ItemView>,
    context: Seq<ItemView>,
)
    ensures
        ({
            let at = context_index(model, compacted);
            let result = replacement(
                model,
                compacted,
                context,
                Seq::empty(),
                InitialContextInjection::BeforeLastUserMessage,
            );
            let turn = |i: ItemView| model.spec_user_turn_boundary(i) && !marked_message(model, i);
            let summary = |i: ItemView| marked_message(model, i);
            let compaction = |i: ItemView| i.body is Compaction || i.body is ContextCompaction;
            &&& 0 <= at <= compacted.len()
            &&& result.len() == compacted.len() + context.len()
            &&& forall|k: int| 0 <= k < at ==> result[k] == compacted[k]
            &&& forall|k: int| 0 <= k < context.len() ==> result[at + k] == context[k]
            &&& forall|k: int|
                at <= k < compacted.len() ==> result[k + context.len()] == compacted[k]
            &&& !none_of_kind(compacted, turn) ==> last_of_kind(compacted, turn, at)
            &&& none_of_kind(compacted, turn) && !none_of_kind(compacted, summary) ==> last_of_kind(
                compacted,
                summary,
                at,
            )
            &&& none_of_kind(compacted, turn) && none_of_kind(compacted, summary) && !none_of_kind(
                compacted,
                compaction,
            ) ==> last_of_kind(compacted, compaction, at)
            &&& none_of_kind(compacted, turn) && none_of_kind(compacted, summary) && none_of_kind(
                compacted,
                compaction,
            ) ==> at == compacted.len()
        }),
{
    let boundary = |i: ItemView| real_boundary(model, i);
    let noted = |i: ItemView| summary_user_message(model, i);
    let item = |i: ItemView| compaction_item(i);
    let turn = |i: ItemView| model.spec_user_turn_boundary(i) && !marked_message(model, i);
    let summary = |i: ItemView| marked_message(model, i);
    let compaction = |i: ItemView| i.body is Compaction || i.body is ContextCompaction;
    lemma_last_index(compacted, boundary);
    lemma_last_index(compacted, noted);
    lemma_last_index(compacted, item);
    assert forall|k: int| 0 <= k < compacted.len() implies turn(#[trigger] compacted[k])
        == boundary(compacted[k]) && summary(compacted[k]) == noted(compacted[k]) && compaction(
        compacted[k],
    ) == item(compacted[k]) by {
        lemma_marked_message(model, compacted[k]);
    }
}

/// A message of the user with a part that begins with the line that marks a summary.
pub open spec fn marked_message<M: SessionModel>(model: M, item: ItemView) -> bool {
    match item.body {
        BodyView::Message { role, content, phase } => role == "user"@ && exists|k: int|
            0 <= k < content.len() && marked_part(model, #[trigger] content[k]),
        _ => false,
    }
}

proof fn lemma_marked_message<M: SessionModel>(model: M, item: ItemView)
    ensures
        marked_message(model, item) == summary_user_message(model, item),
{
    if let BodyView::Message { role, content, phase } = item.body {
        assert forall|k: int| 0 <= k < content.len() implies marked_part(
            model,
            #[trigger] content[k],
        ) == summary_part(model, content[k]) by {}
        if has_summary_part(model, content) {
            let k = choose|k: int|
                0 <= k < content.len() && summary_part(model, #[trigger] content[k]);
            assert(marked_part(model, content[k]));
        }
        if exists|k: int| 0 <= k < content.len() && marked_part(model, #[trigger] content[k]) {
            let k = choose|k: int| 0 <= k < content.len() && marked_part(model, #[trigger] content[k]);
            assert(summary_part(model, content[k]));
        }
    }
}

// -- when it is refused -----------------------------------------------------------------------

/// A replacement is refused if one of its items is over the item limit, or if it and what the
/// prompt adds have more tokens than the budget; and for no other reason.
pub proof fn law_replacement_is_refused_for_cause<M: SessionModel>(
    model: M,
    diagnostics: ExactTailDiagnostics,
    items: Seq<ItemView>,
)
    requires
        forall|k: int| 0 <= k < items.len() ==> model.spec_item_tokens(#[trigger] items[k]) >= 0,
        diagnostics.final_replacement_extra_budget_tokens >= 0,
        diagnostics.effective_replacement_budget < i64::MAX,
    ensures
        ({
            let sum = plain_sum(model, items) + diagnostics.final_replacement_extra_budget_tokens;
            let limit = diagnostics.max_model_visible_item_tokens;
            let over = exists|k: int|
                0 <= k < items.len() && over_item_limit(model, #[trigger] items[k], limit);
            match replacement_fit(model, diagnostics, items) {
                Ok(tokens) => !over && sum <= diagnostics.effective_replacement_budget && tokens
                    == sum,
                Err(error) => if over {
                    error.reason == ExactTailFailReason::ModelVisibleItemTooLarge
                } else {
                    sum > diagnostics.effective_replacement_budget && error.reason
                        == ExactTailFailReason::ReplacementTooLarge
                },
            }
        }),
{
    law_tokens_add_up(model, items);
    law_items_over_the_limit_are_refused(model, items, diagnostics.max_model_visible_item_tokens);
}

/// What goes to the summariser is refused if one of its items is over the item limit, or if it has
/// more tokens than the window; where no window is known it may have any number.
pub proof fn law_cold_input_is_refused_for_cause<M: SessionModel>(
    model: M,
    diagnostics: ExactTailDiagnostics,
    items: Seq<ItemView>,
    window: Option<i64>,
)
    requires
        forall|k: int| 0 <= k < items.len() ==> model.spec_item_tokens(#[trigger] items[k]) >= 0,
        window matches Some(w) ==> w < i64::MAX,
    ensures
        ({
            let limit = diagnostics.max_model_visible_item_tokens;
            let over = exists|k: int|
                0 <= k < items.len() && over_item_limit(model, #[trigger] items[k], limit);
            let large = window matches Some(w) && plain_sum(model, items) > w;
            match cold_input_failure(model, diagnostics, items, window) {
                None => !over && !large,
                Some(error) => if over {
                    error.reason == ExactTailFailReason::ModelVisibleItemTooLarge
                } else {
                    large && error.reason == ExactTailFailReason::ColdInputTooLarge
                },
            }
        }),
{
    law_tokens_add_up(model, items);
    law_items_over_the_limit_are_refused(model, items, diagnostics.max_model_visible_item_tokens);
}

/// What can stand for summarised history: something the assistant said that is not blank, a
/// message of the user that is marked as a summary, a readable message of an agent, or a
/// compaction that is not blank.
pub proof fn law_usable_summaries<M: SessionModel>(model: M, item: ItemView)
    ensures
        usable_summary(model, item) == match item.body {
            BodyView::Message { role, content, phase } => {
                ||| role == "assistant"@ && exists|k: int|
                    0 <= k < content.len() && readable(#[trigger] content[k])
                ||| role == "user"@ && marked_message(model, item)
            },
            BodyView::AgentMessage { author, recipient, content } => model.spec_agent_text(
                content,
            ) is Some,
            BodyView::Compaction { encrypted_content } => !blank(encrypted_content),
            BodyView::ContextCompaction { encrypted_content: Some(content) } => !blank(content),
            _ => false,
        },
{
    reveal_strlit("assistant");
    reveal_strlit("user");
    assert("assistant"@.len() != "user"@.len());
    lemma_marked_message(model, item);
    if let BodyView::Message { role, content, phase } = item.body {
        assert forall|k: int| 0 <= k < content.len() implies readable(#[trigger] content[k])
            == shows_text(content[k]) by {}
        if exists|k: int| 0 <= k < content.len() && shows_text(#[trigger] content[k]) {
            let k = choose|k: int| 0 <= k < content.len() && shows_text(#[trigger] content[k]);
            assert(readable(content[k]));
        }
        if exists|k: int| 0 <= k < content.len() && readable(#[trigger] content[k]) {
            let k = choose|k: int| 0 <= k < content.len() && readable(#[trigger] content[k]);
            assert(shows_text(content[k]));
        }
    }
}

/// The part is a text that is not blank.
pub open spec fn readable(part: ContentView) -> bool {
    match part {
        ContentView::InputText { text } => !blank(text),
        ContentView::OutputText { text } => !blank(text),
        ContentView::InputImage { .. } => false,
    }
}

// -- before planning --------------------------------------------------------------------------

/// `cut` is the text where it keeps to four bytes a token, else its two ends.
pub open spec fn text_cut(cut: Seq<char>, text: Seq<char>, tokens: nat) -> bool {
    if text_bytes(text) <= tokens * 4 {
        cut == text
    } else {
        exists|to: int, from: int|
            #[trigger] shows_both_ends(
                cut,
                text,
                tokens * 4,
                ((text_bytes(text) - tokens * 4 + 3) / 4) as nat,
                to,
                from,
            )
    }
}

/// The payload with its text cut, and with whether it succeeded.
pub open spec fn payload_cut(cut: PayloadView, output: PayloadView, tokens: nat) -> bool {
    &&& cut.success == output.success
    &&& output.body matches OutputBodyView::Text(text) ==> {
        &&& cut.body matches OutputBodyView::Text(shown)
        &&& text_cut(shown, text, tokens)
    }
}

/// Before a plan is made, the outputs of function calls and of custom calls are cut to size, and
/// nothing else of the history changes.
pub proof fn law_only_outputs_are_cut<M: SessionModel>(
    model: M,
    items: Seq<ItemView>,
    tokens: nat,
    k: int,
)
    requires
        tokens * 4 <= usize::MAX,
        0 <= k < items.len(),
    ensures
        ({
            let cut = normalized_items(model, items, tokens);
            &&& cut.len() == items.len()
            &&& cut[k].id == items[k].id
            &&& cut[k].metadata == items[k].metadata
            &&& match items[k].body {
                BodyView::FunctionCallOutput { call_id, output } => {
                    &&& cut[k].body is FunctionCallOutput
                    &&& cut[k].body->FunctionCallOutput_call_id == call_id
                    &&& payload_cut(cut[k].body->FunctionCallOutput_output, output, tokens)
                },
                BodyView::CustomToolCallOutput { call_id, name, output } => {
                    &&& cut[k].body is CustomToolCallOutput
                    &&& cut[k].body->CustomToolCallOutput_call_id == call_id
                    &&& cut[k].body->CustomToolCallOutput_name == name
                    &&& payload_cut(cut[k].body->CustomToolCallOutput_output, output, tokens)
                },
                _ => cut[k] == items[k],
            }
        }),
{
    match items[k].body {
        BodyView::FunctionCallOutput { call_id, output } => {
            if let OutputBodyView::Text(text) = output.body {
                law_truncation_shows_both_ends(text, tokens);
            }
        },
        BodyView::CustomToolCallOutput { call_id, name, output } => {
            if let OutputBodyView::Text(text) = output.body {
                law_truncation_shows_both_ends(text, tokens);
            }
        },
        _ => {},
    }
}

/// How many items were cut is how many differ from what they were.
pub proof fn law_cut_items_are_counted<M: SessionModel>(
    model: M,
    items: Seq<ItemView>,
    tokens: nat,
)
    ensures
        changed_count(model, items, tokens) == items.filter(
            |i: ItemView| normalized_item(model, i, tokens) != i,
        ).len(),
    decreases items.len(),
{
    reveal(Seq::filter);
    if items.len() > 0 {
        law_cut_items_are_counted(model, items.drop_last(), tokens);
    }
}

/// The current context and the base instructions are paid for out of the budget. The final prompt
/// has to leave room for both where the context is not injected, else for the instructions, since
/// the replacement then holds the context itself.
pub proof fn law_context_is_paid_for<M: SessionModel>(
    model: M,
    context: Seq<ItemView>,
    base_instructions: Seq<char>,
    input: ExactTailPrepareInput,
    target: i64,
    limit: i64,
)
    requires
        forall|k: int|
            0 <= k < context.len() ==> model.spec_item_tokens(#[trigger] context[k]) >= 0,
        plain_sum(model, context) + text_tokens(base_instructions) <= i64::MAX,
    ensures
        ({
            let base = text_tokens(base_instructions);
            let all = base + plain_sum(model, context);
            let plan = plan_input(model, context, base_instructions, input, target, limit);
            &&& plan.required_current_context_budget == all
            &&& plan.final_replacement_extra_budget_tokens == if input.initial_context_injection
                == InitialContextInjection::DoNotInject {
                all
            } else {
                base as int
            }
            &&& plan.target_tokens == target
            &&& plan.max_model_visible_item_tokens == limit
            &&& plan.estimated_summary_scaffold_overhead_tokens
                == input.estimated_summary_scaffold_overhead_tokens
            &&& plan.retained_cold_user_message_budget_tokens
                == input.retained_cold_user_message_budget_tokens
        }),
{
    law_tokens_add_up(model, context);
}

} // verus!
