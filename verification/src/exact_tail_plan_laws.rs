//! What an exact-tail plan keeps and what it leaves out, told by the items themselves.

use crate::exact_tail::{
    first_too_large, item_limit_error, kind_of, policy_of, replacement_budget, reservation,
    too_large, AutoCompactTokenLimitScope, CompactionConfig, CompactionHistoryPolicy,
    CompactionTrigger, ExactTailFailReason,
};
use crate::exact_tail_groups::{
    dependency, dependent, eligible, lemma_segment_end, segment_end, segments_from, stale,
    stale_indices, tail_groups, tied, TailGroupView,
};
use crate::exact_tail_laws::{
    first_item_of, law_plan_keeps_calls_with_outputs, law_plan_parts_the_history, lemma_first_groups,
    lemma_items_of_split,
};
use crate::exact_tail_plan::{
    cold_reserve, exact_tail_plan, group_tokens, has_summary_part, holds_summary, hot_groups,
    hot_walk, items_of, largest_item, last_summary_group, lemma_hot_walk, prior_summary, reserve_walk,
    summary_part, ExactTailPlanInput,
};
use crate::compact::user_messages;
use crate::exact_tail_replacement::local_scaffold;
use crate::item::{BodyView, ContentView, ItemView};
use crate::session_model::{saturating, SessionModel, total_tokens};
use crate::text::{has_prefix, trimmed_start};
use vstd::prelude::*;

verus! {

// -- what takes part --------------------------------------------------------------------------

/// Context that was generated for an earlier prompt: a developer message with generated parts, a
/// message of the user that is generated and no prompt of a hook, or the mark that set a
/// compaction off.
pub open spec fn generated_context<M: SessionModel>(model: M, item: ItemView) -> bool {
    match item.body {
        BodyView::Message { role, content, phase } => {
            ||| role == "developer"@ && model.spec_contextual_developer(content)
            ||| role == "user"@ && model.spec_contextual_user(content) && !model.spec_hook_prompt(
                item.id,
                content,
            )
        },
        BodyView::CompactionTrigger => true,
        _ => false,
    }
}

proof fn lemma_roles_differ()
    ensures
        "developer"@ != "user"@,
{
    reveal_strlit("developer");
    reveal_strlit("user");
    assert("developer"@.len() != "user"@.len());
}

proof fn lemma_stale_is_generated<M: SessionModel>(model: M, item: ItemView)
    ensures
        stale(model, item) == generated_context(model, item),
{
    lemma_roles_differ();
}

proof fn lemma_eligible_is_filter<M: SessionModel>(model: M, history: Seq<ItemView>)
    ensures
        eligible(model, history) == history.filter(|i: ItemView| !generated_context(model, i)),
    decreases history.len(),
{
    reveal(Seq::filter);
    if history.len() > 0 {
        lemma_stale_is_generated(model, history.last());
        lemma_eligible_is_filter(model, history.drop_last());
    }
}

/// A plan takes every item of the history that is not generated context, once and in order, either
/// to be summarised or to stay exact; and only generated context is left out.
pub proof fn law_plan_leaves_out_generated_context_alone<M: SessionModel>(
    model: M,
    history: Seq<ItemView>,
    input: ExactTailPlanInput,
)
    ensures
        exact_tail_plan(model, history, input) matches Ok(plan) ==> plan.cold_history
            + plan.hot_suffix == history.filter(|i: ItemView| !generated_context(model, i)),
{
    law_plan_parts_the_history(model, history, input);
    lemma_eligible_is_filter(model, history);
}

proof fn lemma_eligible_has<M: SessionModel>(model: M, history: Seq<ItemView>, at: int)
    requires
        0 <= at < history.len(),
        !generated_context(model, history[at]),
    ensures
        eligible(model, history).contains(history[at]),
    decreases history.len(),
{
    let rest = history.drop_last();
    let all = eligible(model, history);
    lemma_stale_is_generated(model, history.last());
    if at == history.len() - 1 {
        assert(all[all.len() - 1] == history[at]);
    } else {
        lemma_eligible_has(model, rest, at);
        assert(rest[at] == history[at]);
        let k = choose|k: int|
            0 <= k < eligible(model, rest).len() && eligible(model, rest)[k] == history[at];
        assert(all[k] == history[at]);
    }
}

/// Every tool call and every tool output, and all that was said, reasoned or summarised before, is
/// in the part that is summarised or in the part that stays exact.
pub proof fn law_no_protocol_item_is_lost<M: SessionModel>(
    model: M,
    history: Seq<ItemView>,
    input: ExactTailPlanInput,
    at: int,
)
    requires
        0 <= at < history.len(),
    ensures
        ({
            let item = history[at];
            let protocol = {
                ||| item.body is FunctionCall
                ||| item.body is FunctionCallOutput
                ||| item.body is CustomToolCall
                ||| item.body is CustomToolCallOutput
                ||| item.body is ToolSearchCall
                ||| item.body is ToolSearchOutput
                ||| item.body is LocalShellCall
                ||| item.body is WebSearchCall
                ||| item.body is ImageGenerationCall
                ||| item.body is AgentMessage
                ||| item.body is Reasoning
                ||| item.body is Compaction
                ||| item.body is ContextCompaction
                ||| item.body is Other
            };
            let conversation = item.body is Message && item.body->Message_role != "developer"@
                && item.body->Message_role != "user"@;
            exact_tail_plan(model, history, input) matches Ok(plan) ==> {
                &&& protocol || conversation ==> (plan.cold_history + plan.hot_suffix).contains(
                    item,
                )
                &&& item.body is Message && item.body->Message_role == "user"@
                    && !model.spec_contextual_user(item.body->Message_content) ==> (
                plan.cold_history + plan.hot_suffix).contains(item)
                &&& item.body is Message && item.body->Message_role == "user"@
                    && model.spec_hook_prompt(item.id, item.body->Message_content) ==> (
                plan.cold_history + plan.hot_suffix).contains(item)
                &&& item.body is Message && item.body->Message_role == "developer"@
                    && !model.spec_contextual_developer(item.body->Message_content) ==> (
                plan.cold_history + plan.hot_suffix).contains(item)
            }
        }),
{
    law_plan_parts_the_history(model, history, input);
    lemma_roles_differ();
    if !generated_context(model, history[at]) {
        lemma_eligible_has(model, history, at);
    }
}

/// The plan reports what it left out: the indices of the generated context, in order.
pub proof fn law_left_out_items_are_reported<M: SessionModel>(
    model: M,
    history: Seq<ItemView>,
    input: ExactTailPlanInput,
)
    requires
        history.len() <= usize::MAX,
    ensures
        exact_tail_plan(model, history, input) matches Ok(plan) ==> {
            let left_out = plan.coverage.filtered_stale_groups;
            &&& forall|k: int|
                0 <= k < left_out.len() ==> (#[trigger] left_out[k]) < history.len()
                    && generated_context(model, history[left_out[k] as int])
            &&& forall|i: int|
                0 <= i < history.len() && generated_context(model, #[trigger] history[i])
                    ==> left_out.contains(i as usize)
            &&& forall|j: int, k: int|
                0 <= j < k < left_out.len() ==> #[trigger] left_out[j] < #[trigger] left_out[k]
        },
{
    lemma_stale_indices(model, history);
}

proof fn lemma_stale_indices<M: SessionModel>(model: M, history: Seq<ItemView>)
    requires
        history.len() <= usize::MAX,
    ensures
        ({
            let found = stale_indices(model, history);
            &&& forall|k: int|
                0 <= k < found.len() ==> (#[trigger] found[k]) < history.len()
                    && generated_context(model, history[found[k] as int])
            &&& forall|i: int|
                0 <= i < history.len() && generated_context(model, #[trigger] history[i])
                    ==> found.contains(i as usize)
            &&& forall|j: int, k: int|
                0 <= j < k < found.len() ==> #[trigger] found[j] < #[trigger] found[k]
        }),
    decreases history.len(),
{
    if history.len() > 0 {
        let rest = history.drop_last();
        lemma_stale_indices(model, rest);
        lemma_stale_is_generated(model, history.last());
        let before = stale_indices(model, rest);
        let found = stale_indices(model, history);
        assert(forall|i: int| 0 <= i < rest.len() ==> rest[i] == history[i]);
        assert forall|i: int| 0 <= i < history.len() && generated_context(
            model,
            #[trigger] history[i],
        ) implies found.contains(i as usize) by {
            if i < rest.len() {
                assert(generated_context(model, rest[i]));
                assert(before.contains(i as usize));
                let k = choose|k: int| 0 <= k < before.len() && before[k] == i as usize;
                assert(found[k] == i as usize);
            } else {
                assert(found[found.len() - 1] == i as usize);
            }
        }
        assert forall|k: int| 0 <= k < found.len() implies (#[trigger] found[k]) < history.len()
            && generated_context(model, history[found[k] as int]) by {
            if k < before.len() {
                assert(found[k] == before[k]);
                assert(rest[found[k] as int] == history[found[k] as int]);
            }
        }
    }
}

// -- what stays together ----------------------------------------------------------------------

/// The id that a call shares with its output.
pub open spec fn shared_call_id(item: ItemView) -> Option<Seq<char>> {
    match item.body {
        BodyView::FunctionCall { name, namespace, arguments, call_id } => Some(call_id),
        BodyView::FunctionCallOutput { call_id, output } => Some(call_id),
        BodyView::CustomToolCall { status, call_id, name, input } => Some(call_id),
        BodyView::CustomToolCallOutput { call_id, name, output } => Some(call_id),
        BodyView::ToolSearchCall { call_id, status, execution, arguments } => call_id,
        BodyView::ToolSearchOutput { call_id, status, execution, tools } => call_id,
        BodyView::LocalShellCall { call_id, status, action } => call_id,
        _ => None,
    }
}

/// Two items with one call id are both summarised or both kept exact.
pub proof fn law_calls_and_outputs_share_a_side<M: SessionModel>(
    model: M,
    history: Seq<ItemView>,
    input: ExactTailPlanInput,
    a: int,
    b: int,
)
    ensures
        exact_tail_plan(model, history, input) matches Ok(plan) ==> {
            let cold = plan.cold_history;
            let hot = plan.hot_suffix;
            0 <= a < cold.len() && 0 <= b < hot.len() && shared_call_id(cold[a]) is Some
                ==> shared_call_id(cold[a]) != shared_call_id(hot[b])
        },
{
    if let Ok(plan) = exact_tail_plan(model, history, input) {
        law_plan_parts_the_history(model, history, input);
        let cold = plan.cold_history;
        let hot = plan.hot_suffix;
        let all = eligible(model, history);
        if 0 <= a < cold.len() && 0 <= b < hot.len() && shared_call_id(cold[a]) is Some
            && shared_call_id(cold[a]) == shared_call_id(hot[b]) {
            assert((cold + hot)[a] == cold[a]);
            assert((cold + hot)[cold.len() + b] == hot[b]);
            assert(dependency(all[a]) == shared_call_id(all[a]));
            assert(dependent(all, a, cold.len() + b));
            law_plan_keeps_calls_with_outputs(model, history, input, a, cold.len() + b);
        }
    }
}

// -- what stays exact -------------------------------------------------------------------------

/// The item stands for history that was summarised before: a compaction, or a message of the user
/// with a text that begins, behind white space, with the line that marks a summary.
pub open spec fn stands_for_history<M: SessionModel>(model: M, item: ItemView) -> bool {
    match item.body {
        BodyView::Compaction { encrypted_content } => true,
        BodyView::ContextCompaction { encrypted_content } => true,
        BodyView::Message { role, content, phase } => role == "user"@ && exists|k: int|
            0 <= k < content.len() && marked_part(model, #[trigger] content[k]),
        _ => false,
    }
}

pub open spec fn marked_part<M: SessionModel>(model: M, part: ContentView) -> bool {
    let marker = model.spec_summary_prefix() + "\n"@;
    match part {
        ContentView::InputText { text } => has_prefix(trimmed_start(text), marker),
        ContentView::OutputText { text } => has_prefix(trimmed_start(text), marker),
        ContentView::InputImage { .. } => false,
    }
}

proof fn lemma_prior_summary<M: SessionModel>(model: M, item: ItemView)
    ensures
        prior_summary(model, item) == stands_for_history(model, item),
{
    if let BodyView::Message { role, content, phase } = item.body {
        assert forall|k: int| 0 <= k < content.len() implies marked_part(
            model,
            #[trigger] content[k],
        ) == summary_part(model, content[k]) by {}
        if has_summary_part(model, content) {
            let k = choose|k: int|
                0 <= k < content.len() && summary_part(model, #[trigger] content[k]);
            assert(marked_part(model, content[k]));
        }
        if exists|k: int| 0 <= k < content.len() && marked_part(model, #[trigger] content[k]) {
            let k = choose|k: int| 0 <= k < content.len() && marked_part(model, #[trigger] content[k]);
            assert(summary_part(model, content[k]));
        }
    }
}

/// No summary of earlier history stays exact.
pub proof fn law_no_summary_stays_exact<M: SessionModel>(
    model: M,
    history: Seq<ItemView>,
    input: ExactTailPlanInput,
    at: int,
)
    ensures
        exact_tail_plan(model, history, input) matches Ok(plan) ==> 0 <= at < plan.hot_suffix.len()
            ==> !stands_for_history(model, plan.hot_suffix[at]),
{
    if let Ok(plan) = exact_tail_plan(model, history, input) {
        crate::exact_tail_laws::law_exact_part_fits(model, history, input);
        if 0 <= at < plan.hot_suffix.len() {
            lemma_prior_summary(model, plan.hot_suffix[at]);
            assert(!prior_summary(model, plan.hot_suffix[at]));
        }
    }
}

proof fn lemma_hot_walk_stops<M: SessionModel>(
    model: M,
    groups: Seq<TailGroupView>,
    at: int,
    tokens: i64,
    max_count: int,
    target: i64,
)
    requires
        0 <= at <= groups.len(),
    ensures
        ({
            let (start, sum) = hot_walk(model, groups, at, tokens, max_count, target);
            ||| start == 0
            ||| groups.len() - start >= max_count
            ||| holds_summary(model, groups[start - 1].items)
            ||| start < groups.len() && sum >= target
        }),
    decreases at,
{
    let count = groups.len() - at;
    if !(at <= 0 || count >= max_count || holds_summary(model, groups[at - 1].items) || !(count == 0
        || tokens < target)) {
        lemma_hot_walk_stops(
            model,
            groups,
            at - 1,
            saturating(tokens + groups[at - 1].tokens),
            max_count,
            target,
        );
    }
}

proof fn lemma_items_of_has<M: SessionModel>(
    model: M,
    groups: Seq<TailGroupView>,
    from: int,
    to: int,
    k: int,
)
    requires
        0 <= from <= k < to <= groups.len(),
        holds_summary(model, groups[k].items),
    ensures
        holds_summary(model, items_of(groups, from, to)),
    decreases to - from,
{
    let front = items_of(groups, from, to - 1);
    let all = items_of(groups, from, to);
    if k == to - 1 {
        let items = groups[k].items;
        let i = choose|i: int| 0 <= i < items.len() && prior_summary(model, #[trigger] items[i]);
        assert(all[front.len() + i] == items[i]);
    } else {
        lemma_items_of_has(model, groups, from, to - 1, k);
        let i = choose|i: int| 0 <= i < front.len() && prior_summary(model, #[trigger] front[i]);
        assert(all[i] == front[i]);
    }
}

/// The target is reached: in a history without earlier summaries, the exact part of a plan is not
/// empty and has at least the tokens that were asked for.
pub proof fn law_target_is_reached<M: SessionModel>(
    model: M,
    history: Seq<ItemView>,
    input: ExactTailPlanInput,
)
    requires
        history.len() <= usize::MAX,
        forall|i: int|
            0 <= i < history.len() ==> !stands_for_history(model, #[trigger] history[i]),
    ensures
        exact_tail_plan(model, history, input) matches Ok(plan) ==> plan.hot_suffix.len() > 0
            && plan.diagnostics.actual_hot_tokens >= input.target_tokens,
{
    if let Ok(plan) = exact_tail_plan(model, history, input) {
        let groups = tail_groups(model, history);
        let len = groups.len() as int;
        let (start, tokens) = hot_groups(model, groups, input.target_tokens);
        let most = cold_reserve(model, groups).max_hot_group_count as int;
        lemma_hot_walk(model, groups, len, 0, most, input.target_tokens);
        lemma_hot_walk_stops(model, groups, len, 0, most, input.target_tokens);
        law_plan_parts_the_history(model, history, input);
        let all = eligible(model, history);
        assert forall|k: int| 0 <= k < all.len() implies !prior_summary(model, #[trigger] all[k]) by {
            lemma_eligible_from_history(model, history, k);
            let i = choose|i: int| 0 <= i < history.len() && history[i] == all[k];
            assert(!stands_for_history(model, history[i]));
            lemma_prior_summary(model, history[i]);
        }
        assert forall|k: int| 0 <= k < groups.len() implies !holds_summary(
            model,
            (#[trigger] groups[k]).items,
        ) by {
            if holds_summary(model, groups[k].items) {
                lemma_items_of_has(model, groups, 0, len, k);
                lemma_items_of_split(groups, 0, start, len);
                let i = choose|i: int| 0 <= i < all.len() && prior_summary(model, #[trigger] all[i]);
                assert(!prior_summary(model, all[i]));
            }
        }
        lemma_no_summary_group(model, groups, len);
        lemma_group_count(model, history);
        assert(most == len);
        assert(!holds_summary(model, groups[start - 1].items));
        lemma_hot_part(model, history, start);
    }
}

proof fn lemma_group_count<M: SessionModel>(model: M, history: Seq<ItemView>)
    ensures
        tail_groups(model, history).len() <= history.len(),
{
    crate::exact_tail_laws::law_only_stale_context_is_left_out(model, history);
    lemma_segment_count(eligible(model, history), 0);
}

proof fn lemma_segment_count(items: Seq<ItemView>, start: int)
    requires
        0 <= start <= items.len(),
    ensures
        segments_from(items, start).len() <= items.len() - start,
    decreases items.len() - start,
{
    if start < items.len() {
        lemma_segment_end(items, start);
        lemma_segment_count(items, segment_end(items, start) + 1);
    }
}

proof fn lemma_no_summary_group<M: SessionModel>(model: M, groups: Seq<TailGroupView>, at: int)
    requires
        0 <= at <= groups.len(),
        forall|k: int| 0 <= k < groups.len() ==> !holds_summary(model, (#[trigger] groups[k]).items),
    ensures
        last_summary_group(model, groups, at) is None,
    decreases at,
{
    if at > 0 {
        lemma_no_summary_group(model, groups, at - 1);
    }
}

proof fn lemma_eligible_from_history<M: SessionModel>(model: M, history: Seq<ItemView>, k: int)
    requires
        0 <= k < eligible(model, history).len(),
    ensures
        history.contains(eligible(model, history)[k]),
    decreases history.len(),
{
    let rest = history.drop_last();
    let before = eligible(model, rest);
    if k < before.len() {
        lemma_eligible_from_history(model, rest, k);
        let i = choose|i: int| 0 <= i < rest.len() && rest[i] == before[k];
        assert(history[i] == before[k]);
    } else {
        assert(history[history.len() - 1] == eligible(model, history)[k]);
    }
}

/// The groups from `start` on hold something, where there are any.
proof fn lemma_hot_part<M: SessionModel>(model: M, history: Seq<ItemView>, start: int)
    requires
        0 <= start < tail_groups(model, history).len(),
    ensures
        items_of(
            tail_groups(model, history),
            start,
            tail_groups(model, history).len() as int,
        ).len() > 0,
{
    let groups = tail_groups(model, history);
    let len = groups.len() as int;
    lemma_first_groups(model, history, start);
    lemma_first_groups(model, history, len);
    lemma_items_of_split(groups, 0, start, len);
    let items = eligible(model, history);
    let segments = segments_from(items, 0);
    crate::exact_tail_laws::lemma_segments_chain(items, 0);
    assert(segments[start].0 <= segments[start].1);
    assert(first_item_of(model, history, start) == segments[start].0);
    assert(first_item_of(model, history, len) == items.len());
}

// -- what stays cold behind a summary ---------------------------------------------------------

proof fn lemma_reserve_walk(
    groups: Seq<TailGroupView>,
    first: int,
    at: int,
    stop: int,
    target: i64,
)
    requires
        0 <= first <= at <= stop <= groups.len(),
    ensures
        ({
            let tokens = group_tokens(groups, first, at);
            let (end, sum) = reserve_walk(groups, at, stop, tokens, target);
            &&& at <= end <= stop
            &&& at < stop ==> at < end
            &&& sum == group_tokens(groups, first, end)
            &&& end == stop || sum >= target
            &&& forall|k: int|
                at < k < end ==> #[trigger] group_tokens(groups, first, k) < target
        }),
    decreases stop - at,
{
    if at < stop {
        let sum = group_tokens(groups, first, at + 1);
        if sum < target {
            lemma_reserve_walk(groups, first, at + 1, stop, target);
        }
    }
}

proof fn lemma_last_summary_group<M: SessionModel>(
    model: M,
    groups: Seq<TailGroupView>,
    at: int,
    summary: int,
)
    requires
        0 <= summary < at <= groups.len(),
        holds_summary(model, groups[summary].items),
        forall|k: int|
            summary < k < at ==> !holds_summary(model, (#[trigger] groups[k]).items),
    ensures
        last_summary_group(model, groups, at) == Some(summary),
    decreases at,
{
    if at - 1 > summary {
        assert(!holds_summary(model, groups[at - 1].items));
        lemma_last_summary_group(model, groups, at - 1, summary);
    }
}

/// Of the groups behind the last summary, where there are two or more, some stay cold: whole ones
/// from the oldest on, at least one, until they have a tenth of the tokens behind the summary. No
/// more than these, and never the newest.
pub proof fn law_tenth_stays_cold<M: SessionModel>(
    model: M,
    groups: Seq<TailGroupView>,
    summary: int,
)
    requires
        0 <= summary,
        summary + 2 < groups.len() <= usize::MAX,
        holds_summary(model, groups[summary].items),
        forall|k: int|
            summary < k < groups.len() ==> !holds_summary(model, (#[trigger] groups[k]).items),
        group_tokens(groups, summary + 1, groups.len() as int) >= 0,
    ensures
        ({
            let reserve = cold_reserve(model, groups);
            let behind = group_tokens(groups, summary + 1, groups.len() as int);
            let count = reserve.group_count as int;
            let enough = if behind < 20 {
                1
            } else {
                behind / 10
            };
            &&& 1 <= count <= groups.len() - summary - 2
            &&& reserve.max_hot_group_count == groups.len() - summary - 1 - count
            &&& reserve.tokens == group_tokens(groups, summary + 1, summary + 1 + count)
            &&& reserve.target_tokens == enough
            &&& reserve.tokens >= enough || count == groups.len() - summary - 2
            &&& forall|k: int|
                0 < k < count ==> group_tokens(groups, summary + 1, #[trigger] (summary + 1 + k))
                    < enough
        }),
{
    let len = groups.len() as int;
    lemma_last_summary_group(model, groups, len, summary);
    let behind = group_tokens(groups, summary + 1, len);
    let enough: i64 = if behind < 20 {
        1
    } else {
        (behind / 10) as i64
    };
    assert(group_tokens(groups, summary + 1, summary + 1) == 0);
    lemma_reserve_walk(groups, summary + 1, summary + 1, len - 1, enough);
}

/// Without an earlier summary, or with a single group behind the last one, nothing is held back.
pub proof fn law_nothing_is_held_back_without_a_summary<M: SessionModel>(
    model: M,
    groups: Seq<TailGroupView>,
)
    requires
        groups.len() <= usize::MAX,
        forall|k: int|
            0 <= k < groups.len() - 2 ==> !holds_summary(model, (#[trigger] groups[k]).items),
    ensures
        ({
            let reserve = cold_reserve(model, groups);
            &&& reserve.max_hot_group_count == groups.len()
            &&& reserve.group_count == 0
            &&& reserve.tokens == 0
            &&& reserve.target_tokens == 0
        }),
{
    lemma_summary_is_late(model, groups, groups.len() as int);
}

proof fn lemma_summary_is_late<M: SessionModel>(model: M, groups: Seq<TailGroupView>, at: int)
    requires
        0 <= at <= groups.len(),
        forall|k: int|
            0 <= k < groups.len() - 2 ==> !holds_summary(model, (#[trigger] groups[k]).items),
    ensures
        match last_summary_group(model, groups, at) {
            Some(summary) => groups.len() - 2 <= summary < groups.len(),
            None => true,
        },
    decreases at,
{
    if at > 0 {
        lemma_summary_is_late(model, groups, at - 1);
    }
}

// -- budgets ----------------------------------------------------------------------------------

/// What is left for the exact part: the budget without the current context, without 16,384 tokens
/// for the summary, its wrapping, the messages kept beside it and 1,024 more, and without a margin
/// of one percent that is at least 4,096.
pub proof fn law_room_for_the_exact_part(
    budget: i64,
    required: i64,
    scaffold: i64,
    retained: i64,
)
    requires
        0 <= budget <= 0x0fff_ffff_ffff_ffff,
        0 <= required <= 0x0fff_ffff_ffff_ffff,
        0 <= scaffold <= 0x0fff_ffff_ffff_ffff,
        0 <= retained <= 0x0fff_ffff_ffff_ffff,
    ensures
        ({
            let r = reservation(budget, required, scaffold, retained);
            &&& r.conservative_cold_summary_budget == 16_384 + scaffold + retained + 1_024
            &&& r.safety_margin == if budget < 409_700 {
                4_096int
            } else {
                budget as int / 100
            }
            &&& r.available_for_hot == budget - required - (16_384 + scaffold + retained + 1_024)
                - r.safety_margin
        }),
{
}

/// A manual compaction may fill the window, whatever the limit. An automatic one keeps to the
/// limit and to the window where the limit counts everything; where it counts only what comes
/// after the prefix, the window decides where it is known.
pub proof fn law_replacement_budget(
    window: Option<i64>,
    limit: Option<i64>,
    scope: AutoCompactTokenLimitScope,
)
    ensures
        replacement_budget(window, limit, scope, CompactionTrigger::Manual) == window,
        replacement_budget(
            window,
            limit,
            AutoCompactTokenLimitScope::Total,
            CompactionTrigger::Auto,
        ) matches Some(budget) ==> {
            &&& limit matches Some(l) ==> budget <= l
            &&& window matches Some(w) ==> budget <= w
            &&& limit == Some(budget) || window == Some(budget)
        },
        replacement_budget(
            window,
            limit,
            AutoCompactTokenLimitScope::Total,
            CompactionTrigger::Auto,
        ) is None <==> limit is None && window is None,
        window is Some ==> replacement_budget(
            window,
            limit,
            AutoCompactTokenLimitScope::BodyAfterPrefix,
            CompactionTrigger::Auto,
        ) == window,
        window is None ==> replacement_budget(
            window,
            limit,
            AutoCompactTokenLimitScope::BodyAfterPrefix,
            CompactionTrigger::Auto,
        ) == limit,
{
}

/// An exact tail is kept where a positive number of tokens is asked for; its items may have ten
/// thousand tokens each, or a limit that is configured, a tenth more for its wrapping, which is at
/// least 128 and at most 4,096.
pub proof fn law_policy_follows_the_configuration(config: CompactionConfig)
    ensures
        match policy_of(config) {
            CompactionHistoryPolicy::Standard => match config.compact_preserve_recent_tokens {
                Some(tokens) => tokens <= 0,
                None => true,
            },
            CompactionHistoryPolicy::PreserveRecentExact {
                target_tokens,
                max_model_visible_item_tokens,
            } => {
                &&& config.compact_preserve_recent_tokens == Some(target_tokens)
                &&& target_tokens > 0
                &&& match config.tool_output_token_limit {
                    Some(body) => if body == 0 || body > i64::MAX {
                        max_model_visible_item_tokens == 10_000
                    } else if body <= 1_280 {
                        max_model_visible_item_tokens == body + 128 || max_model_visible_item_tokens
                            == i64::MAX
                    } else if body < 40_960 {
                        max_model_visible_item_tokens == body + body as int / 10
                    } else {
                        max_model_visible_item_tokens == body + 4_096
                            || max_model_visible_item_tokens == i64::MAX
                    },
                    None => max_model_visible_item_tokens == 10_000,
                }
            },
        },
{
}

// -- items over the limit ---------------------------------------------------------------------

/// The item is over the limit: it is neither a function call nor context that is only rebuilt.
pub open spec fn over_item_limit<M: SessionModel>(model: M, item: ItemView, limit: i64) -> bool {
    let rebuilt = match item.body {
        BodyView::Message { role, content, phase } => {
            ||| role == "developer"@ && model.spec_contextual_developer(content)
                && !model.spec_non_contextual_developer(content)
            ||| role == "user"@ && model.spec_contextual_user(content) && !model.spec_hook_prompt(
                item.id,
                content,
            )
        },
        BodyView::CompactionTrigger => true,
        BodyView::FunctionCall { name, namespace, arguments, call_id } => true,
        _ => false,
    };
    !rebuilt && model.spec_item_tokens(item) > limit
}

/// Items are refused if one of them is over the limit, and the first such item is named with its
/// tokens.
pub proof fn law_items_over_the_limit_are_refused<M: SessionModel>(
    model: M,
    items: Seq<ItemView>,
    limit: i64,
)
    ensures
        match item_limit_error(model, items, limit) {
            None => forall|k: int|
                0 <= k < items.len() ==> !over_item_limit(model, #[trigger] items[k], limit),
            Some(error) => exists|k: int|
                {
                    &&& 0 <= k < items.len()
                    &&& over_item_limit(model, #[trigger] items[k], limit)
                    &&& forall|j: int|
                        0 <= j < k ==> !over_item_limit(model, #[trigger] items[j], limit)
                    &&& error.reason == ExactTailFailReason::ModelVisibleItemTooLarge
                    &&& error.model_visible_item_limit matches Some(l)
                    &&& l.item_tokens == model.spec_item_tokens(items[k])
                    &&& l.max_item_tokens == limit
                    &&& l.item_kind == kind_of(items[k])
                },
        },
{
    lemma_first_too_large(model, items, 0, limit);
}

proof fn lemma_over_limit<M: SessionModel>(model: M, item: ItemView, limit: i64)
    ensures
        too_large(model, item, limit) == over_item_limit(model, item, limit),
{
    lemma_roles_differ();
}

proof fn lemma_first_too_large<M: SessionModel>(
    model: M,
    items: Seq<ItemView>,
    from: int,
    limit: i64,
)
    requires
        0 <= from <= items.len(),
    ensures
        match first_too_large(model, items, from, limit) {
            None => forall|k: int|
                from <= k < items.len() ==> !over_item_limit(model, #[trigger] items[k], limit),
            Some(item) => exists|k: int|
                {
                    &&& from <= k < items.len()
                    &&& #[trigger] items[k] == item
                    &&& over_item_limit(model, items[k], limit)
                    &&& forall|j: int|
                        from <= j < k ==> !over_item_limit(model, #[trigger] items[j], limit)
                },
        },
    decreases items.len() - from,
{
    if from < items.len() {
        lemma_over_limit(model, items[from], limit);
        if !too_large(model, items[from], limit) {
            lemma_first_too_large(model, items, from + 1, limit);
            if let Some(item) = first_too_large(model, items, from, limit) {
                let k = choose|k: int|
                    {
                        &&& from + 1 <= k < items.len()
                        &&& #[trigger] items[k] == item
                        &&& over_item_limit(model, items[k], limit)
                        &&& forall|j: int|
                            from + 1 <= j < k ==> !over_item_limit(model, #[trigger] items[j], limit)
                    };
                assert(items[k] == item);
            }
        }
    }
}

// -- when a plan is refused -------------------------------------------------------------------

/// A plan is refused for a reason only: no budget is known, the exact part has no room, nothing
/// would be left to summarise, or an item of the exact part is over its limit. One that is made
/// has room for its exact part, something to summarise, no item over the limit, and lists what the
/// user wrote in the part that is summarised.
pub proof fn law_plan_is_refused_for_cause<M: SessionModel>(
    model: M,
    history: Seq<ItemView>,
    input: ExactTailPlanInput,
)
    ensures
        ({
            let groups = tail_groups(model, history);
            let len = groups.len() as int;
            let (start, tokens) = hot_groups(model, groups, input.target_tokens);
            let hot = items_of(groups, start, len);
            match input.effective_replacement_budget {
                None => exact_tail_plan(model, history, input) matches Err(error) && error.reason
                    == ExactTailFailReason::BudgetUnavailable,
                Some(budget) => {
                    let room = reservation(
                        budget,
                        input.required_current_context_budget,
                        input.estimated_summary_scaffold_overhead_tokens,
                        input.retained_cold_user_message_budget_tokens,
                    ).available_for_hot;
                    match exact_tail_plan(model, history, input) {
                        Ok(plan) => {
                            &&& start > 0
                            &&& tokens <= room
                            &&& plan.hot_suffix == hot
                            &&& plan.diagnostics.actual_hot_tokens == tokens
                            &&& plan.diagnostics.available_for_hot == room
                            &&& plan.diagnostics.effective_replacement_budget == budget
                            &&& plan.diagnostics.hot_group_count == (len - start) as usize
                            &&& plan.diagnostics.cold_group_count == start as usize
                            &&& plan.cold_user_messages == user_messages(model, plan.cold_history)
                            &&& forall|k: int|
                                0 <= k < hot.len() ==> !over_item_limit(
                                    model,
                                    #[trigger] hot[k],
                                    input.max_model_visible_item_tokens,
                                )
                        },
                        Err(error) => {
                            ||| error.reason == ExactTailFailReason::MinimumHotSuffixTooLarge && (
                            tokens > room || (len > 0 && groups[len - 1].tokens > room
                                && !holds_summary(model, groups[len - 1].items)))
                            ||| error.reason == ExactTailFailReason::NoColdPrefix && start == 0
                            ||| error.reason == ExactTailFailReason::ModelVisibleItemTooLarge
                                && exists|k: int|
                                0 <= k < hot.len() && over_item_limit(
                                    model,
                                    #[trigger] hot[k],
                                    input.max_model_visible_item_tokens,
                                )
                        },
                    }
                },
            }
        }),
{
    let groups = tail_groups(model, history);
    let len = groups.len() as int;
    let (start, tokens) = hot_groups(model, groups, input.target_tokens);
    let hot = items_of(groups, start, len);
    let most = cold_reserve(model, groups).max_hot_group_count as int;
    lemma_hot_walk(model, groups, len, 0, most, input.target_tokens);
    law_items_over_the_limit_are_refused(model, hot, input.max_model_visible_item_tokens);
}

// -- the numbers of a plan --------------------------------------------------------------------

proof fn lemma_largest<M: SessionModel>(model: M, items: Seq<ItemView>)
    ensures
        items.len() == 0 ==> largest_item(model, items) == 0,
        items.len() > 0 ==> exists|k: int|
            0 <= k < items.len() && model.spec_item_tokens(#[trigger] items[k]) == largest_item(
                model,
                items,
            ),
        forall|k: int|
            0 <= k < items.len() ==> model.spec_item_tokens(#[trigger] items[k]) <= largest_item(
                model,
                items,
            ),
    decreases items.len(),
{
    if items.len() > 0 {
        let rest = items.drop_last();
        lemma_largest(model, rest);
        assert(forall|k: int| 0 <= k < rest.len() ==> rest[k] == items[k]);
        let tokens = model.spec_item_tokens(items.last());
        assert(items[items.len() - 1] == items.last());
        if !(items.len() == 1 || tokens > largest_item(model, rest)) {
            let k = choose|k: int|
                0 <= k < rest.len() && model.spec_item_tokens(#[trigger] rest[k]) == largest_item(
                    model,
                    rest,
                );
            assert(items[k] == rest[k]);
        }
    }
}

/// The numbers of a plan are those of the plan: how many items there were and how many were left
/// out, the tokens of the part that is summarised, the largest item of the exact part, and what was
/// asked for.
pub proof fn law_plan_reports_its_numbers<M: SessionModel>(
    model: M,
    history: Seq<ItemView>,
    input: ExactTailPlanInput,
)
    requires
        history.len() <= usize::MAX,
    ensures
        exact_tail_plan(model, history, input) matches Ok(plan) ==> {
            let d = plan.diagnostics;
            &&& d.raw_item_count == history.len()
            &&& d.filtered_context_item_count == history.filter(
                |i: ItemView| generated_context(model, i),
            ).len()
            &&& d.filtered_context_item_count == plan.coverage.filtered_stale_groups.len()
            &&& d.group_count == d.cold_group_count + d.hot_group_count
            &&& d.cold_tokens == total_tokens(model, plan.cold_history)
            &&& d.requested_hot_tokens == input.target_tokens
            &&& d.implementation == input.implementation
            &&& d.max_model_visible_item_tokens == input.max_model_visible_item_tokens
            &&& d.required_current_context_budget == input.required_current_context_budget
            &&& d.final_replacement_extra_budget_tokens
                == input.final_replacement_extra_budget_tokens
            &&& forall|k: int|
                0 <= k < plan.hot_suffix.len() ==> model.spec_item_tokens(
                    #[trigger] plan.hot_suffix[k],
                ) <= d.largest_hot_item_tokens
            &&& plan.hot_suffix.len() > 0 ==> exists|k: int|
                0 <= k < plan.hot_suffix.len() && model.spec_item_tokens(
                    #[trigger] plan.hot_suffix[k],
                ) == d.largest_hot_item_tokens
        },
{
    if let Ok(plan) = exact_tail_plan(model, history, input) {
        let groups = tail_groups(model, history);
        let len = groups.len() as int;
        let start = hot_groups(model, groups, input.target_tokens).0;
        let most = cold_reserve(model, groups).max_hot_group_count as int;
        lemma_hot_walk(model, groups, len, 0, most, input.target_tokens);
        lemma_group_count(model, history);
        lemma_largest(model, plan.hot_suffix);
        lemma_stale_count(model, history);
        crate::exact_tail_laws::law_only_stale_context_is_left_out(model, history);
    }
}

proof fn lemma_stale_count<M: SessionModel>(model: M, history: Seq<ItemView>)
    ensures
        stale_indices(model, history).len() == history.filter(
            |i: ItemView| generated_context(model, i),
        ).len(),
    decreases history.len(),
{
    reveal(Seq::filter);
    if history.len() > 0 {
        lemma_stale_is_generated(model, history.last());
        lemma_stale_count(model, history.drop_last());
    }
}

/// A group is as small as it can be: where it goes on behind an item, some call id occurs up to
/// that item and again behind it.
pub proof fn law_groups_are_as_small_as_they_can_be<M: SessionModel>(
    model: M,
    history: Seq<ItemView>,
    k: int,
    x: int,
)
    requires
        0 <= k < tail_groups(model, history).len(),
        segments_from(eligible(model, history), 0)[k].0 <= x < segments_from(
            eligible(model, history),
            0,
        )[k].1,
    ensures
        ({
            let items = eligible(model, history);
            exists|a: int, b: int|
                {
                    &&& 0 <= a <= x < b < items.len()
                    &&& #[trigger] shared_call_id(items[a]) is Some
                    &&& #[trigger] shared_call_id(items[b]) == shared_call_id(items[a])
                }
        }),
{
    let items = eligible(model, history);
    lemma_segment_ties(items, 0, k, x);
    let (a, b) = choose|a: int, b: int| a <= x < b && #[trigger] dependent(items, a, b);
    assert(dependency(items[a]) == shared_call_id(items[a]));
    assert(dependency(items[b]) == shared_call_id(items[b]));
}

proof fn lemma_segment_ties(items: Seq<ItemView>, start: int, k: int, x: int)
    requires
        0 <= start <= items.len(),
        0 <= k < segments_from(items, start).len(),
        segments_from(items, start)[k].0 <= x < segments_from(items, start)[k].1,
    ensures
        tied(items, x),
    decreases items.len() - start,
{
    if start < items.len() {
        lemma_segment_end(items, start);
        let end = segment_end(items, start);
        if k > 0 {
            let rest = segments_from(items, end + 1);
            assert(segments_from(items, start)[k] == rest[k - 1]);
            lemma_segment_ties(items, end + 1, k - 1, x);
        }
    }
}

/// What a local summary is wrapped in: the message of the user with its opening line alone.
pub proof fn law_local_scaffold<M: SessionModel>(model: M)
    ensures
        local_scaffold(model) == total_tokens(
            model,
            seq![
                ItemView {
                    id: None,
                    metadata: None,
                    body: BodyView::Message {
                        role: "user"@,
                        content: seq![
                            ContentView::InputText { text: model.spec_summary_prefix() + "\n"@ },
                        ],
                        phase: None,
                    },
                },
            ],
        ),
{
    reveal_strlit("\n");
    let text = model.spec_summary_prefix() + "\n"@;
    let items = crate::compact::compacted_history(Seq::empty(), Seq::empty(), text, 20_000);
    let wanted = seq![
        ItemView {
            id: None,
            metadata: None,
            body: BodyView::Message {
                role: "user"@,
                content: seq![ContentView::InputText { text }],
                phase: None,
            },
        },
    ];
    let none = Seq::<crate::compact::UserMessageView>::empty();
    assert(crate::compact::selected_messages(none, 20_000) =~= none);
    assert(items.len() == 1);
    assert(items[0].body->Message_content =~= wanted[0].body->Message_content);
    assert(items =~= wanted);
}

} // verus!
