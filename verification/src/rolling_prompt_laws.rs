//! What holds of every rolling prompt.

use crate::item::ItemView;
use crate::rolling::{
    first_over_limit, group_items, kept_groups, lemma_first_over_limit_is_over, newest_groups,
    over_limit, sent_groups, sent_prefix, GroupView, MAX_ROLLING_PROMPT_ITEM_TOKENS,
};
use crate::rolling_groups::{
    call_output, group_step, groups_from, lemma_group_step, lemma_last_output, lemma_span_end,
    lemma_span_reach, lemma_turn_group_end, lemma_turn_input_run, next_index, span_at, span_end,
    spans_from, spec_call_key, RawGroupView,
};
use crate::rolling_context_filter::historical_at;
use crate::rolling_pairwise::{
    body_with_groups, cold_nodes, default_protected_tokens, first_group_over, fit_tree, group_of,
    groups_within, hot_start, nodes_body, pairwise_outcome, settings_of, FitView, OutcomeView,
    PairwiseInputView, PairwiseRollingPromptParams, PromptBodyView,
};
use crate::rolling_prompt::{
    lemma_groups_from_within, lemma_sent_groups_within, output_limit, prompt_input,
    raw_groups_within, rolling_outcome, ParamsView,
};
use crate::rolling_state::StateView;
use crate::session_model::{saturating, InputModality, SessionModel};
use crate::summary_tree::{
    compaction, in_order, single_fold, spec_levels_from_nodes, stable_sort, summary_item, total_nodes,
    visible, CoverageInterval, NodeOrder, NodeView, PairwiseNodeKind, SummarySource,
};
use crate::summary_tree_laws::{
    cover_count, law_compaction_keeps_coverage, law_single_fold, law_visible_keeps_coverage,
    lemma_built_tree_stands, lemma_compaction_stands, lemma_count_concat, lemma_count_positive,
    lemma_covered_once, lemma_levels_from_nodes, lemma_single_fold_stands, lemma_single_fold_total,
    lemma_synthetic_compaction_completes, lemma_visible_stands, levels_cover_count, levels_stand,
    levels_wf, nested_or_apart, nodes_stand, nodes_wf, nothing, sorted_by_order, stands,
};
use vstd::prelude::*;

verus! {

proof fn lemma_synthetic_fit<M: SessionModel>(
    model: M,
    levels: Seq<Seq<NodeView>>,
    groups: Seq<GroupView>,
    hot: int,
    params: PairwiseRollingPromptParams,
    budget: i64,
)
    ensures
        match fit_tree(model, levels, groups, hot, params, budget, SummarySource::Synthetic) {
            Ok(FitView::Needs { levels: _, missing: _ }) => false,
            Ok(FitView::Fits { levels: _, body }) => body.tokens <= budget,
            Err(_) => true,
        },
    decreases total_nodes(levels),
{
    lemma_single_fold_total(levels, settings_of(params));
    let (after, found, missing) = single_fold(
        levels,
        settings_of(params),
        SummarySource::Synthetic,
    );
    if found {
        lemma_synthetic_fit(model, after, groups, hot, params, budget);
    }
}

/// A prompt whose summaries are made up never asks for one.
pub proof fn law_synthetic_prompt_needs_no_summary<M: SessionModel>(
    model: M,
    raw: Seq<ItemView>,
    version: u64,
    state: StateView,
    params: ParamsView,
    fingerprint: u64,
)
    ensures
        match rolling_outcome(model, raw, version, state, params, fingerprint, SummarySource::Synthetic) {
            Ok(OutcomeView::NeedsPairSummary { request: _, projected_state: _ }) => false,
            _ => true,
        },
{
    if let Some(window) = params.effective_context_window {
        let input = prompt_input(model, raw, version, state, params, fingerprint, window);
        if let Some(pairwise) = params.pairwise_compaction {
            let protected = match pairwise.protected_hot_exact_tokens {
                Some(tokens) => tokens,
                None => default_protected_tokens(input.body_budget),
            };
            let hot = hot_start(input.groups, input.groups.len() as int, 0, protected);
            let nodes = input.state.pairwise_summaries + cold_nodes(input.groups.subrange(0, hot));
            let start = spec_levels_from_nodes(nodes);
            lemma_synthetic_compaction_completes(start, 0, settings_of(pairwise));
            let levels = compaction(
                start,
                0,
                settings_of(pairwise),
                SummarySource::Synthetic,
            ).0;
            lemma_synthetic_fit(model, levels, input.groups, hot, pairwise, input.body_budget);
        }
    }
}

// -- the target -------------------------------------------------------------------------------

proof fn lemma_kept_groups<M: SessionModel>(
    model: M,
    groups: Seq<GroupView>,
    at: int,
    tokens: i64,
    budget: i64,
)
    requires
        0 <= at <= groups.len(),
    ensures
        ({
            let (start, sum) = kept_groups(model, groups, at, tokens, budget);
            &&& 0 <= start <= at
            &&& start == at ==> sum == tokens
            &&& start < at ==> sum <= budget
            &&& forall|k: int|
                start <= k < at ==> !over_limit(model, (#[trigger] groups[k]).items)
            // Nothing older fits.
            &&& start == 0 || over_limit(model, groups[start - 1].items) || saturating(
                sum + groups[start - 1].tokens,
            ) > budget
        }),
    decreases at,
{
    if !(at <= 0 || over_limit(model, groups[at - 1].items) || saturating(
        tokens + groups[at - 1].tokens,
    ) > budget) {
        lemma_kept_groups(
            model,
            groups,
            at - 1,
            saturating(tokens + groups[at - 1].tokens),
            budget,
        );
    }
}

/// The groups that a prompt keeps are the newest ones, no item in them is over the limit, and no
/// older group could be kept beside them.
pub proof fn law_newest_groups_are_kept<M: SessionModel>(
    model: M,
    groups: Seq<GroupView>,
    budget: i64,
)
    ensures
        match newest_groups(model, groups, budget) {
            Ok((start, tokens)) => {
                &&& 0 <= start <= groups.len()
                &&& groups.len() > 0 ==> start < groups.len() && tokens <= budget
                &&& forall|k: int|
                    start <= k < groups.len() ==> !over_limit(model, (#[trigger] groups[k]).items)
                &&& start == 0 || over_limit(model, groups[start - 1].items) || saturating(
                    tokens + groups[start - 1].tokens,
                ) > budget
            },
            Err(_) => groups.len() > 0,
        },
{
    lemma_kept_groups(model, groups, groups.len() as int, 0, budget);
}

proof fn lemma_required_fit<M: SessionModel>(
    model: M,
    levels: Seq<Seq<NodeView>>,
    groups: Seq<GroupView>,
    hot: int,
    params: PairwiseRollingPromptParams,
    budget: i64,
)
    ensures
        match fit_tree(model, levels, groups, hot, params, budget, SummarySource::Required) {
            Ok(FitView::Fits { levels: _, body }) => body.tokens <= budget,
            _ => true,
        },
{
}

/// The estimate of a prompt that can be sent is within the target.
pub proof fn law_prompt_keeps_to_the_target<M: SessionModel>(
    model: M,
    raw: Seq<ItemView>,
    version: u64,
    state: StateView,
    params: ParamsView,
    fingerprint: u64,
    source: SummarySource,
)
    ensures
        match rolling_outcome(model, raw, version, state, params, fingerprint, source) {
            Ok(OutcomeView::Ready(result)) => result.estimated_prompt_tokens
                <= result.target_tokens,
            _ => true,
        },
{
    if let Some(window) = params.effective_context_window {
        let input = prompt_input(model, raw, version, state, params, fingerprint, window);
        lemma_kept_groups(
            model,
            input.groups,
            input.groups.len() as int,
            0,
            input.body_budget,
        );
        if let Some(pairwise) = params.pairwise_compaction {
            let protected = match pairwise.protected_hot_exact_tokens {
                Some(tokens) => tokens,
                None => default_protected_tokens(input.body_budget),
            };
            let hot = hot_start(input.groups, input.groups.len() as int, 0, protected);
            let nodes = input.state.pairwise_summaries + cold_nodes(input.groups.subrange(0, hot));
            let levels = compaction(
                spec_levels_from_nodes(nodes),
                0,
                settings_of(pairwise),
                source,
            ).0;
            lemma_synthetic_fit(model, levels, input.groups, hot, pairwise, input.body_budget);
            lemma_required_fit(model, levels, input.groups, hot, pairwise, input.body_budget);
        }
    }
}

// -- the item limit ---------------------------------------------------------------------------

/// No item is over the limit.
pub open spec fn all_within_limit<M: SessionModel>(model: M, items: Seq<ItemView>) -> bool {
    forall|k: int|
        0 <= k < items.len() ==> model.spec_item_tokens(#[trigger] items[k])
            <= MAX_ROLLING_PROMPT_ITEM_TOKENS
}

proof fn lemma_within_concat<M: SessionModel>(model: M, a: Seq<ItemView>, b: Seq<ItemView>)
    requires
        all_within_limit(model, a),
        all_within_limit(model, b),
    ensures
        all_within_limit(model, a + b),
{
    assert forall|k: int| 0 <= k < (a + b).len() implies model.spec_item_tokens(
        #[trigger] (a + b)[k],
    ) <= MAX_ROLLING_PROMPT_ITEM_TOKENS by {
        if k < a.len() {
            assert((a + b)[k] == a[k]);
        } else {
            assert((a + b)[k] == b[k - a.len()]);
        }
    }
}

proof fn lemma_not_over_is_within<M: SessionModel>(model: M, items: Seq<ItemView>)
    requires
        !over_limit(model, items),
    ensures
        all_within_limit(model, items),
{
}

proof fn lemma_group_items_within<M: SessionModel>(model: M, groups: Seq<GroupView>, from: int)
    requires
        0 <= from,
        forall|k: int|
            from <= k < groups.len() ==> !over_limit(model, (#[trigger] groups[k]).items),
    ensures
        all_within_limit(model, group_items(groups, from)),
    decreases groups.len(),
{
    if from < groups.len() {
        let fewer = groups.drop_last();
        assert forall|k: int| from <= k < fewer.len() implies !over_limit(
            model,
            (#[trigger] fewer[k]).items,
        ) by {
            assert(fewer[k] == groups[k]);
        }
        lemma_group_items_within(model, fewer, from);
        assert(!over_limit(model, groups[groups.len() - 1].items));
        lemma_within_concat(model, group_items(fewer, from), groups.last().items);
    }
}

proof fn lemma_first_group_over<M: SessionModel>(model: M, groups: Seq<GroupView>, from: int)
    requires
        0 <= from,
        first_group_over(model, groups, from) is None,
    ensures
        forall|k: int|
            from <= k < groups.len() ==> !over_limit(model, (#[trigger] groups[k]).items),
    decreases groups.len() - from,
{
    if from < groups.len() {
        lemma_first_group_over(model, groups, from + 1);
    }
}

proof fn lemma_nodes_body_within_limit<M: SessionModel>(
    model: M,
    nodes: Seq<NodeView>,
    cold: Seq<GroupView>,
    cap: nat,
    cap_max: nat,
)
    ensures
        match nodes_body(model, nodes, cold, cap, cap_max) {
            Ok(body) => all_within_limit(model, body.items),
            Err(_) => true,
        },
    decreases nodes.len(),
{
    if nodes.len() > 0 {
        lemma_nodes_body_within_limit(model, nodes.drop_last(), cold, cap, cap_max);
        if let Ok(body) = nodes_body(model, nodes.drop_last(), cold, cap, cap_max) {
            match nodes.last().kind {
                PairwiseNodeKind::Summary => {
                    let item = summary_item(nodes.last(), cap, cap_max);
                    if model.spec_item_tokens(item) <= MAX_ROLLING_PROMPT_ITEM_TOKENS {
                        lemma_within_concat(model, body.items, seq![item]);
                        assert(body.items.push(item) =~= body.items + seq![item]);
                    }
                },
                PairwiseNodeKind::Raw => {
                    if let Some(group) = group_of(cold, nodes.last().coverage, 0) {
                        if !over_limit(model, group.items) {
                            lemma_not_over_is_within(model, group.items);
                            lemma_within_concat(model, body.items, group.items);
                        }
                    }
                },
            }
        }
    }
}

proof fn lemma_body_with_groups_within_limit<M: SessionModel>(
    model: M,
    body: PromptBodyView,
    groups: Seq<GroupView>,
)
    requires
        all_within_limit(model, body.items),
        forall|k: int| 0 <= k < groups.len() ==> !over_limit(model, (#[trigger] groups[k]).items),
    ensures
        all_within_limit(model, body_with_groups(body, groups).items),
    decreases groups.len(),
{
    if groups.len() > 0 {
        let fewer = groups.drop_last();
        assert forall|k: int| 0 <= k < fewer.len() implies !over_limit(
            model,
            (#[trigger] fewer[k]).items,
        ) by {
            assert(fewer[k] == groups[k]);
        }
        lemma_body_with_groups_within_limit(model, body, fewer);
        assert(!over_limit(model, groups[groups.len() - 1].items));
        lemma_within_concat(model, body_with_groups(body, fewer).items, groups.last().items);
    }
}

proof fn lemma_fit_within_limit<M: SessionModel>(
    model: M,
    levels: Seq<Seq<NodeView>>,
    groups: Seq<GroupView>,
    hot: int,
    params: PairwiseRollingPromptParams,
    budget: i64,
    source: SummarySource,
)
    requires
        0 <= hot <= groups.len(),
        first_group_over(model, groups, hot) is None,
    ensures
        match fit_tree(model, levels, groups, hot, params, budget, source) {
            Ok(FitView::Fits { levels: _, body }) => all_within_limit(model, body.items),
            _ => true,
        },
    decreases total_nodes(levels),
{
    let cap = params.summary_group_token_cap as nat;
    let cap_max = params.summary_group_token_cap_max as nat;
    let cold = groups.subrange(0, hot);
    let exact = groups.subrange(hot, groups.len() as int);
    lemma_nodes_body_within_limit(model, visible(levels), cold, cap, cap_max);
    lemma_first_group_over(model, groups, hot);
    assert forall|k: int| 0 <= k < exact.len() implies !over_limit(
        model,
        (#[trigger] exact[k]).items,
    ) by {
        assert(exact[k] == groups[hot + k]);
    }
    if let Ok(body) = nodes_body(model, visible(levels), cold, cap, cap_max) {
        lemma_body_with_groups_within_limit(model, body, exact);
    }
    lemma_single_fold_total(levels, settings_of(params));
    let (after, found, missing) = single_fold(levels, settings_of(params), source);
    if found && source == SummarySource::Synthetic {
        lemma_fit_within_limit(model, after, groups, hot, params, budget, source);
    }
}

pub proof fn lemma_hot_start(groups: Seq<GroupView>, at: int, tokens: i64, protected: i64)
    requires
        0 <= at <= groups.len(),
    ensures
        0 <= hot_start(groups, at, tokens, protected) <= at,
    decreases at,
{
    if at > 0 && tokens < protected {
        lemma_hot_start(groups, at - 1, saturating(tokens + groups[at - 1].tokens), protected);
    }
}

/// Every item of a prompt that can be sent keeps to the item limit.
pub proof fn law_prompt_items_keep_to_the_limit<M: SessionModel>(
    model: M,
    raw: Seq<ItemView>,
    version: u64,
    state: StateView,
    params: ParamsView,
    fingerprint: u64,
    source: SummarySource,
)
    ensures
        match rolling_outcome(model, raw, version, state, params, fingerprint, source) {
            Ok(OutcomeView::Ready(result)) => all_within_limit(model, result.prompt_input),
            _ => true,
        },
{
    if let Some(window) = params.effective_context_window {
        let input = prompt_input(model, raw, version, state, params, fingerprint, window);
        lemma_first_over_limit_is_over(model, input.sent_prefix);
        if first_over_limit(model, input.sent_prefix) is None {
            lemma_not_over_is_within(model, input.sent_prefix);
            match params.pairwise_compaction {
                None => {
                    law_newest_groups_are_kept(model, input.groups, input.body_budget);
                    if let Ok((start, tokens)) = newest_groups(
                        model,
                        input.groups,
                        input.body_budget,
                    ) {
                        lemma_group_items_within(model, input.groups, start);
                        lemma_within_concat(
                            model,
                            input.sent_prefix,
                            group_items(input.groups, start),
                        );
                    }
                },
                Some(pairwise) => {
                    let protected = match pairwise.protected_hot_exact_tokens {
                        Some(tokens) => tokens,
                        None => default_protected_tokens(input.body_budget),
                    };
                    let len = input.groups.len() as int;
                    let hot = hot_start(input.groups, len, 0, protected);
                    lemma_hot_start(input.groups, len, 0, protected);
                    let nodes = input.state.pairwise_summaries + cold_nodes(
                        input.groups.subrange(0, hot),
                    );
                    let levels = compaction(
                        spec_levels_from_nodes(nodes),
                        0,
                        settings_of(pairwise),
                        source,
                    ).0;
                    if first_group_over(model, input.groups, hot) is None {
                        lemma_fit_within_limit(
                            model,
                            levels,
                            input.groups,
                            hot,
                            pairwise,
                            input.body_budget,
                            source,
                        );
                        if let Ok(FitView::Fits { levels: _, body }) = fit_tree(
                            model,
                            levels,
                            input.groups,
                            hot,
                            pairwise,
                            input.body_budget,
                            source,
                        ) {
                            lemma_within_concat(model, input.sent_prefix, body.items);
                        }
                    }
                },
            }
        }
    }
}

/// The cursor of a prompt that can be sent is not before the one that it started from.
pub proof fn law_prompt_cursor_moves_on<M: SessionModel>(
    model: M,
    raw: Seq<ItemView>,
    version: u64,
    state: StateView,
    params: ParamsView,
    fingerprint: u64,
    source: SummarySource,
)
    requires
        params.effective_context_window is Some,
    ensures
        ({
            let input = prompt_input(
                model,
                raw,
                version,
                state,
                params,
                fingerprint,
                params.effective_context_window->Some_0,
            );
            match rolling_outcome(model, raw, version, state, params, fingerprint, source) {
                Ok(OutcomeView::Ready(result)) => {
                    &&& result.raw_history_start_index >= input.state.raw_history_start_index
                    &&& result.projected_state.raw_history_start_index
                        == result.raw_history_start_index
                },
                _ => true,
            }
        }),
{
}

// -- groups -----------------------------------------------------------------------------------

/// Groups come in order, do not overlap, and start at the cursor or behind it.
pub proof fn law_groups_are_ordered<M: SessionModel>(
    model: M,
    raw: Seq<ItemView>,
    index: int,
    cursor: int,
    prefix: Seq<ItemView>,
)
    requires
        0 <= index,
    ensures
        forall|i: int|
            0 <= i < groups_from(model, raw, index, cursor, prefix).len() ==> index <= (
            #[trigger] groups_from(model, raw, index, cursor, prefix)[i]).start && cursor
                <= groups_from(model, raw, index, cursor, prefix)[i].start,
        forall|i: int, j: int|
            0 <= i < j < groups_from(model, raw, index, cursor, prefix).len() ==> (
            #[trigger] groups_from(model, raw, index, cursor, prefix)[i]).end <= (
            #[trigger] groups_from(model, raw, index, cursor, prefix)[j]).start,
    decreases raw.len() - index,
{
    if index < raw.len() {
        lemma_group_step(model, raw, index, cursor, prefix);
        let next = next_index(model, raw, index, cursor, prefix);
        law_groups_are_ordered(model, raw, next, cursor, prefix);
        let rest = groups_from(model, raw, next, cursor, prefix);
        let all = groups_from(model, raw, index, cursor, prefix);
        if group_step(model, raw, index, prefix).0 is Some && index >= cursor {
            let group = group_step(model, raw, index, prefix).0->Some_0;
            assert(all == seq![group] + rest);
            assert forall|i: int| 0 <= i < all.len() implies index <= (#[trigger] all[i]).start
                && cursor <= all[i].start by {
                if i > 0 {
                    assert(all[i] == rest[i - 1]);
                }
            }
            assert forall|i: int, j: int| 0 <= i < j < all.len() implies (#[trigger] all[i]).end
                <= (#[trigger] all[j]).start by {
                assert(all[j] == rest[j - 1]);
                if i > 0 {
                    assert(all[i] == rest[i - 1]);
                }
            }
        } else {
            assert(all == rest);
        }
    }
}

/// The position lies inside a span, behind its start.
spec fn inside_span(raw: Seq<ItemView>, start: int, index: int) -> bool {
    match span_end(raw, start) {
        Some(end) => start < index <= end,
        None => false,
    }
}

/// No span is cut by the group: it lies in the group as a whole or outside.
pub open spec fn span_uncut(raw: Seq<ItemView>, start: int, group: RawGroupView) -> bool {
    match span_end(raw, start) {
        Some(end) => group.end <= start || end < group.start || (group.start <= start && end
            < group.end),
        None => true,
    }
}

proof fn lemma_spans_apart(raw: Seq<ItemView>, index: int, a: int, b: int)
    requires
        0 <= index,
        spans_from(raw, index).contains_key(a),
        spans_from(raw, index).contains_key(b),
        a < b,
    ensures
        spans_from(raw, index)[a] < b,
    decreases raw.len() - index,
{
    crate::rolling_groups::lemma_spans_from_keys(raw, index);
    match span_at(raw, index) {
        Some(end) => {
            if index < end < raw.len() {
                crate::rolling_groups::lemma_spans_from_keys(raw, end + 1);
                let rest = spans_from(raw, end + 1);
                assert(spans_from(raw, index) == rest.insert(index, end));
                assert(rest.contains_key(b));
                if a != index {
                    lemma_spans_apart(raw, end + 1, a, b);
                }
            }
        },
        None => {
            assert(spans_from(raw, index) == spans_from(raw, index + 1));
            lemma_spans_apart(raw, index + 1, a, b);
        },
    }
}

/// A call is never a message, and is context only where the prefix holds it.
proof fn lemma_span_start_is_body<M: SessionModel>(
    model: M,
    raw: Seq<ItemView>,
    start: int,
    prefix: Seq<ItemView>,
)
    requires
        span_end(raw, start) is Some,
        forall|p: int| 0 <= p < prefix.len() ==> (#[trigger] prefix[p]).body is Message,
    ensures
        0 <= start < raw.len(),
        !(raw[start].body is Message),
        !historical_at(model, raw, start, prefix),
{
    lemma_span_end(raw, start);
    if prefix.contains(raw[start]) {
        let p = choose|p: int| 0 <= p < prefix.len() && prefix[p] == raw[start];
        assert(prefix[p].body is Message);
    }
}

proof fn lemma_groups_cut_no_span<M: SessionModel>(
    model: M,
    raw: Seq<ItemView>,
    index: int,
    cursor: int,
    prefix: Seq<ItemView>,
    start: int,
)
    requires
        0 <= index,
        forall|p: int| 0 <= p < prefix.len() ==> (#[trigger] prefix[p]).body is Message,
        forall|s: int| !#[trigger] inside_span(raw, s, index),
    ensures
        forall|i: int|
            0 <= i < groups_from(model, raw, index, cursor, prefix).len() ==> span_uncut(
                raw,
                start,
                #[trigger] groups_from(model, raw, index, cursor, prefix)[i],
            ),
    decreases raw.len() - index,
{
    if index < raw.len() {
        lemma_group_step(model, raw, index, cursor, prefix);
        let next = next_index(model, raw, index, cursor, prefix);
        let step = group_step(model, raw, index, prefix);
        lemma_span_end(raw, index);
        lemma_turn_group_end(model, raw, index, prefix);
        if let Some(end) = span_end(raw, index) {
            lemma_turn_input_run(model, raw, end + 1, prefix, None);
        }
        assert forall|s: int| !#[trigger] inside_span(raw, s, next) by {
            if inside_span(raw, s, next) {
                lemma_span_end(raw, s);
                lemma_span_start_is_body(model, raw, s, prefix);
                assert(!inside_span(raw, s, index));
                // The span starts at or behind `index`.
                assert(s >= index);
                if s > index {
                    if let Some(end) = span_end(raw, index) {
                        lemma_span_start_is_body(model, raw, index, prefix);
                        lemma_spans_apart(raw, 0, index, s);
                    }
                    assert(raw[s].body is Message || next <= s);
                } else {
                    lemma_span_start_is_body(model, raw, index, prefix);
                }
            }
        }
        lemma_groups_cut_no_span(model, raw, next, cursor, prefix, start);
        let rest = groups_from(model, raw, next, cursor, prefix);
        let all = groups_from(model, raw, index, cursor, prefix);
        if step.0 is Some && index >= cursor {
            let group = step.0->Some_0;
            assert(all == seq![group] + rest);
            assert(span_uncut(raw, start, group)) by {
                if span_end(raw, start) is Some {
                    lemma_span_end(raw, start);
                    lemma_span_start_is_body(model, raw, start, prefix);
                    assert(!inside_span(raw, start, index));
                    if start == index {
                    } else if start > index && start < group.end {
                        assert(!inside_span(raw, start, next));
                        if span_end(raw, index) is Some {
                            lemma_span_start_is_body(model, raw, index, prefix);
                            lemma_spans_apart(raw, 0, index, start);
                        }
                        assert(raw[start].body is Message);
                    }
                }
            }
            assert forall|i: int| 0 <= i < all.len() implies span_uncut(
                raw,
                start,
                #[trigger] all[i],
            ) by {
                if i > 0 {
                    assert(all[i] == rest[i - 1]);
                }
            }
        } else {
            assert(all == rest);
        }
    }
}

/// Every call with a later output lies in a span together with its last output.
proof fn lemma_call_lies_in_span(raw: Seq<ItemView>, index: int, call: int, output: int) -> (start:
    int)
    requires
        0 <= index <= call < output,
        call_output(raw, call, output),
    ensures
        spans_from(raw, index).contains_key(start),
        index <= start <= call,
        output <= spans_from(raw, index)[start],
    decreases raw.len() - index,
{
    let key = spec_call_key(raw[call])->Some_0;
    lemma_last_output(raw, key);
    match span_at(raw, index) {
        Some(end) => {
            let own = spec_call_key(raw[index])->Some_0;
            lemma_last_output(raw, own);
            let first = last_output_of(raw, own);
            lemma_span_reach(raw, index + 1, first);
            assert(index < end < raw.len());
            if call == index {
                index
            } else if call <= end {
                assert(call_output(raw, call, output));
                index
            } else {
                let start = lemma_call_lies_in_span(raw, end + 1, call, output);
                assert(spans_from(raw, index) == spans_from(raw, end + 1).insert(index, end));
                start
            }
        },
        None => {
            assert(call != index);
            let start = lemma_call_lies_in_span(raw, index + 1, call, output);
            start
        },
    }
}

spec fn last_output_of(raw: Seq<ItemView>, key: crate::rolling_groups::KeyView) -> int {
    crate::rolling_groups::last_output(raw, key)->Some_0
}

/// A group never parts a call from its last output, where the prefix holds messages only.
pub proof fn law_groups_keep_calls_with_outputs<M: SessionModel>(
    model: M,
    raw: Seq<ItemView>,
    cursor: int,
    prefix: Seq<ItemView>,
    call: int,
    output: int,
    group: int,
)
    requires
        forall|p: int| 0 <= p < prefix.len() ==> (#[trigger] prefix[p]).body is Message,
        call_output(raw, call, output),
        call < output,
        0 <= group < groups_from(model, raw, 0, cursor, prefix).len(),
    ensures
        ({
            let g = groups_from(model, raw, 0, cursor, prefix)[group];
            g.start <= call < g.end <==> g.start <= output < g.end
        }),
{
    let start = lemma_call_lies_in_span(raw, 0, call, output);
    lemma_span_end(raw, start);
    assert forall|s: int| !#[trigger] inside_span(raw, s, 0) by {
        lemma_span_end(raw, s);
    }
    lemma_groups_cut_no_span(model, raw, 0, cursor, prefix, start);
    let g = groups_from(model, raw, 0, cursor, prefix)[group];
    assert(span_uncut(raw, start, g));
}

// -- what a prompt shows ----------------------------------------------------------------------

/// Where the exact groups of a pairwise prompt start.
pub open spec fn exact_start(input: PairwiseInputView, pairwise: PairwiseRollingPromptParams) -> int {
    let protected = match pairwise.protected_hot_exact_tokens {
        Some(tokens) => tokens,
        None => default_protected_tokens(input.body_budget),
    };
    hot_start(input.groups, input.groups.len() as int, 0, protected)
}

/// The groups that may be shown under a summary.
pub open spec fn cold_groups(
    input: PairwiseInputView,
    pairwise: PairwiseRollingPromptParams,
) -> Seq<GroupView> {
    input.groups.subrange(0, exact_start(input, pairwise))
}

/// The groups that are shown as they are, whatever the budget.
pub open spec fn exact_groups(
    input: PairwiseInputView,
    pairwise: PairwiseRollingPromptParams,
) -> Seq<GroupView> {
    input.groups.subrange(exact_start(input, pairwise), input.groups.len() as int)
}

/// The summaries and the cold groups that the tree is built from.
pub open spec fn tree_nodes(
    input: PairwiseInputView,
    pairwise: PairwiseRollingPromptParams,
) -> Seq<NodeView> {
    input.state.pairwise_summaries + cold_nodes(cold_groups(input, pairwise))
}

/// The nodes that the body shows before the exact groups.
pub open spec fn shown_nodes<M: SessionModel>(
    model: M,
    input: PairwiseInputView,
    pairwise: PairwiseRollingPromptParams,
    source: SummarySource,
) -> Seq<NodeView> {
    let tree = compaction(
        spec_levels_from_nodes(tree_nodes(input, pairwise)),
        0,
        settings_of(pairwise),
        source,
    ).0;
    match fit_tree(
        model,
        tree,
        input.groups,
        exact_start(input, pairwise),
        pairwise,
        input.body_budget,
        source,
    ) {
        Ok(FitView::Fits { levels, body: _ }) => visible(levels),
        _ => Seq::empty(),
    }
}

/// The items of a body that shows these nodes and then these groups.
pub open spec fn shown_items<M: SessionModel>(
    model: M,
    nodes: Seq<NodeView>,
    cold: Seq<GroupView>,
    exact: Seq<GroupView>,
    pairwise: PairwiseRollingPromptParams,
) -> Seq<ItemView> {
    match nodes_body(
        model,
        nodes,
        cold,
        pairwise.summary_group_token_cap as nat,
        pairwise.summary_group_token_cap_max as nat,
    ) {
        Ok(body) => body_with_groups(body, exact).items,
        Err(_) => Seq::empty(),
    }
}

/// How many of the groups cover the raw index `x`.
pub open spec fn groups_cover_count(groups: Seq<GroupView>, x: int) -> nat {
    cover_count(cold_nodes(groups), x)
}

/// The summaries have a range each, they and the cold groups nest or lie apart, and no summary
/// reaches into an exact group.
pub open spec fn summaries_fit(
    input: PairwiseInputView,
    pairwise: PairwiseRollingPromptParams,
) -> bool {
    let exact = cold_nodes(exact_groups(input, pairwise));
    &&& nodes_wf(input.state.pairwise_summaries)
    &&& nested_or_apart(stable_sort(NodeOrder::Dominance, tree_nodes(input, pairwise)))
    &&& forall|i: int, k: int|
        0 <= i < input.state.pairwise_summaries.len() && 0 <= k < exact.len() ==> (
        #[trigger] input.state.pairwise_summaries[i]).coverage.disjoint(
            (#[trigger] exact[k]).coverage,
        )
}

/// Groups come one after the other.
pub open spec fn groups_ordered(groups: Seq<GroupView>) -> bool {
    forall|i: int, j: int|
        0 <= i < j < groups.len() ==> (#[trigger] groups[i]).end <= (#[trigger] groups[j]).start
}

proof fn lemma_sent_groups_ordered<M: SessionModel>(
    model: M,
    groups: Seq<RawGroupView>,
    modalities: Seq<InputModality>,
    prefix: Seq<ItemView>,
    limit: nat,
    len: int,
)
    requires
        raw_groups_within(groups, len),
        forall|i: int, j: int|
            0 <= i < j < groups.len() ==> (#[trigger] groups[i]).end <= (
            #[trigger] groups[j]).start,
    ensures
        groups_ordered(sent_groups(model, groups, modalities, prefix, limit)),
        forall|i: int|
            0 <= i < sent_groups(model, groups, modalities, prefix, limit).len() ==> groups.len()
                > 0 && (#[trigger] sent_groups(model, groups, modalities, prefix, limit)[i]).end
                <= groups.last().end,
    decreases groups.len(),
{
    if groups.len() > 0 {
        let fewer = groups.drop_last();
        assert(forall|i: int| 0 <= i < fewer.len() ==> fewer[i] == groups[i]);
        assert(raw_groups_within(fewer, len)) by {
            assert forall|i: int| 0 <= i < fewer.len() implies 0 <= (#[trigger] fewer[i]).start
                < fewer[i].end <= len by {
                assert(fewer[i] == groups[i]);
            }
        }
        lemma_sent_groups_ordered(model, fewer, modalities, prefix, limit, len);
        let rest = sent_groups(model, fewer, modalities, prefix, limit);
        let all = sent_groups(model, groups, modalities, prefix, limit);
        let last = groups[groups.len() - 1];
        assert(last.start < last.end);
        assert forall|i: int| 0 <= i < rest.len() implies (#[trigger] rest[i]).end
            <= last.start by {
            assert(groups[fewer.len() - 1].end <= last.start);
        }
        assert forall|i: int, j: int| 0 <= i < j < all.len() implies (#[trigger] all[i]).end <= (
        #[trigger] all[j]).start by {
            assert(all[i] == rest[i]);
            if j < rest.len() {
                assert(all[j] == rest[j]);
            }
        }
        assert forall|i: int| 0 <= i < all.len() implies (#[trigger] all[i]).end <= last.end by {
            if i < rest.len() {
                assert(all[i] == rest[i]);
            }
        }
    }
}

pub proof fn lemma_input_groups<M: SessionModel>(
    model: M,
    raw: Seq<ItemView>,
    version: u64,
    state: StateView,
    params: ParamsView,
    fingerprint: u64,
    window: i64,
)
    ensures
        ({
            let input = prompt_input(model, raw, version, state, params, fingerprint, window);
            &&& groups_within(input.groups, raw.len() as int)
            &&& groups_ordered(input.groups)
        }),
{
    let input = prompt_input(model, raw, version, state, params, fingerprint, window);
    let cursor = input.state.raw_history_start_index as int;
    let limit = output_limit(params.tool_output_limit_tokens);
    let groups = groups_from(model, raw, 0, cursor, params.prefix);
    lemma_groups_from_within(model, raw, 0, cursor, params.prefix);
    law_groups_are_ordered(model, raw, 0, cursor, params.prefix);
    lemma_sent_groups_within(
        model,
        groups,
        params.input_modalities,
        params.prefix,
        limit,
        raw.len() as int,
    );
    lemma_sent_groups_ordered(
        model,
        groups,
        params.input_modalities,
        params.prefix,
        limit,
        raw.len() as int,
    );
}

pub proof fn lemma_hot_start_bounds(groups: Seq<GroupView>, at: int, tokens: i64, protected: i64)
    requires
        0 <= at <= groups.len(),
    ensures
        0 <= hot_start(groups, at, tokens, protected) <= at,
    decreases at,
{
    if at > 0 && tokens < protected {
        lemma_hot_start_bounds(
            groups,
            at - 1,
            saturating(tokens + groups[at - 1].tokens),
            protected,
        );
    }
}

/// Fitting a tree under a budget changes no coverage.
proof fn lemma_fit_keeps_coverage<M: SessionModel>(
    model: M,
    levels: Seq<Seq<NodeView>>,
    groups: Seq<GroupView>,
    hot: int,
    params: PairwiseRollingPromptParams,
    budget: i64,
    source: SummarySource,
    x: int,
)
    requires
        levels_wf(levels),
    ensures
        match fit_tree(model, levels, groups, hot, params, budget, source) {
            Ok(FitView::Fits { levels: fitted, body: _ }) => levels_wf(fitted)
                && levels_cover_count(fitted, x) == levels_cover_count(levels, x),
            _ => true,
        },
    decreases total_nodes(levels),
{
    law_single_fold(levels, settings_of(params), x);
    let (after, found, missing) = single_fold(levels, settings_of(params), source);
    if source == SummarySource::Synthetic && found && missing is None {
        lemma_fit_keeps_coverage(model, after, groups, hot, params, budget, source, x);
    }
}

pub proof fn lemma_fit_stands<M: SessionModel>(
    model: M,
    levels: Seq<Seq<NodeView>>,
    groups: Seq<GroupView>,
    hot: int,
    params: PairwiseRollingPromptParams,
    budget: i64,
    source: SummarySource,
    given: Seq<NodeView>,
    range: CoverageInterval,
)
    requires
        levels_stand(levels, given, range),
        range.wf() || range == nothing(),
    ensures
        match fit_tree(model, levels, groups, hot, params, budget, source) {
            Ok(FitView::Fits { levels: fitted, body: _ }) => levels_stand(fitted, given, range),
            _ => true,
        },
    decreases total_nodes(levels),
{
    lemma_single_fold_total(levels, settings_of(params));
    lemma_single_fold_stands(levels, settings_of(params), given, range);
    let (after, found, missing) = single_fold(levels, settings_of(params), source);
    if source == SummarySource::Synthetic && found && missing is None {
        lemma_fit_stands(model, after, groups, hot, params, budget, source, given, range);
    }
}

pub proof fn lemma_group_nodes(groups: Seq<GroupView>, len: int)
    requires
        groups_within(groups, len),
        len <= usize::MAX,
    ensures
        nodes_wf(cold_nodes(groups)),
        forall|k: int|
            0 <= k < groups.len() ==> (#[trigger] cold_nodes(groups)[k]).coverage.raw_start_index
                == groups[k].start && cold_nodes(groups)[k].coverage.raw_end_exclusive
                == groups[k].end,
{
    let nodes = cold_nodes(groups);
    assert forall|k: int| 0 <= k < groups.len() implies (
    #[trigger] nodes[k]).coverage.raw_start_index == groups[k].start
        && nodes[k].coverage.raw_end_exclusive == groups[k].end && nodes[k].coverage.wf() by {
        assert(0 <= groups[k].start < groups[k].end <= len);
    }
}

/// Of groups that come one after the other at most one covers an index.
proof fn lemma_groups_cover_once(groups: Seq<GroupView>, len: int, x: int)
    requires
        groups_within(groups, len),
        groups_ordered(groups),
        len <= usize::MAX,
    ensures
        groups_cover_count(groups, x) <= 1,
    decreases groups.len(),
{
    if groups.len() > 0 {
        let fewer = groups.drop_last();
        let nodes = cold_nodes(groups);
        assert(groups_within(fewer, len)) by {
            assert(forall|i: int| 0 <= i < fewer.len() ==> fewer[i] == groups[i]);
        }
        assert(groups_ordered(fewer)) by {
            assert(forall|i: int| 0 <= i < fewer.len() ==> fewer[i] == groups[i]);
        }
        lemma_groups_cover_once(fewer, len, x);
        lemma_group_nodes(groups, len);
        assert(nodes.drop_last() =~= cold_nodes(fewer));
        lemma_count_positive(cold_nodes(fewer), x);
        if cover_count(cold_nodes(fewer), x) > 0 {
            let k = choose|k: int|
                0 <= k < cold_nodes(fewer).len() && (
                #[trigger] cold_nodes(fewer)[k]).coverage.contains(x);
            assert(cold_nodes(fewer)[k] == nodes[k]);
            assert(groups[k].end <= groups[groups.len() - 1].start);
            assert(nodes[nodes.len() - 1].coverage.raw_start_index == groups[groups.len()
                - 1].start);
        }
    }
}

proof fn lemma_groups_count_split(groups: Seq<GroupView>, at: int, x: int)
    requires
        0 <= at <= groups.len(),
    ensures
        groups_cover_count(groups, x) == groups_cover_count(groups.subrange(0, at), x)
            + groups_cover_count(groups.subrange(at, groups.len() as int), x),
{
    let front = cold_nodes(groups.subrange(0, at));
    let back = cold_nodes(groups.subrange(at, groups.len() as int));
    assert(cold_nodes(groups) =~= front + back);
    lemma_count_concat(front, back, x);
}

/// What holds of the groups of a pairwise prompt before anything is folded.
pub proof fn lemma_exact_start(input: PairwiseInputView, pairwise: PairwiseRollingPromptParams, len: int)
    requires
        groups_within(input.groups, len),
        groups_ordered(input.groups),
    ensures
        0 <= exact_start(input, pairwise) <= input.groups.len(),
        groups_within(cold_groups(input, pairwise), len),
        groups_ordered(cold_groups(input, pairwise)),
        groups_within(exact_groups(input, pairwise), len),
        groups_ordered(exact_groups(input, pairwise)),
{
    let protected = match pairwise.protected_hot_exact_tokens {
        Some(tokens) => tokens,
        None => default_protected_tokens(input.body_budget),
    };
    lemma_hot_start_bounds(input.groups, input.groups.len() as int, 0, protected);
    let hot = exact_start(input, pairwise);
    let cold = cold_groups(input, pairwise);
    let exact = exact_groups(input, pairwise);
    assert(forall|k: int| 0 <= k < cold.len() ==> cold[k] == input.groups[k]);
    assert(forall|k: int| 0 <= k < exact.len() ==> exact[k] == input.groups[hot + k]);
}

pub proof fn lemma_tree_nodes_wf(
    input: PairwiseInputView,
    pairwise: PairwiseRollingPromptParams,
    len: int,
)
    requires
        groups_within(input.groups, len),
        groups_ordered(input.groups),
        len <= usize::MAX,
        nodes_wf(input.state.pairwise_summaries),
    ensures
        nodes_wf(tree_nodes(input, pairwise)),
{
    lemma_exact_start(input, pairwise, len);
    let summaries = input.state.pairwise_summaries;
    let cold = cold_nodes(cold_groups(input, pairwise));
    lemma_group_nodes(cold_groups(input, pairwise), len);
    let nodes = tree_nodes(input, pairwise);
    assert forall|i: int| 0 <= i < nodes.len() implies (#[trigger] nodes[i]).coverage.wf() by {
        if i < summaries.len() {
            assert(nodes[i] == summaries[i]);
        } else {
            assert(nodes[i] == cold[i - summaries.len()]);
        }
    }
}

/// The shown nodes cover what the summaries and the cold groups cover, once.
proof fn lemma_shown_nodes_cover<M: SessionModel>(
    model: M,
    input: PairwiseInputView,
    pairwise: PairwiseRollingPromptParams,
    source: SummarySource,
    len: int,
    x: int,
)
    requires
        groups_within(input.groups, len),
        groups_ordered(input.groups),
        len <= usize::MAX,
        summaries_fit(input, pairwise),
        pairwise_outcome(model, input, pairwise, source) matches Ok(OutcomeView::Ready(_)),
    ensures
        nodes_wf(shown_nodes(model, input, pairwise, source)),
        cover_count(shown_nodes(model, input, pairwise, source), x) == if cover_count(
            tree_nodes(input, pairwise),
            x,
        ) > 0 {
            1nat
        } else {
            0
        },
{
    let nodes = tree_nodes(input, pairwise);
    lemma_tree_nodes_wf(input, pairwise, len);
    lemma_levels_from_nodes(nodes, x);
    let start = spec_levels_from_nodes(nodes);
    law_compaction_keeps_coverage(start, 0, settings_of(pairwise), source, x);
    let tree = compaction(start, 0, settings_of(pairwise), source).0;
    let hot = exact_start(input, pairwise);
    lemma_fit_keeps_coverage(
        model,
        tree,
        input.groups,
        hot,
        pairwise,
        input.body_budget,
        source,
        x,
    );
    if let Ok(FitView::Fits { levels, body: _ }) = fit_tree(
        model,
        tree,
        input.groups,
        hot,
        pairwise,
        input.body_budget,
        source,
    ) {
        law_visible_keeps_coverage(levels, x);
    }
}

/// A prompt shows its prefix, then the nodes of its tree, then the exact groups.
pub proof fn lemma_shown_items<M: SessionModel>(
    model: M,
    levels: Seq<Seq<NodeView>>,
    groups: Seq<GroupView>,
    hot: int,
    params: PairwiseRollingPromptParams,
    budget: i64,
    source: SummarySource,
)
    ensures
        match fit_tree(model, levels, groups, hot, params, budget, source) {
            Ok(FitView::Fits { levels: fitted, body }) => body.items == shown_items(
                model,
                visible(fitted),
                groups.subrange(0, hot),
                groups.subrange(hot, groups.len() as int),
                params,
            ),
            _ => true,
        },
    decreases total_nodes(levels),
{
    lemma_single_fold_total(levels, settings_of(params));
    let (after, found, missing) = single_fold(levels, settings_of(params), source);
    if source == SummarySource::Synthetic && found && missing is None {
        lemma_shown_items(model, after, groups, hot, params, budget, source);
    }
}

/// A pairwise prompt that can be sent shows every raw index once: it is made of its prefix, the
/// shown nodes and the exact groups, and an index that a summary or a group covers is covered by
/// exactly one shown node or exact group, every other index by none.
pub proof fn law_prompt_shows_every_index_once<M: SessionModel>(
    model: M,
    raw: Seq<ItemView>,
    version: u64,
    state: StateView,
    params: ParamsView,
    pairwise: PairwiseRollingPromptParams,
    fingerprint: u64,
    source: SummarySource,
)
    requires
        raw.len() <= usize::MAX,
        params.effective_context_window is Some,
        params.pairwise_compaction == Some(pairwise),
        summaries_fit(
            prompt_input(
                model,
                raw,
                version,
                state,
                params,
                fingerprint,
                params.effective_context_window->Some_0,
            ),
            pairwise,
        ),
    ensures
        ({
            let input = prompt_input(
                model,
                raw,
                version,
                state,
                params,
                fingerprint,
                params.effective_context_window->Some_0,
            );
            let shown = shown_nodes(model, input, pairwise, source);
            let cold = cold_groups(input, pairwise);
            let exact = exact_groups(input, pairwise);
            match rolling_outcome(model, raw, version, state, params, fingerprint, source) {
                Ok(OutcomeView::Ready(result)) => {
                    &&& result.prompt_input == input.sent_prefix + shown_items(
                        model,
                        shown,
                        cold,
                        exact,
                        pairwise,
                    )
                    &&& forall|x: int|
                        #![trigger cover_count(shown, x)]
                        #![trigger groups_cover_count(exact, x)]
                        cover_count(shown, x) + groups_cover_count(exact, x) == if cover_count(
                            input.state.pairwise_summaries,
                            x,
                        ) + groups_cover_count(input.groups, x) > 0 {
                            1nat
                        } else {
                            0
                        }
                },
                _ => true,
            }
        }),
{
    let window = params.effective_context_window->Some_0;
    let input = prompt_input(model, raw, version, state, params, fingerprint, window);
    let len = raw.len() as int;
    lemma_input_groups(model, raw, version, state, params, fingerprint, window);
    if let Ok(OutcomeView::Ready(result)) = rolling_outcome(
        model,
        raw,
        version,
        state,
        params,
        fingerprint,
        source,
    ) {
        let shown = shown_nodes(model, input, pairwise, source);
        let exact = exact_groups(input, pairwise);
        let nodes = tree_nodes(input, pairwise);
        let tree = compaction(
            spec_levels_from_nodes(nodes),
            0,
            settings_of(pairwise),
            source,
        ).0;
        let hot = exact_start(input, pairwise);
        lemma_shown_items(
            model,
            tree,
            input.groups,
            hot,
            pairwise,
            input.body_budget,
            source,
        );
        assert forall|x: int|
            #![trigger cover_count(shown, x)]
            #![trigger groups_cover_count(exact, x)]
            cover_count(shown, x) + groups_cover_count(exact, x) == if cover_count(
                input.state.pairwise_summaries,
                x,
            ) + groups_cover_count(input.groups, x) > 0 {
                1nat
            } else {
                0
            } by {
            lemma_shown_nodes_cover(model, input, pairwise, source, len, x);
            lemma_exact_start(input, pairwise, len);
            lemma_groups_count_split(input.groups, hot, x);
            lemma_groups_cover_once(input.groups, len, x);
            let cold = cold_nodes(cold_groups(input, pairwise));
            lemma_count_concat(input.state.pairwise_summaries, cold, x);
            lemma_count_positive(input.state.pairwise_summaries, x);
            lemma_count_positive(cold_nodes(exact), x);
        }
    }
}

proof fn lemma_sorted_unchanged(order: NodeOrder, s: Seq<NodeView>)
    requires
        sorted_by_order(order, s),
    ensures
        stable_sort(order, s) == s,
    decreases s.len(),
{
    if s.len() > 0 {
        let rest = s.drop_last();
        assert(forall|i: int| 0 <= i < rest.len() ==> rest[i] == s[i]);
        lemma_sorted_unchanged(order, rest);
        if rest.len() > 0 {
            assert(in_order(order, s[rest.len() - 1], s[s.len() - 1]));
        }
        assert(rest.push(s.last()) =~= s);
    }
}

/// A prompt that starts without summaries meets what showing every index once asks for.
pub proof fn law_groups_alone_fit<M: SessionModel>(
    model: M,
    raw: Seq<ItemView>,
    version: u64,
    state: StateView,
    params: ParamsView,
    pairwise: PairwiseRollingPromptParams,
    fingerprint: u64,
    window: i64,
)
    requires
        raw.len() <= usize::MAX,
        prompt_input(
            model,
            raw,
            version,
            state,
            params,
            fingerprint,
            window,
        ).state.pairwise_summaries.len() == 0,
    ensures
        summaries_fit(
            prompt_input(model, raw, version, state, params, fingerprint, window),
            pairwise,
        ),
{
    let input = prompt_input(model, raw, version, state, params, fingerprint, window);
    let len = raw.len() as int;
    lemma_input_groups(model, raw, version, state, params, fingerprint, window);
    lemma_exact_start(input, pairwise, len);
    let cold = cold_groups(input, pairwise);
    let nodes = cold_nodes(cold);
    assert(tree_nodes(input, pairwise) =~= nodes);
    lemma_group_nodes(cold, len);
    assert forall|i: int, j: int| 0 <= i < j < nodes.len() implies in_order(
        NodeOrder::Dominance,
        #[trigger] nodes[i],
        #[trigger] nodes[j],
    ) && nodes[i].coverage.disjoint(nodes[j].coverage) by {
        assert(cold[i].end <= cold[j].start);
        assert(cold[i].start < cold[i].end);
    }
    lemma_sorted_unchanged(NodeOrder::Dominance, nodes);
}

/// The raw indices that a group covers.
pub open spec fn range_of(group: GroupView) -> CoverageInterval {
    CoverageInterval {
        raw_start_index: group.start as usize,
        raw_end_exclusive: group.end as usize,
    }
}

/// The group is shown by the node at `at` and by no other: as it is where the node is raw, under
/// its summary where it is not.
pub open spec fn shown_at(
    nodes: Seq<NodeView>,
    cold: Seq<GroupView>,
    group: GroupView,
    at: int,
) -> bool {
    &&& 0 <= at < nodes.len()
    &&& nodes[at].coverage.spec_covers(range_of(group))
    &&& nodes[at].kind == PairwiseNodeKind::Raw ==> group_of(cold, nodes[at].coverage, 0) == Some(
        group,
    )
    &&& forall|j: int|
        0 <= j < nodes.len() && j != at ==> (#[trigger] nodes[j]).coverage.disjoint(range_of(group))
}

/// Exactly one of the nodes shows the group.
pub open spec fn shown_once(
    nodes: Seq<NodeView>,
    cold: Seq<GroupView>,
    group: GroupView,
) -> bool {
    exists|at: int| #[trigger] shown_at(nodes, cold, group, at)
}

/// No node reaches into the group.
pub open spec fn apart_from(nodes: Seq<NodeView>, group: GroupView) -> bool {
    forall|i: int| 0 <= i < nodes.len() ==> (#[trigger] nodes[i]).coverage.disjoint(range_of(group))
}

/// Each of the nodes is a summary.
pub open spec fn only_summaries(nodes: Seq<NodeView>) -> bool {
    forall|i: int|
        0 <= i < nodes.len() ==> (#[trigger] nodes[i]).kind == PairwiseNodeKind::Summary
}

/// Of groups that come one after the other, each is found by its range.
pub proof fn lemma_group_found(groups: Seq<GroupView>, len: int, from: int, k: int)
    requires
        groups_within(groups, len),
        groups_ordered(groups),
        len <= usize::MAX,
        0 <= from <= k < groups.len(),
    ensures
        group_of(groups, range_of(groups[k]), from) == Some(groups[k]),
    decreases k - from,
{
    assert(groups[k].start < groups[k].end);
    assert(groups[from].start < groups[from].end);
    if from < k {
        assert(groups[from].end <= groups[k].start);
        lemma_group_found(groups, len, from + 1, k);
    }
}

proof fn lemma_shown_nodes_stand<M: SessionModel>(
    model: M,
    input: PairwiseInputView,
    pairwise: PairwiseRollingPromptParams,
    source: SummarySource,
    len: int,
    k: int,
)
    requires
        groups_within(input.groups, len),
        groups_ordered(input.groups),
        len <= usize::MAX,
        summaries_fit(input, pairwise),
        0 <= k < cold_groups(input, pairwise).len(),
    ensures
        nodes_stand(
            shown_nodes(model, input, pairwise, source),
            tree_nodes(input, pairwise),
            range_of(cold_groups(input, pairwise)[k]),
        ),
{
    let nodes = tree_nodes(input, pairwise);
    let cold = cold_groups(input, pairwise);
    let range = range_of(cold[k]);
    lemma_exact_start(input, pairwise, len);
    lemma_tree_nodes_wf(input, pairwise, len);
    lemma_group_nodes(cold, len);
    let at = input.state.pairwise_summaries.len() + k;
    assert(nodes[at] == cold_nodes(cold)[k]);
    lemma_built_tree_stands(nodes, at);
    let start = spec_levels_from_nodes(nodes);
    lemma_compaction_stands(start, 0, settings_of(pairwise), source, nodes, range);
    let tree = compaction(start, 0, settings_of(pairwise), source).0;
    let hot = exact_start(input, pairwise);
    lemma_fit_stands(
        model,
        tree,
        input.groups,
        hot,
        pairwise,
        input.body_budget,
        source,
        nodes,
        range,
    );
    if let Ok(FitView::Fits { levels, body: _ }) = fit_tree(
        model,
        tree,
        input.groups,
        hot,
        pairwise,
        input.body_budget,
        source,
    ) {
        lemma_visible_stands(levels, nodes, range);
    }
}

proof fn lemma_cold_group_shown<M: SessionModel>(
    model: M,
    input: PairwiseInputView,
    pairwise: PairwiseRollingPromptParams,
    source: SummarySource,
    len: int,
    k: int,
)
    requires
        groups_within(input.groups, len),
        groups_ordered(input.groups),
        len <= usize::MAX,
        summaries_fit(input, pairwise),
        only_summaries(input.state.pairwise_summaries),
        pairwise_outcome(model, input, pairwise, source) matches Ok(OutcomeView::Ready(_)),
        0 <= k < cold_groups(input, pairwise).len(),
    ensures
        shown_once(
            shown_nodes(model, input, pairwise, source),
            cold_groups(input, pairwise),
            cold_groups(input, pairwise)[k],
        ),
{
    let nodes = tree_nodes(input, pairwise);
    let summaries = input.state.pairwise_summaries;
    let shown = shown_nodes(model, input, pairwise, source);
    let cold = cold_groups(input, pairwise);
    let range = range_of(cold[k]);
    let x = range.raw_start_index as int;
    lemma_exact_start(input, pairwise, len);
    lemma_group_nodes(cold, len);
    lemma_shown_nodes_stand(model, input, pairwise, source, len, k);
    lemma_shown_nodes_cover(model, input, pairwise, source, len, x);
    assert(nodes[summaries.len() + k] == cold_nodes(cold)[k]);
    lemma_count_positive(nodes, x);
    assert(nodes[summaries.len() + k].coverage.contains(x));
    let at = lemma_covered_once(shown, nodes, range);
    if shown[at].kind == PairwiseNodeKind::Raw {
        assert(stands(shown[at], nodes, range));
        let i = choose|i: int| 0 <= i < nodes.len() && nodes[i] == shown[at];
        if i < summaries.len() {
            assert(nodes[i] == summaries[i]);
        }
        let other = i - summaries.len();
        assert(nodes[i] == cold_nodes(cold)[other]);
        if other < k {
            assert(cold[other].end <= cold[k].start);
        } else if other > k {
            assert(cold[k].end <= cold[other].start);
        }
        assert(other == k);
        lemma_group_found(cold, len, 0, k);
    }
    assert(shown_at(shown, cold, cold[k], at));
}

proof fn lemma_exact_group_apart<M: SessionModel>(
    model: M,
    input: PairwiseInputView,
    pairwise: PairwiseRollingPromptParams,
    source: SummarySource,
    len: int,
    k: int,
)
    requires
        groups_within(input.groups, len),
        groups_ordered(input.groups),
        len <= usize::MAX,
        summaries_fit(input, pairwise),
        pairwise_outcome(model, input, pairwise, source) matches Ok(OutcomeView::Ready(_)),
        0 <= k < exact_groups(input, pairwise).len(),
    ensures
        apart_from(
            shown_nodes(model, input, pairwise, source),
            exact_groups(input, pairwise)[k],
        ),
{
    let nodes = tree_nodes(input, pairwise);
    let summaries = input.state.pairwise_summaries;
    let shown = shown_nodes(model, input, pairwise, source);
    let cold = cold_groups(input, pairwise);
    let exact = exact_groups(input, pairwise);
    let range = range_of(exact[k]);
    let hot = exact_start(input, pairwise);
    lemma_exact_start(input, pairwise, len);
    lemma_group_nodes(cold, len);
    lemma_group_nodes(exact, len);
    assert(cold_nodes(exact)[k].coverage == range);
    assert forall|i: int| 0 <= i < shown.len() implies (#[trigger] shown[i]).coverage.disjoint(
        range,
    ) by {
        if !shown[i].coverage.disjoint(range) {
            // The later of the two starts lies in both ranges.
            let x = if shown[i].coverage.raw_start_index > range.raw_start_index {
                shown[i].coverage.raw_start_index as int
            } else {
                range.raw_start_index as int
            };
            lemma_shown_nodes_cover(model, input, pairwise, source, len, x);
            assert(shown[i].coverage.wf());
            assert(shown[i].coverage.contains(x));
            lemma_count_positive(shown, x);
            lemma_count_positive(nodes, x);
            let j = choose|j: int| 0 <= j < nodes.len() && (#[trigger] nodes[j]).coverage.contains(x);
            if j < summaries.len() {
                assert(nodes[j] == summaries[j]);
                assert(summaries[j].coverage.disjoint(cold_nodes(exact)[k].coverage));
            } else {
                let other = j - summaries.len();
                assert(nodes[j] == cold_nodes(cold)[other]);
                assert(cold[other] == input.groups[other]);
                assert(exact[k] == input.groups[hot + k]);
            }
        }
    }
}

/// A pairwise prompt that can be sent shows every group once: an exact group as it is, with no
/// node that reaches into it, and each group before those by exactly one shown node, either as it
/// is or as a whole under one summary.
pub proof fn law_prompt_shows_every_group_once<M: SessionModel>(
    model: M,
    raw: Seq<ItemView>,
    version: u64,
    state: StateView,
    params: ParamsView,
    pairwise: PairwiseRollingPromptParams,
    fingerprint: u64,
    source: SummarySource,
)
    requires
        raw.len() <= usize::MAX,
        params.effective_context_window is Some,
        params.pairwise_compaction == Some(pairwise),
        only_summaries(state.pairwise_summaries),
        summaries_fit(
            prompt_input(
                model,
                raw,
                version,
                state,
                params,
                fingerprint,
                params.effective_context_window->Some_0,
            ),
            pairwise,
        ),
    ensures
        ({
            let input = prompt_input(
                model,
                raw,
                version,
                state,
                params,
                fingerprint,
                params.effective_context_window->Some_0,
            );
            let shown = shown_nodes(model, input, pairwise, source);
            let cold = cold_groups(input, pairwise);
            let exact = exact_groups(input, pairwise);
            match rolling_outcome(model, raw, version, state, params, fingerprint, source) {
                Ok(OutcomeView::Ready(result)) => {
                    &&& result.prompt_input == input.sent_prefix + shown_items(
                        model,
                        shown,
                        cold,
                        exact,
                        pairwise,
                    )
                    &&& input.groups == cold + exact
                    &&& forall|k: int|
                        0 <= k < cold.len() ==> shown_once(shown, cold, #[trigger] cold[k])
                    &&& forall|k: int|
                        0 <= k < exact.len() ==> apart_from(shown, #[trigger] exact[k])
                },
                _ => true,
            }
        }),
{
    let window = params.effective_context_window->Some_0;
    let input = prompt_input(model, raw, version, state, params, fingerprint, window);
    let len = raw.len() as int;
    lemma_input_groups(model, raw, version, state, params, fingerprint, window);
    law_prompt_shows_every_index_once(
        model,
        raw,
        version,
        state,
        params,
        pairwise,
        fingerprint,
        source,
    );
    if let Ok(OutcomeView::Ready(_)) = rolling_outcome(
        model,
        raw,
        version,
        state,
        params,
        fingerprint,
        source,
    ) {
        let shown = shown_nodes(model, input, pairwise, source);
        let cold = cold_groups(input, pairwise);
        let exact = exact_groups(input, pairwise);
        lemma_exact_start(input, pairwise, len);
        assert(input.groups =~= cold + exact);
        assert forall|k: int| 0 <= k < cold.len() implies shown_once(
            shown,
            cold,
            #[trigger] cold[k],
        ) by {
            lemma_cold_group_shown(model, input, pairwise, source, len, k);
        }
        assert forall|k: int| 0 <= k < exact.len() implies apart_from(
            shown,
            #[trigger] exact[k],
        ) by {
            lemma_exact_group_apart(model, input, pairwise, source, len, k);
        }
    }
}

} // verus!
