//! What the body of a rolling prompt shows and what it counts.

use crate::exact_tail_replacement_laws::{law_tokens_add_up, plain_sum};
use crate::item::ItemView;
use crate::rolling::{
    body_items, first_over_limit, group_items, newest_groups, over_limit, sent_groups, sent_prefix,
    GroupView, RollingPromptError,
};
use crate::rolling_context_filter::historical_at;
use crate::rolling_groups::{groups_from, RawGroupView};
use crate::rolling_pairwise::{
    body_with_groups, default_protected_tokens, fit_tree, group_of, hot_start, nodes_body,
    settings_of, FitView, OutcomeView, PairwiseInputView, PairwiseRollingPromptParams,
    PromptBodyView,
};
use crate::rolling_prompt::{pinned, prompt_input, rolling_outcome, ParamsView};
use crate::rolling_prompt_laws::{
    cold_groups, exact_groups, exact_start, law_newest_groups_are_kept, lemma_hot_start_bounds,
    lemma_shown_items, shown_nodes, tree_nodes,
};
use crate::rolling_request_laws::{contributes, lemma_group_of};
use crate::rolling_state::StateView;
use crate::session_model::{saturating, total_tokens, InputModality, SessionModel};
use crate::summary_tree::{
    compaction, spec_levels_from_nodes, summaries_of, summary_item, visible, NodeView,
    PairwiseNodeKind, SummarySource,
};
use crate::tokens::text_tokens;
use vstd::prelude::*;

verus! {

// -- the items of a body ----------------------------------------------------------------------

/// What a node shows: a summary its one item, a raw node all items of its group. A raw node whose
/// group is not there shows nothing.
pub open spec fn shows(
    items: Seq<ItemView>,
    node: NodeView,
    cold: Seq<GroupView>,
    cap: nat,
    cap_max: nat,
) -> bool {
    ||| contributes(items, node, cold, cap, cap_max)
    ||| {
        &&& node.kind == PairwiseNodeKind::Raw
        &&& items.len() == 0
        &&& forall|k: int|
            0 <= k < cold.len() ==> (#[trigger] cold[k]).start != node.coverage.raw_start_index
                || cold[k].end != node.coverage.raw_end_exclusive
    }
}

/// The parts are what the nodes show, one for each.
pub open spec fn parts_of(
    parts: Seq<Seq<ItemView>>,
    nodes: Seq<NodeView>,
    cold: Seq<GroupView>,
    cap: nat,
    cap_max: nat,
) -> bool {
    &&& parts.len() == nodes.len()
    &&& forall|i: int|
        0 <= i < nodes.len() ==> shows(#[trigger] parts[i], nodes[i], cold, cap, cap_max)
}

proof fn lemma_nodes_body_parts<M: SessionModel>(
    model: M,
    nodes: Seq<NodeView>,
    cold: Seq<GroupView>,
    cap: nat,
    cap_max: nat,
) -> (parts: Seq<Seq<ItemView>>)
    ensures
        nodes_body(model, nodes, cold, cap, cap_max) matches Ok(body) ==> parts_of(
            parts,
            nodes,
            cold,
            cap,
            cap_max,
        ) && body.items == parts.flatten_alt(),
    decreases nodes.len(),
{
    if nodes.len() == 0 {
        let parts = Seq::<Seq<ItemView>>::empty();
        assert(parts.flatten_alt() =~= Seq::<ItemView>::empty());
        parts
    } else {
        let before = lemma_nodes_body_parts(model, nodes.drop_last(), cold, cap, cap_max);
        let node = nodes.last();
        let last = match node.kind {
            PairwiseNodeKind::Summary => seq![summary_item(node, cap, cap_max)],
            PairwiseNodeKind::Raw => match group_of(cold, node.coverage, 0) {
                Some(group) => group.items,
                None => Seq::empty(),
            },
        };
        lemma_group_of(cold, node.coverage, 0);
        let parts = before.push(last);
        if let Ok(body) = nodes_body(model, nodes, cold, cap, cap_max) {
            assert(parts.drop_last() =~= before);
            assert(body.items =~= parts.flatten_alt());
            assert(shows(last, node, cold, cap, cap_max)) by {
                if let Some(group) = group_of(cold, node.coverage, 0) {
                    let k = choose|k: int|
                        {
                            &&& 0 <= k < cold.len()
                            &&& (#[trigger] cold[k]).start == node.coverage.raw_start_index
                            &&& cold[k].end == node.coverage.raw_end_exclusive
                            &&& cold[k] == group
                        };
                    assert(cold[k].start == node.coverage.raw_start_index);
                }
            }
            assert forall|i: int| 0 <= i < nodes.len() implies shows(
                #[trigger] parts[i],
                nodes[i],
                cold,
                cap,
                cap_max,
            ) by {
                if i < before.len() {
                    assert(parts[i] == before[i]);
                    assert(nodes.drop_last()[i] == nodes[i]);
                }
            }
        }
        parts
    }
}

/// The items of the groups, one behind the other.
pub open spec fn items_in(groups: Seq<GroupView>) -> Seq<ItemView> {
    groups.map_values(|g: GroupView| g.items).flatten_alt()
}

proof fn lemma_items_in(groups: Seq<GroupView>)
    requires
        groups.len() > 0,
    ensures
        items_in(groups) == items_in(groups.drop_last()) + groups.last().items,
{
    assert(groups.map_values(|g: GroupView| g.items).drop_last() =~= groups.drop_last().map_values(
        |g: GroupView| g.items,
    ));
}

proof fn lemma_body_with_groups(body: PromptBodyView, groups: Seq<GroupView>)
    ensures
        body_with_groups(body, groups).items == body.items + items_in(groups),
    decreases groups.len(),
{
    if groups.len() == 0 {
        assert(items_in(groups) =~= Seq::<ItemView>::empty());
        assert(body.items + items_in(groups) =~= body.items);
    } else {
        lemma_body_with_groups(body, groups.drop_last());
        lemma_items_in(groups);
        assert(body_with_groups(body, groups).items =~= body.items + items_in(groups));
    }
}

/// A pairwise prompt that can be sent is its prefix, then for each shown node the summary or all
/// items of the group that it stands for, then all items of the exact groups; and it keeps the
/// summaries that it shows.
pub proof fn law_prompt_is_what_it_shows<M: SessionModel>(
    model: M,
    raw: Seq<ItemView>,
    version: u64,
    state: StateView,
    params: ParamsView,
    pairwise: PairwiseRollingPromptParams,
    fingerprint: u64,
    source: SummarySource,
)
    requires
        params.effective_context_window is Some,
        params.pairwise_compaction == Some(pairwise),
    ensures
        ({
            let input = prompt_input(
                model,
                raw,
                version,
                state,
                params,
                fingerprint,
                params.effective_context_window->Some_0,
            );
            let shown = shown_nodes(model, input, pairwise, source);
            match rolling_outcome(model, raw, version, state, params, fingerprint, source) {
                Ok(OutcomeView::Ready(result)) => {
                    &&& exists|parts: Seq<Seq<ItemView>>| #[trigger]
                        parts_of(
                            parts,
                            shown,
                            cold_groups(input, pairwise),
                            pairwise.summary_group_token_cap as nat,
                            pairwise.summary_group_token_cap_max as nat,
                        ) && result.prompt_input == input.sent_prefix + parts.flatten_alt()
                            + items_in(exact_groups(input, pairwise))
                    &&& result.projected_state.pairwise_summaries == shown.filter(
                        |n: NodeView| n.kind == PairwiseNodeKind::Summary,
                    )
                },
                _ => true,
            }
        }),
{
    let window = params.effective_context_window->Some_0;
    let input = prompt_input(model, raw, version, state, params, fingerprint, window);
    if let Ok(OutcomeView::Ready(result)) = rolling_outcome(
        model,
        raw,
        version,
        state,
        params,
        fingerprint,
        source,
    ) {
        let shown = shown_nodes(model, input, pairwise, source);
        let cold = cold_groups(input, pairwise);
        let exact = exact_groups(input, pairwise);
        let cap = pairwise.summary_group_token_cap as nat;
        let cap_max = pairwise.summary_group_token_cap_max as nat;
        let hot = exact_start(input, pairwise);
        let tree = compaction(
            spec_levels_from_nodes(tree_nodes(input, pairwise)),
            0,
            settings_of(pairwise),
            source,
        ).0;
        lemma_shown_items(
            model,
            tree,
            input.groups,
            hot,
            pairwise,
            input.body_budget,
            source,
        );
        lemma_fitted_body(model, tree, input.groups, hot, pairwise, input.body_budget, source);
        let parts = lemma_nodes_body_parts(model, shown, cold, cap, cap_max);
        let body = nodes_body(model, shown, cold, cap, cap_max)->Ok_0;
        lemma_body_with_groups(body, exact);
        assert(result.prompt_input =~= input.sent_prefix + parts.flatten_alt() + items_in(exact));
        assert(parts_of(parts, shown, cold, cap, cap_max));
        lemma_summaries_of(shown);
    }
}

proof fn lemma_summaries_of(nodes: Seq<NodeView>)
    ensures
        summaries_of(nodes) == nodes.filter(|n: NodeView| n.kind == PairwiseNodeKind::Summary),
    decreases nodes.len(),
{
    reveal(Seq::filter);
    if nodes.len() > 0 {
        lemma_summaries_of(nodes.drop_last());
    }
}

/// A tree that fits makes a body.
pub proof fn lemma_fitted_body<M: SessionModel>(
    model: M,
    levels: Seq<Seq<NodeView>>,
    groups: Seq<GroupView>,
    hot: int,
    params: PairwiseRollingPromptParams,
    budget: i64,
    source: SummarySource,
)
    ensures
        match fit_tree(model, levels, groups, hot, params, budget, source) {
            Ok(FitView::Fits { levels: fitted, body }) => {
                &&& nodes_body(
                    model,
                    visible(fitted),
                    groups.subrange(0, hot),
                    params.summary_group_token_cap as nat,
                    params.summary_group_token_cap_max as nat,
                ) matches Ok(front)
                &&& body == body_with_groups(front, groups.subrange(hot, groups.len() as int))
            },
            _ => true,
        },
    decreases crate::summary_tree::total_nodes(levels),
{
    crate::summary_tree_laws::lemma_single_fold_total(levels, settings_of(params));
    let (after, found, missing) = crate::summary_tree::single_fold(
        levels,
        settings_of(params),
        source,
    );
    if source == SummarySource::Synthetic && found && missing is None {
        lemma_fitted_body(model, after, groups, hot, params, budget, source);
    }
}

// -- what stays exact -------------------------------------------------------------------------

/// The tokens of the groups, added up.
pub open spec fn group_sum(groups: Seq<GroupView>) -> int
    decreases groups.len(),
{
    if groups.len() == 0 {
        0
    } else {
        groups.first().tokens + group_sum(groups.drop_first())
    }
}

proof fn lemma_group_sum_from(groups: Seq<GroupView>, at: int)
    requires
        0 <= at < groups.len(),
    ensures
        group_sum(groups.subrange(at, groups.len() as int)) == groups[at].tokens + group_sum(
            groups.subrange(at + 1, groups.len() as int),
        ),
{
    let from = groups.subrange(at, groups.len() as int);
    assert(from.drop_first() =~= groups.subrange(at + 1, groups.len() as int));
}

proof fn lemma_hot_start(groups: Seq<GroupView>, at: int, tokens: i64, protected: i64)
    requires
        0 <= at <= groups.len(),
        forall|k: int| 0 <= k < groups.len() ==> (#[trigger] groups[k]).tokens >= 0,
        group_sum(groups.subrange(at, groups.len() as int)) >= 0,
        tokens == saturating(group_sum(groups.subrange(at, groups.len() as int))),
        at < groups.len() ==> saturating(
            group_sum(groups.subrange(at + 1, groups.len() as int)),
        ) < protected,
    ensures
        ({
            let start = hot_start(groups, at, tokens, protected);
            let len = groups.len() as int;
            &&& 0 <= start <= at
            &&& start == 0 || saturating(group_sum(groups.subrange(start, len))) >= protected
            &&& start < len ==> saturating(group_sum(groups.subrange(start + 1, len))) < protected
        }),
    decreases at,
{
    if at > 0 && tokens < protected {
        lemma_group_sum_from(groups, at - 1);
        assert(groups[at - 1].tokens >= 0);
        lemma_hot_start(
            groups,
            at - 1,
            saturating(tokens + groups[at - 1].tokens),
            protected,
        );
    }
}

/// The exact groups have the tokens that are protected, or are all there are; and without the
/// oldest of them they would have less.
pub proof fn law_exact_groups_reach_the_protected_amount(
    input: PairwiseInputView,
    pairwise: PairwiseRollingPromptParams,
)
    requires
        forall|k: int| 0 <= k < input.groups.len() ==> (#[trigger] input.groups[k]).tokens >= 0,
    ensures
        ({
            let exact = exact_groups(input, pairwise);
            let protected = match pairwise.protected_hot_exact_tokens {
                Some(tokens) => tokens as int,
                None => if input.body_budget >= 240_000 {
                    160_000
                } else {
                    input.body_budget * 2 / 3
                },
            };
            input.body_budget >= 0 || pairwise.protected_hot_exact_tokens is Some ==> {
                &&& exact == input.groups || group_sum(exact) >= protected
                &&& exact.len() > 0 ==> group_sum(exact.drop_first()) < protected
                &&& exact == input.groups.subrange(
                    input.groups.len() - exact.len(),
                    input.groups.len() as int,
                )
            }
        }),
{
    let groups = input.groups;
    let len = groups.len() as int;
    let protected = match pairwise.protected_hot_exact_tokens {
        Some(tokens) => tokens,
        None => default_protected_tokens(input.body_budget),
    };
    let start = exact_start(input, pairwise);
    let exact = exact_groups(input, pairwise);
    lemma_hot_start_bounds(groups, len, 0, protected);
    assert(groups.subrange(len, len) =~= Seq::<GroupView>::empty());
    lemma_hot_start(groups, len, 0, protected);
    assert(groups.subrange(start, len) == exact);
    if start == 0 {
        assert(exact =~= groups);
    }
    if start < len {
        assert(exact.drop_first() =~= groups.subrange(start + 1, len));
    }
    assert(groups.subrange(len - exact.len(), len) =~= exact);
}

// -- what it counts ---------------------------------------------------------------------------

proof fn lemma_sum_concat<M: SessionModel>(model: M, a: Seq<ItemView>, b: Seq<ItemView>)
    ensures
        plain_sum(model, a + b) == plain_sum(model, a) + plain_sum(model, b),
    decreases b.len(),
{
    if b.len() == 0 {
        assert(a + b =~= a);
    } else {
        assert((a + b).drop_last() =~= a + b.drop_last());
        lemma_sum_concat(model, a, b.drop_last());
    }
}

/// No item takes less than nothing.
pub open spec fn none_negative<M: SessionModel>(model: M, items: Seq<ItemView>) -> bool {
    forall|k: int| 0 <= k < items.len() ==> model.spec_item_tokens(#[trigger] items[k]) >= 0
}

proof fn lemma_none_negative_parts<M: SessionModel>(model: M, a: Seq<ItemView>, b: Seq<ItemView>)
    requires
        none_negative(model, a + b),
    ensures
        none_negative(model, a),
        none_negative(model, b),
{
    assert forall|k: int| 0 <= k < a.len() implies model.spec_item_tokens(#[trigger] a[k]) >= 0 by {
        assert((a + b)[k] == a[k]);
    }
    assert forall|k: int| 0 <= k < b.len() implies model.spec_item_tokens(#[trigger] b[k]) >= 0 by {
        assert((a + b)[a.len() + k] == b[k]);
    }
}

/// Each group counts the tokens of its items.
pub open spec fn groups_count<M: SessionModel>(model: M, groups: Seq<GroupView>) -> bool {
    forall|k: int|
        0 <= k < groups.len() ==> (#[trigger] groups[k]).tokens == total_tokens(
            model,
            groups[k].items,
        )
}

proof fn lemma_sent_groups_count<M: SessionModel>(
    model: M,
    groups: Seq<RawGroupView>,
    modalities: Seq<InputModality>,
    prefix: Seq<ItemView>,
    limit: nat,
)
    ensures
        groups_count(model, sent_groups(model, groups, modalities, prefix, limit)),
    decreases groups.len(),
{
    if groups.len() > 0 {
        lemma_sent_groups_count(model, groups.drop_last(), modalities, prefix, limit);
    }
}

proof fn lemma_nodes_body_tokens<M: SessionModel>(
    model: M,
    nodes: Seq<NodeView>,
    cold: Seq<GroupView>,
    cap: nat,
    cap_max: nat,
)
    requires
        groups_count(model, cold),
    ensures
        nodes_body(model, nodes, cold, cap, cap_max) matches Ok(body) ==> none_negative(
            model,
            body.items,
        ) && plain_sum(model, body.items) <= i64::MAX ==> body.tokens == plain_sum(
            model,
            body.items,
        ),
    decreases nodes.len(),
{
    if nodes.len() > 0 {
        lemma_nodes_body_tokens(model, nodes.drop_last(), cold, cap, cap_max);
        if let Ok(body) = nodes_body(model, nodes, cold, cap, cap_max) {
            let before = nodes_body(model, nodes.drop_last(), cold, cap, cap_max)->Ok_0;
            let node = nodes.last();
            let added = match node.kind {
                PairwiseNodeKind::Summary => seq![summary_item(node, cap, cap_max)],
                PairwiseNodeKind::Raw => match group_of(cold, node.coverage, 0) {
                    Some(group) => group.items,
                    None => Seq::empty(),
                },
            };
            lemma_group_of(cold, node.coverage, 0);
            assert(body.items =~= before.items + added);
            lemma_sum_concat(model, before.items, added);
            if none_negative(model, body.items) && plain_sum(model, body.items) <= i64::MAX {
                lemma_none_negative_parts(model, before.items, added);
                law_tokens_add_up(model, before.items);
                law_tokens_add_up(model, added);
                if node.kind == PairwiseNodeKind::Summary {
                    assert(added.drop_last() =~= Seq::<ItemView>::empty());
                    assert(plain_sum(model, Seq::<ItemView>::empty()) == 0);
                    assert(plain_sum(model, added) == model.spec_item_tokens(added.last()));
                }
            }
        }
    }
}

proof fn lemma_exact_tokens<M: SessionModel>(
    model: M,
    body: PromptBodyView,
    groups: Seq<GroupView>,
)
    requires
        groups_count(model, groups),
        none_negative(model, body_with_groups(body, groups).items),
        plain_sum(model, body_with_groups(body, groups).items) <= i64::MAX,
        none_negative(model, body.items) && plain_sum(model, body.items) <= i64::MAX ==> body.tokens
            == plain_sum(model, body.items),
    ensures
        body_with_groups(body, groups).tokens == plain_sum(
            model,
            body_with_groups(body, groups).items,
        ),
    decreases groups.len(),
{
    if groups.len() > 0 {
        let rest = groups.drop_last();
        assert(forall|k: int| 0 <= k < rest.len() ==> rest[k] == groups[k]);
        let before = body_with_groups(body, rest);
        let last = groups.last().items;
        assert(groups[groups.len() - 1].tokens == total_tokens(model, last));
        lemma_none_negative_parts(model, before.items, last);
        lemma_sum_concat(model, before.items, last);
        law_tokens_add_up(model, before.items);
        law_tokens_add_up(model, last);
        lemma_exact_tokens(model, body, rest);
    }
}

/// The estimate of a prompt that can be sent is the tokens of the base instructions and of every
/// item in it, each counted once.
pub proof fn law_estimate_counts_the_prompt<M: SessionModel>(
    model: M,
    raw: Seq<ItemView>,
    version: u64,
    state: StateView,
    params: ParamsView,
    pairwise: PairwiseRollingPromptParams,
    fingerprint: u64,
    source: SummarySource,
)
    requires
        params.pairwise_compaction == Some(pairwise),
    ensures
        match rolling_outcome(model, raw, version, state, params, fingerprint, source) {
            Ok(OutcomeView::Ready(result)) => {
                let sum = text_tokens(params.base_instructions) + plain_sum(
                    model,
                    result.prompt_input,
                );
                none_negative(model, result.prompt_input) && sum <= i64::MAX
                    ==> result.estimated_prompt_tokens == sum
            },
            _ => true,
        },
{
    if let Ok(OutcomeView::Ready(result)) = rolling_outcome(
        model,
        raw,
        version,
        state,
        params,
        fingerprint,
        source,
    ) {
        let window = params.effective_context_window->Some_0;
        let input = prompt_input(model, raw, version, state, params, fingerprint, window);
        let cold = cold_groups(input, pairwise);
        let exact = exact_groups(input, pairwise);
        let cap = pairwise.summary_group_token_cap as nat;
        let cap_max = pairwise.summary_group_token_cap_max as nat;
        let hot = exact_start(input, pairwise);
        let protected = match pairwise.protected_hot_exact_tokens {
            Some(tokens) => tokens,
            None => default_protected_tokens(input.body_budget),
        };
        lemma_hot_start_bounds(input.groups, input.groups.len() as int, 0, protected);
        let tree = compaction(
            spec_levels_from_nodes(tree_nodes(input, pairwise)),
            0,
            settings_of(pairwise),
            source,
        ).0;
        let shown = shown_nodes(model, input, pairwise, source);
        lemma_fitted_body(model, tree, input.groups, hot, pairwise, input.body_budget, source);
        let front = nodes_body(model, shown, cold, cap, cap_max)->Ok_0;
        let body = body_with_groups(front, exact);
        let sum = text_tokens(params.base_instructions) + plain_sum(model, result.prompt_input);
        if none_negative(model, result.prompt_input) && sum <= i64::MAX {
            assert(result.prompt_input == input.sent_prefix + body.items);
            lemma_none_negative_parts(model, input.sent_prefix, body.items);
            lemma_sum_concat(model, input.sent_prefix, body.items);
            law_tokens_add_up(model, input.sent_prefix);
            law_tokens_add_up(model, body.items);
            lemma_sent_groups_count(
                model,
                groups_from(
                    model,
                    raw,
                    0,
                    input.state.raw_history_start_index as int,
                    params.prefix,
                ),
                params.input_modalities,
                params.prefix,
                crate::rolling_prompt::output_limit(params.tool_output_limit_tokens),
            );
            assert(groups_count(model, cold)) by {
                assert(forall|k: int| 0 <= k < cold.len() ==> cold[k] == input.groups[k]);
            }
            assert(groups_count(model, exact)) by {
                assert(forall|k: int| 0 <= k < exact.len() ==> exact[k] == input.groups[hot + k]);
            }
            lemma_nodes_body_tokens(model, shown, cold, cap, cap_max);
            lemma_exact_tokens(model, front, exact);
        }
    }
}

// -- what it leaves behind --------------------------------------------------------------------

/// The indices from `from` on, before `to`, whose item is not context that every request carries.
pub open spec fn body_indices<M: SessionModel>(
    model: M,
    raw: Seq<ItemView>,
    from: int,
    to: int,
    prefix: Seq<ItemView>,
) -> Seq<int> {
    Seq::new(
        (if from <= to {
            to - from
        } else {
            0
        }) as nat,
        |k: int| from + k,
    ).filter(|i: int| !historical_at(model, raw, i, prefix))
}

/// What was dropped is counted: the items between two cursors that are not context which every
/// request carries anew.
pub proof fn law_dropped_items_are_counted<M: SessionModel>(
    model: M,
    raw: Seq<ItemView>,
    from: int,
    to: int,
    prefix: Seq<ItemView>,
)
    ensures
        body_items(model, raw, from, to, prefix) == body_indices(model, raw, from, to, prefix).len(),
    decreases to - from,
{
    reveal(Seq::filter);
    if from < to {
        law_dropped_items_are_counted(model, raw, from, to - 1, prefix);
        let all = Seq::new((to - from) as nat, |k: int| from + k);
        assert(all.drop_last() =~= Seq::new((to - 1 - from) as nat, |k: int| from + k));
        assert(all.last() == to - 1);
    }
}

// -- without pairwise summaries ---------------------------------------------------------------

proof fn lemma_group_items(groups: Seq<GroupView>, from: int)
    requires
        0 <= from <= groups.len(),
    ensures
        group_items(groups, from) == items_in(groups.subrange(from, groups.len() as int)),
    decreases groups.len(),
{
    let part = groups.subrange(from, groups.len() as int);
    if from == groups.len() {
        assert(part.map_values(|g: GroupView| g.items) =~= Seq::<Seq<ItemView>>::empty());
        assert(items_in(part) =~= Seq::<ItemView>::empty());
    } else {
        let rest = groups.drop_last();
        lemma_group_items(rest, from);
        lemma_items_in(part);
        assert(part.drop_last() =~= rest.subrange(from, rest.len() as int));
        if from == rest.len() {
            assert(group_items(rest, from) =~= Seq::<ItemView>::empty());
        }
    }
}

/// Without pairwise summaries a prompt is its prefix and all items of the newest groups. These fit
/// the budget, and with the next older group they would not, or one of its items is over the item
/// limit. The cursor moves to the first group that is shown.
pub proof fn law_newest_groups_are_shown<M: SessionModel>(
    model: M,
    raw: Seq<ItemView>,
    version: u64,
    state: StateView,
    params: ParamsView,
    fingerprint: u64,
    source: SummarySource,
)
    requires
        params.pairwise_compaction is None,
        params.effective_context_window is Some,
        raw.len() <= usize::MAX,
    ensures
        ({
            let input = prompt_input(
                model,
                raw,
                version,
                state,
                params,
                fingerprint,
                params.effective_context_window->Some_0,
            );
            let len = input.groups.len() as int;
            match rolling_outcome(model, raw, version, state, params, fingerprint, source) {
                Ok(OutcomeView::Ready(result)) => exists|start: int|
                    {
                        &&& 0 <= start <= len
                        &&& len > 0 ==> start < len
                        &&& result.prompt_input == input.sent_prefix + items_in(
                            #[trigger] input.groups.subrange(start, len),
                        )
                        &&& start == 0 || over_limit(model, input.groups[start - 1].items)
                            || saturating(
                            newest_groups(model, input.groups, input.body_budget)->Ok_0.1
                                + input.groups[start - 1].tokens,
                        ) > input.body_budget
                        &&& result.projected_state.pairwise_summaries
                            == input.state.pairwise_summaries
                        &&& result.projected_state.raw_history_start_index
                            == result.raw_history_start_index
                    },
                _ => true,
            }
        }),
{
    let window = params.effective_context_window->Some_0;
    let input = prompt_input(model, raw, version, state, params, fingerprint, window);
    let len = input.groups.len() as int;
    law_newest_groups_are_kept(model, input.groups, input.body_budget);
    if let Ok((start, tokens)) = newest_groups(model, input.groups, input.body_budget) {
        lemma_group_items(input.groups, start);
        if let Ok(OutcomeView::Ready(result)) = rolling_outcome(
            model,
            raw,
            version,
            state,
            params,
            fingerprint,
            source,
        ) {
            assert(result.prompt_input == input.sent_prefix + items_in(
                input.groups.subrange(start, len),
            ));
        }
    }
}

// -- when a prompt is refused -----------------------------------------------------------------

/// A prompt is refused without a positive window, where an item of its prefix is over ten thousand
/// tokens, or where instructions and prefix leave no room in the target; and each refusal says so
/// with the numbers.
pub proof fn law_prompt_is_refused_for_cause<M: SessionModel>(
    model: M,
    raw: Seq<ItemView>,
    version: u64,
    state: StateView,
    params: ParamsView,
    fingerprint: u64,
    source: SummarySource,
)
    ensures
        ({
            let outcome = rolling_outcome(model, raw, version, state, params, fingerprint, source);
            let prefix = sent_prefix(model, params.prefix);
            match params.effective_context_window {
                None => outcome == Err::<OutcomeView, RollingPromptError>(
                    RollingPromptError::NoContextWindow,
                ),
                Some(window) => if window <= 0 {
                    outcome == Err::<OutcomeView, RollingPromptError>(
                        RollingPromptError::NoContextWindow,
                    )
                } else if exists|k: int|
                    0 <= k < prefix.len() && model.spec_item_tokens(#[trigger] prefix[k]) > 10_000 {
                    &&& outcome matches Err(RollingPromptError::ItemExceedsLimit {
                        item_tokens,
                        limit_tokens,
                    })
                    &&& limit_tokens == 10_000
                    &&& item_tokens > 10_000
                } else {
                    let pinned_tokens = pinned(model, params);
                    let target = crate::rolling_prompt::prompt_target(window, params);
                    pinned_tokens >= target ==> outcome == Err::<OutcomeView, RollingPromptError>(
                        RollingPromptError::InvariantPrefixExceedsTarget {
                            pinned_tokens,
                            target_tokens: target,
                        },
                    )
                },
            }
        }),
{
    let prefix = sent_prefix(model, params.prefix);
    lemma_first_over(model, prefix);
}

proof fn lemma_first_over<M: SessionModel>(model: M, items: Seq<ItemView>)
    ensures
        match first_over_limit(model, items) {
            Some(tokens) => tokens > 10_000 && exists|k: int|
                0 <= k < items.len() && model.spec_item_tokens(#[trigger] items[k]) > 10_000,
            None => forall|k: int|
                0 <= k < items.len() ==> model.spec_item_tokens(#[trigger] items[k]) <= 10_000,
        },
    decreases items.len(),
{
    if items.len() > 0 {
        let rest = items.drop_last();
        lemma_first_over(model, rest);
        assert(forall|k: int| 0 <= k < rest.len() ==> rest[k] == items[k]);
        if first_over_limit(model, rest) is Some {
            let k = choose|k: int|
                0 <= k < rest.len() && model.spec_item_tokens(#[trigger] rest[k]) > 10_000;
            assert(model.spec_item_tokens(items[k]) > 10_000);
        } else if model.spec_item_tokens(items.last()) > 10_000 {
            assert(model.spec_item_tokens(items[items.len() - 1]) > 10_000);
        }
    }
}

/// What every request carries: the tokens of the instructions and of the prefix.
pub proof fn law_pinned_tokens<M: SessionModel>(model: M, params: ParamsView)
    requires
        none_negative(model, sent_prefix(model, params.prefix)),
        text_tokens(params.base_instructions) + plain_sum(
            model,
            sent_prefix(model, params.prefix),
        ) <= i64::MAX,
    ensures
        pinned(model, params) == text_tokens(params.base_instructions) + plain_sum(
            model,
            sent_prefix(model, params.prefix),
        ),
{
    law_tokens_add_up(model, sent_prefix(model, params.prefix));
}

} // verus!
