//! What a request for a pair summary holds.

use crate::item::ItemView;
use crate::rolling::GroupView;
use crate::rolling_pairwise::{
    cold_nodes, fit_tree, group_of, groups_within, node_input, request_for, settings_of, FitView,
    OutcomeView, PairwiseInputView, PairwiseRollingPromptParams, RequestView,
};
use crate::rolling_prompt::{prompt_input, rolling_outcome, ParamsView};
use crate::rolling_prompt_laws::{
    cold_groups, exact_start, groups_ordered, lemma_exact_start, lemma_group_found,
    lemma_group_nodes, lemma_input_groups, lemma_tree_nodes_wf, only_summaries, range_of,
    summaries_fit, tree_nodes,
};
use crate::rolling_state::StateView;
use crate::session_model::SessionModel;
use crate::summary_tree::{
    chronological, compaction, due_pair, folded, lemma_folded_shrinks, lemma_oldest_pair,
    lemma_sorted_level_total, missing_summary, promotable_pair, single_fold, sorted_prefix,
    spec_levels_from_nodes, summary_item, total_nodes, touches, CoverageInterval, MissingView,
    NodeOrder, NodeView, PairwiseCompactionSettings, PairwiseNodeKind, SummarySource,
};
use crate::summary_tree_laws::{
    lemma_built_tree_stands, lemma_compaction_stands, lemma_fold_stands, lemma_promotable_pair,
    lemma_single_fold_stands, lemma_single_fold_total, lemma_sort_stands,
    lemma_sorted_prefix_stands, lemma_tree_cuts_nothing, levels_stand, nodes_stand, nothing,
    stands, uncut,
};
use vstd::prelude::*;

verus! {

// -- the two nodes of a pair ------------------------------------------------------------------

/// The two nodes follow one another, the summary that is missing covers both, and neither cuts the
/// range.
pub open spec fn pair_stands(
    missing: MissingView,
    given: Seq<NodeView>,
    range: CoverageInterval,
) -> bool {
    &&& stands(missing.first, given, range)
    &&& stands(missing.second, given, range)
    &&& missing.first.coverage.raw_end_exclusive == missing.second.coverage.raw_start_index
    &&& missing.coverage.raw_start_index == missing.first.coverage.raw_start_index
    &&& missing.coverage.raw_end_exclusive == missing.second.coverage.raw_end_exclusive
}

proof fn lemma_missing_stands(
    levels: Seq<Seq<NodeView>>,
    level: int,
    at: int,
    settings: PairwiseCompactionSettings,
    given: Seq<NodeView>,
    range: CoverageInterval,
)
    requires
        levels_stand(levels, given, range),
        0 <= level < levels.len(),
        0 <= at,
        at + 1 < levels[level].len(),
        touches(levels[level], at),
    ensures
        pair_stands(missing_summary(levels, level, at, settings), given, range),
{
    assert(nodes_stand(levels[level], given, range));
    assert(stands(levels[level][at], given, range));
    assert(stands(levels[level][at + 1], given, range));
}

proof fn lemma_compaction_missing(
    levels: Seq<Seq<NodeView>>,
    level: int,
    settings: PairwiseCompactionSettings,
    source: SummarySource,
    given: Seq<NodeView>,
    range: CoverageInterval,
)
    requires
        levels_stand(levels, given, range),
        range.wf() || range == nothing(),
    ensures
        compaction(levels, level, settings, source).1 matches Some(missing) ==> pair_stands(
            missing,
            given,
            range,
        ),
    decreases total_nodes(levels), levels.len() - level,
{
    if 0 <= level < levels.len() {
        let sorted = levels.update(level, chronological(levels[level]));
        lemma_sorted_level_total(levels, level);
        assert(nodes_stand(levels[level], given, range));
        lemma_sort_stands(NodeOrder::Chronological, levels[level], given, range);
        assert forall|l: int| 0 <= l < sorted.len() implies nodes_stand(
            #[trigger] sorted[l],
            given,
            range,
        ) by {
            assert(nodes_stand(levels[l], given, range));
        }
        lemma_oldest_pair(sorted[level], 0);
        match due_pair(sorted[level], level, settings) {
            None => {
                lemma_compaction_missing(sorted, level + 1, settings, source, given, range);
            },
            Some(at) => {
                lemma_folded_shrinks(sorted, level, at, settings);
                match source {
                    SummarySource::Synthetic => {
                        lemma_fold_stands(sorted, level, at, settings, given, range);
                        let next = folded(sorted, level, at, settings);
                        lemma_compaction_missing(next, level, settings, source, given, range);
                    },
                    SummarySource::Required => {
                        lemma_missing_stands(sorted, level, at, settings, given, range);
                    },
                }
            },
        }
    }
}

proof fn lemma_single_fold_missing(
    levels: Seq<Seq<NodeView>>,
    settings: PairwiseCompactionSettings,
    source: SummarySource,
    given: Seq<NodeView>,
    range: CoverageInterval,
)
    requires
        levels_stand(levels, given, range),
        range.wf() || range == nothing(),
    ensures
        single_fold(levels, settings, source).2 matches Some(missing) ==> pair_stands(
            missing,
            given,
            range,
        ),
{
    lemma_promotable_pair(levels, 0, settings);
    if let Some((level, at)) = promotable_pair(levels, 0, settings) {
        let sorted = sorted_prefix(levels, level + 1);
        lemma_sorted_prefix_stands(levels, level + 1, given, range);
        if source == SummarySource::Required {
            lemma_missing_stands(sorted, level, at, settings, given, range);
        }
    }
}

proof fn lemma_fit_missing<M: SessionModel>(
    model: M,
    levels: Seq<Seq<NodeView>>,
    groups: Seq<GroupView>,
    hot: int,
    params: PairwiseRollingPromptParams,
    budget: i64,
    source: SummarySource,
    given: Seq<NodeView>,
    range: CoverageInterval,
)
    requires
        levels_stand(levels, given, range),
        range.wf() || range == nothing(),
    ensures
        match fit_tree(model, levels, groups, hot, params, budget, source) {
            Ok(FitView::Needs { levels: _, missing }) => pair_stands(missing, given, range),
            _ => true,
        },
    decreases total_nodes(levels),
{
    lemma_single_fold_total(levels, settings_of(params));
    lemma_single_fold_stands(levels, settings_of(params), given, range);
    lemma_single_fold_missing(levels, settings_of(params), source, given, range);
    let (after, found, missing) = single_fold(levels, settings_of(params), source);
    if source == SummarySource::Synthetic && found && missing is None {
        lemma_fit_missing(model, after, groups, hot, params, budget, source, given, range);
    }
}

// -- the input of a request -------------------------------------------------------------------

/// What a node contributes to a request: a summary its one item, a raw node all items of the group
/// that it stands for.
pub open spec fn contributes(
    items: Seq<ItemView>,
    node: NodeView,
    cold: Seq<GroupView>,
    cap: nat,
    cap_max: nat,
) -> bool {
    match node.kind {
        PairwiseNodeKind::Summary => items == seq![summary_item(node, cap, cap_max)],
        PairwiseNodeKind::Raw => exists|k: int|
            {
                &&& 0 <= k < cold.len()
                &&& (#[trigger] cold[k]).start == node.coverage.raw_start_index
                &&& cold[k].end == node.coverage.raw_end_exclusive
                &&& items == cold[k].items
            },
    }
}

/// The request asks for a summary of two nodes that follow one another. Its range begins with the
/// first and ends with the second, and its input is what the first contributes and behind it what
/// the second does.
pub open spec fn made_of(
    request: RequestView,
    first: NodeView,
    second: NodeView,
    front: Seq<ItemView>,
    back: Seq<ItemView>,
    cold: Seq<GroupView>,
    pairwise: PairwiseRollingPromptParams,
) -> bool {
    let cap = pairwise.summary_group_token_cap as nat;
    let cap_max = pairwise.summary_group_token_cap_max as nat;
    &&& request.raw_start_index == first.coverage.raw_start_index
    &&& first.coverage.raw_start_index < first.coverage.raw_end_exclusive
    &&& first.coverage.raw_end_exclusive == second.coverage.raw_start_index
    &&& second.coverage.raw_start_index < second.coverage.raw_end_exclusive
    &&& request.raw_end_exclusive == second.coverage.raw_end_exclusive
    &&& request.input == front + back
    &&& contributes(front, first, cold, cap, cap_max)
    &&& contributes(back, second, cold, cap, cap_max)
}

/// A group in the range of a request is in its input: all its items, as one of the two parts, or
/// the item of the summary that covers it.
pub open spec fn group_is_in(
    group: GroupView,
    first: NodeView,
    second: NodeView,
    front: Seq<ItemView>,
    back: Seq<ItemView>,
) -> bool {
    ||| first.kind == PairwiseNodeKind::Summary && first.coverage.spec_covers(range_of(group))
    ||| second.kind == PairwiseNodeKind::Summary && second.coverage.spec_covers(range_of(group))
    ||| first.kind == PairwiseNodeKind::Raw && first.coverage == range_of(group) && front
        == group.items
    ||| second.kind == PairwiseNodeKind::Raw && second.coverage == range_of(group) && back
        == group.items
}

/// A request is complete: it is made of a pair of nodes, and every cold group in its range is in
/// its input.
pub open spec fn complete(
    request: RequestView,
    cold: Seq<GroupView>,
    pairwise: PairwiseRollingPromptParams,
) -> bool {
    exists|first: NodeView, second: NodeView, front: Seq<ItemView>, back: Seq<ItemView>|
        {
            &&& #[trigger] made_of(request, first, second, front, back, cold, pairwise)
            &&& forall|k: int|
                0 <= k < cold.len() && request.raw_start_index <= (#[trigger] cold[k]).start
                    && cold[k].end <= request.raw_end_exclusive ==> group_is_in(
                    cold[k],
                    first,
                    second,
                    front,
                    back,
                )
        }
}

pub proof fn lemma_group_of(cold: Seq<GroupView>, coverage: CoverageInterval, from: int)
    requires
        0 <= from <= cold.len(),
    ensures
        match group_of(cold, coverage, from) {
            Some(group) => exists|k: int|
                {
                    &&& from <= k < cold.len()
                    &&& (#[trigger] cold[k]).start == coverage.raw_start_index
                    &&& cold[k].end == coverage.raw_end_exclusive
                    &&& cold[k] == group
                },
            None => forall|k: int|
                from <= k < cold.len() ==> (#[trigger] cold[k]).start != coverage.raw_start_index
                    || cold[k].end != coverage.raw_end_exclusive,
        },
    decreases cold.len() - from,
{
    if from < cold.len() {
        if cold[from].start == coverage.raw_start_index && cold[from].end
            == coverage.raw_end_exclusive {
            assert(cold[from] == group_of(cold, coverage, from)->Some_0);
        } else {
            lemma_group_of(cold, coverage, from + 1);
            if let Some(group) = group_of(cold, coverage, from + 1) {
                let k = choose|k: int|
                    {
                        &&& from + 1 <= k < cold.len()
                        &&& (#[trigger] cold[k]).start == coverage.raw_start_index
                        &&& cold[k].end == coverage.raw_end_exclusive
                        &&& cold[k] == group
                    };
                assert(cold[k] == group);
            }
        }
    }
}

/// A raw node of the tree stands for one of the cold groups.
proof fn lemma_raw_node_is_cold(
    input: PairwiseInputView,
    pairwise: PairwiseRollingPromptParams,
    len: int,
    node: NodeView,
) -> (k: int)
    requires
        groups_within(input.groups, len),
        groups_ordered(input.groups),
        len <= usize::MAX,
        only_summaries(input.state.pairwise_summaries),
        node.kind == PairwiseNodeKind::Raw,
        tree_nodes(input, pairwise).contains(node),
    ensures
        0 <= k < cold_groups(input, pairwise).len(),
        node.coverage == range_of(cold_groups(input, pairwise)[k]),
        group_of(cold_groups(input, pairwise), node.coverage, 0) == Some(
            cold_groups(input, pairwise)[k],
        ),
        node.coverage.raw_start_index == cold_groups(input, pairwise)[k].start,
        node.coverage.raw_end_exclusive == cold_groups(input, pairwise)[k].end,
{
    let nodes = tree_nodes(input, pairwise);
    let summaries = input.state.pairwise_summaries;
    let cold = cold_groups(input, pairwise);
    lemma_exact_start(input, pairwise, len);
    lemma_group_nodes(cold, len);
    let i = choose|i: int| 0 <= i < nodes.len() && nodes[i] == node;
    if i < summaries.len() {
        assert(nodes[i] == summaries[i]);
    }
    let k = i - summaries.len();
    assert(nodes[i] == cold_nodes(cold)[k]);
    lemma_group_found(cold, len, 0, k);
    k
}

proof fn lemma_contributes<M: SessionModel>(
    model: M,
    input: PairwiseInputView,
    pairwise: PairwiseRollingPromptParams,
    len: int,
    node: NodeView,
)
    requires
        groups_within(input.groups, len),
        groups_ordered(input.groups),
        len <= usize::MAX,
        only_summaries(input.state.pairwise_summaries),
        node.kind == PairwiseNodeKind::Raw ==> tree_nodes(input, pairwise).contains(node),
    ensures
        ({
            let cold = cold_groups(input, pairwise);
            let cap = pairwise.summary_group_token_cap as nat;
            let cap_max = pairwise.summary_group_token_cap_max as nat;
            node_input(model, node, cold, cap, cap_max) matches Ok(items) ==> contributes(
                items,
                node,
                cold,
                cap,
                cap_max,
            )
        }),
{
    if node.kind == PairwiseNodeKind::Raw {
        let k = lemma_raw_node_is_cold(input, pairwise, len, node);
        let cold = cold_groups(input, pairwise);
        assert(cold[k].start == node.coverage.raw_start_index);
    }
}

proof fn lemma_request_is_complete<M: SessionModel>(
    model: M,
    input: PairwiseInputView,
    pairwise: PairwiseRollingPromptParams,
    len: int,
    missing: MissingView,
    request: RequestView,
)
    requires
        groups_within(input.groups, len),
        groups_ordered(input.groups),
        len <= usize::MAX,
        only_summaries(input.state.pairwise_summaries),
        pair_stands(missing, tree_nodes(input, pairwise), nothing()),
        forall|k: int|
            0 <= k < cold_groups(input, pairwise).len() ==> pair_stands(
                missing,
                tree_nodes(input, pairwise),
                range_of(#[trigger] cold_groups(input, pairwise)[k]),
            ),
        request_for(
            model,
            missing,
            cold_groups(input, pairwise),
            pairwise.summary_group_token_cap as nat,
            pairwise.summary_group_token_cap_max as nat,
        ) == Ok::<RequestView, crate::rolling::RollingPromptError>(request),
    ensures
        complete(request, cold_groups(input, pairwise), pairwise),
{
    let cold = cold_groups(input, pairwise);
    let cap = pairwise.summary_group_token_cap as nat;
    let cap_max = pairwise.summary_group_token_cap_max as nat;
    let first = missing.first;
    let second = missing.second;
    let front = node_input(model, first, cold, cap, cap_max)->Ok_0;
    let back = node_input(model, second, cold, cap, cap_max)->Ok_0;
    lemma_contributes(model, input, pairwise, len, first);
    lemma_contributes(model, input, pairwise, len, second);
    assert(made_of(request, first, second, front, back, cold, pairwise));
    lemma_exact_start(input, pairwise, len);
    assert forall|k: int|
        0 <= k < cold.len() && request.raw_start_index <= (#[trigger] cold[k]).start && cold[k].end
            <= request.raw_end_exclusive implies group_is_in(
        cold[k],
        first,
        second,
        front,
        back,
    ) by {
        let range = range_of(cold[k]);
        assert(0 <= cold[k].start < cold[k].end <= len);
        assert(pair_stands(missing, tree_nodes(input, pairwise), range));
        assert(uncut(first, range) && uncut(second, range));
        assert(first.coverage.spec_covers(range) || second.coverage.spec_covers(range));
        if first.coverage.spec_covers(range) && first.kind == PairwiseNodeKind::Raw {
            let j = lemma_raw_node_is_cold(input, pairwise, len, first);
            assert(j == k) by {
                assert(0 <= cold[j].start < cold[j].end <= len);
                if j < k {
                    assert(cold[j].end <= cold[k].start);
                } else if k < j {
                    assert(cold[k].end <= cold[j].start);
                }
            }
        }
        if second.coverage.spec_covers(range) && second.kind == PairwiseNodeKind::Raw {
            let j = lemma_raw_node_is_cold(input, pairwise, len, second);
            assert(j == k) by {
                assert(0 <= cold[j].start < cold[j].end <= len);
                if j < k {
                    assert(cold[j].end <= cold[k].start);
                } else if k < j {
                    assert(cold[k].end <= cold[j].start);
                }
            }
        }
    }
}

/// Every request for a summary is complete: its input is, in order, all items of the groups in its
/// range that no summary covers yet, and the items of the summaries of the pair. So whatever the
/// answer replaces was there to be summarised.
pub proof fn law_summary_request_is_complete<M: SessionModel>(
    model: M,
    raw: Seq<ItemView>,
    version: u64,
    state: StateView,
    params: ParamsView,
    pairwise: PairwiseRollingPromptParams,
    fingerprint: u64,
    source: SummarySource,
)
    requires
        raw.len() <= usize::MAX,
        params.effective_context_window is Some,
        params.pairwise_compaction == Some(pairwise),
        only_summaries(state.pairwise_summaries),
        summaries_fit(
            prompt_input(
                model,
                raw,
                version,
                state,
                params,
                fingerprint,
                params.effective_context_window->Some_0,
            ),
            pairwise,
        ),
    ensures
        ({
            let input = prompt_input(
                model,
                raw,
                version,
                state,
                params,
                fingerprint,
                params.effective_context_window->Some_0,
            );
            match rolling_outcome(model, raw, version, state, params, fingerprint, source) {
                Ok(OutcomeView::NeedsPairSummary { request, projected_state: _ }) => complete(
                    request,
                    cold_groups(input, pairwise),
                    pairwise,
                ),
                _ => true,
            }
        }),
{
    let window = params.effective_context_window->Some_0;
    let input = prompt_input(model, raw, version, state, params, fingerprint, window);
    let len = raw.len() as int;
    lemma_input_groups(model, raw, version, state, params, fingerprint, window);
    lemma_exact_start(input, pairwise, len);
    lemma_tree_nodes_wf(input, pairwise, len);
    let nodes = tree_nodes(input, pairwise);
    let cold = cold_groups(input, pairwise);
    let hot = exact_start(input, pairwise);
    let start = spec_levels_from_nodes(nodes);
    let (tree, missing) = compaction(start, 0, settings_of(pairwise), source);
    lemma_group_nodes(cold, len);
    lemma_tree_cuts_nothing(nodes);
    lemma_compaction_missing(start, 0, settings_of(pairwise), source, nodes, nothing());
    lemma_compaction_stands(start, 0, settings_of(pairwise), source, nodes, nothing());
    lemma_fit_missing(
        model,
        tree,
        input.groups,
        hot,
        pairwise,
        input.body_budget,
        source,
        nodes,
        nothing(),
    );
    assert forall|k: int| 0 <= k < cold.len() implies {
        &&& missing matches Some(m) ==> pair_stands(m, nodes, range_of(#[trigger] cold[k]))
        &&& match fit_tree(
            model,
            tree,
            input.groups,
            hot,
            pairwise,
            input.body_budget,
            source,
        ) {
            Ok(FitView::Needs { levels: _, missing: m }) => pair_stands(m, nodes, range_of(cold[k])),
            _ => true,
        }
    } by {
        let range = range_of(cold[k]);
        let at = input.state.pairwise_summaries.len() + k;
        assert(nodes[at] == cold_nodes(cold)[k]);
        lemma_built_tree_stands(nodes, at);
        lemma_compaction_missing(start, 0, settings_of(pairwise), source, nodes, range);
        lemma_compaction_stands(start, 0, settings_of(pairwise), source, nodes, range);
        lemma_fit_missing(
            model,
            tree,
            input.groups,
            hot,
            pairwise,
            input.body_budget,
            source,
            nodes,
            range,
        );
    }
    if let Ok(OutcomeView::NeedsPairSummary { request, projected_state: _ }) = rolling_outcome(
        model,
        raw,
        version,
        state,
        params,
        fingerprint,
        source,
    ) {
        match missing {
            Some(m) => {
                lemma_request_is_complete(model, input, pairwise, len, m, request);
            },
            None => {
                let m = match fit_tree(
                    model,
                    tree,
                    input.groups,
                    hot,
                    pairwise,
                    input.body_budget,
                    source,
                ) {
                    Ok(FitView::Needs { levels: _, missing: m }) => m,
                    _ => arbitrary(),
                };
                lemma_request_is_complete(model, input, pairwise, len, m, request);
            },
        }
    }
}

// -- which pair is asked for ------------------------------------------------------------------

/// How many nodes a level may hold before its pairs are folded.
pub open spec fn room(settings: PairwiseCompactionSettings) -> int {
    if settings.compact_when_level_group_count_gt < 2 {
        2
    } else {
        settings.compact_when_level_group_count_gt as int
    }
}

/// The nodes at `at` and behind it follow one another without a gap.
pub open spec fn follow(nodes: Seq<NodeView>, at: int) -> bool {
    &&& 0 <= at
    &&& at + 1 < nodes.len()
    &&& nodes[at].coverage.raw_end_exclusive == nodes[at + 1].coverage.raw_start_index
}

/// The level has nothing to fold: it holds no more nodes than it may, or no two follow one
/// another.
pub open spec fn at_rest(level: Seq<NodeView>, settings: PairwiseCompactionSettings) -> bool {
    level.len() <= room(settings) || forall|k: int| !#[trigger] follow(chronological(level), k)
}

/// The summary that is missing is for the oldest two nodes of a level that follow one another, the
/// level holds more nodes than it may, and the levels below it are at rest. It belongs one level
/// higher, up to the highest.
pub open spec fn oldest_due(
    missing: MissingView,
    levels: Seq<Seq<NodeView>>,
    settings: PairwiseCompactionSettings,
    from: int,
    level: int,
    at: int,
) -> bool {
    let nodes = chronological(levels[level]);
    &&& from <= level < levels.len()
    &&& level <= settings.max_summary_levels
    &&& nodes.len() > room(settings)
    &&& follow(nodes, at)
    &&& forall|k: int| k < at ==> !#[trigger] follow(nodes, k)
    &&& missing.first == nodes[at]
    &&& missing.second == nodes[at + 1]
    &&& missing.level == if level + 1 <= settings.max_summary_levels {
        level + 1
    } else {
        settings.max_summary_levels as int
    }
    &&& missing.token_estimate == settings.summary_token_estimate
    &&& forall|l: int| from <= l < level ==> at_rest(#[trigger] levels[l], settings)
}

/// The request is for the oldest pair of the lowest level that holds too many nodes; where no
/// summary is asked for, every level is at rest.
pub proof fn law_oldest_pair_of_the_lowest_level_is_asked_for(
    levels: Seq<Seq<NodeView>>,
    from: int,
    settings: PairwiseCompactionSettings,
)
    requires
        0 <= from <= levels.len(),
    ensures
        match compaction(levels, from, settings, SummarySource::Required).1 {
            Some(missing) => exists|level: int, at: int| #[trigger]
                oldest_due(missing, levels, settings, from, level, at),
            None => forall|l: int|
                from <= l < levels.len() && l <= settings.max_summary_levels ==> at_rest(
                    #[trigger] levels[l],
                    settings,
                ),
        },
    decreases levels.len() - from,
{
    if from < levels.len() {
        let nodes = chronological(levels[from]);
        let sorted = levels.update(from, nodes);
        crate::summary_tree::lemma_stable_sort_len(NodeOrder::Chronological, levels[from]);
        lemma_oldest_pair(nodes, 0);
        match due_pair(sorted[from], from, settings) {
            Some(at) => {
                let missing = missing_summary(sorted, from, at, settings);
                assert(touches(nodes, at));
                assert forall|k: int| k < at implies !#[trigger] follow(nodes, k) by {
                    if 0 <= k {
                        assert(!touches(nodes, k));
                    }
                }
                assert(oldest_due(missing, levels, settings, from, from, at));
            },
            None => {
                assert(from <= settings.max_summary_levels ==> at_rest(levels[from], settings)) by {
                    if levels[from].len() > room(settings) && from <= settings.max_summary_levels {
                        assert forall|k: int| !#[trigger] follow(nodes, k) by {
                            if follow(nodes, k) {
                                assert(!touches(nodes, k));
                            }
                        }
                    }
                }
                law_oldest_pair_of_the_lowest_level_is_asked_for(sorted, from + 1, settings);
                assert(forall|l: int| from < l < levels.len() ==> sorted[l] == levels[l]);
                if let Some(missing) = compaction(
                    levels,
                    from,
                    settings,
                    SummarySource::Required,
                ).1 {
                    let (level, at) = choose|level: int, at: int| #[trigger]
                        oldest_due(missing, sorted, settings, from + 1, level, at);
                    assert forall|l: int| from <= l < level implies at_rest(
                        #[trigger] levels[l],
                        settings,
                    ) by {
                        if l > from {
                            assert(at_rest(sorted[l], settings));
                        }
                    }
                    assert(oldest_due(missing, levels, settings, from, level, at));
                } else {
                    assert forall|l: int|
                        from <= l < levels.len() && l <= settings.max_summary_levels implies at_rest(
                        #[trigger] levels[l],
                        settings,
                    ) by {
                        if l > from {
                            assert(at_rest(sorted[l], settings));
                        }
                    }
                }
            },
        }
    }
}

} // verus!
