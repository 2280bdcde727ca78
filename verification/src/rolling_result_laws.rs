//! What a rolling prompt reports beside what it shows.

use crate::item::ItemView;
use crate::rolling::GroupView;
use crate::rolling_body_laws::{
    body_indices, law_dropped_items_are_counted, lemma_fitted_body,
};
use crate::rolling_pairwise::{
    body_with_groups, group_of, nodes_body, settings_of, OutcomeView, PairwiseRollingPromptParams,
    PromptBodyView,
};
use crate::rolling_prompt::{prompt_input, prompt_target, rolling_outcome, ParamsView};
use crate::rolling_prompt_laws::{
    cold_groups, exact_groups, exact_start, lemma_exact_start, lemma_input_groups, shown_nodes,
    tree_nodes,
};
use crate::rolling_request_laws::lemma_group_of;
use crate::rolling_state::StateView;
use crate::session_model::SessionModel;
use crate::summary_tree::{
    compaction, spec_levels_from_nodes, NodeView, PairwiseNodeKind, SummarySource,
};
use vstd::prelude::*;

verus! {

/// One of the nodes is raw and stands for a group that starts at `start`.
pub open spec fn raw_start(nodes: Seq<NodeView>, cold: Seq<GroupView>, start: int) -> bool {
    exists|i: int, k: int|
        #![trigger nodes[i], cold[k]]
        {
            &&& 0 <= i < nodes.len()
            &&& 0 <= k < cold.len()
            &&& nodes[i].kind == PairwiseNodeKind::Raw
            &&& cold[k].start == nodes[i].coverage.raw_start_index
            &&& cold[k].end == nodes[i].coverage.raw_end_exclusive
            &&& cold[k].start == start
        }
}

/// One of the groups starts at `start`.
pub open spec fn group_starts(groups: Seq<GroupView>, start: int) -> bool {
    exists|k: int| 0 <= k < groups.len() && (#[trigger] groups[k]).start == start
}

proof fn lemma_raw_start_grows(
    nodes: Seq<NodeView>,
    cold: Seq<GroupView>,
    node: NodeView,
    start: int,
)
    ensures
        raw_start(nodes, cold, start) ==> raw_start(nodes.push(node), cold, start),
        raw_start(nodes.push(node), cold, start) && !raw_start(nodes, cold, start) ==> node.kind
            == PairwiseNodeKind::Raw && exists|k: int|
            #![trigger cold[k]]
            {
                &&& 0 <= k < cold.len()
                &&& cold[k].start == node.coverage.raw_start_index
                &&& cold[k].end == node.coverage.raw_end_exclusive
                &&& cold[k].start == start
            },
{
    let all = nodes.push(node);
    if raw_start(nodes, cold, start) {
        let (i, k) = choose|i: int, k: int|
            #![trigger nodes[i], cold[k]]
            {
                &&& 0 <= i < nodes.len()
                &&& 0 <= k < cold.len()
                &&& nodes[i].kind == PairwiseNodeKind::Raw
                &&& cold[k].start == nodes[i].coverage.raw_start_index
                &&& cold[k].end == nodes[i].coverage.raw_end_exclusive
                &&& cold[k].start == start
            };
        assert(all[i] == nodes[i] && cold[k] == cold[k]);
    }
    if raw_start(all, cold, start) && !raw_start(nodes, cold, start) {
        let (i, k) = choose|i: int, k: int|
            #![trigger all[i], cold[k]]
            {
                &&& 0 <= i < all.len()
                &&& 0 <= k < cold.len()
                &&& all[i].kind == PairwiseNodeKind::Raw
                &&& cold[k].start == all[i].coverage.raw_start_index
                &&& cold[k].end == all[i].coverage.raw_end_exclusive
                &&& cold[k].start == start
            };
        if i < nodes.len() {
            assert(nodes[i] == all[i] && cold[k] == cold[k]);
        }
    }
}

/// The first start is known and is the least of all that are there, or there is none.
pub open spec fn least_start(first: Option<int>, there: spec_fn(int) -> bool) -> bool {
    match first {
        Some(start) => there(start) && forall|s: int| #[trigger] there(s) ==> start <= s,
        None => forall|s: int| !#[trigger] there(s),
    }
}

/// The first index that is shown exactly: by a raw node or in an exact group.
pub open spec fn first_shown(
    first: Option<int>,
    nodes: Seq<NodeView>,
    cold: Seq<GroupView>,
    exact: Seq<GroupView>,
) -> bool {
    least_start(first, |s: int| raw_start(nodes, cold, s) || group_starts(exact, s))
}

proof fn lemma_nodes_first<M: SessionModel>(
    model: M,
    nodes: Seq<NodeView>,
    cold: Seq<GroupView>,
    cap: nat,
    cap_max: nat,
)
    ensures
        nodes_body(model, nodes, cold, cap, cap_max) matches Ok(body) ==> least_start(
            body.first_exact,
            |s: int| raw_start(nodes, cold, s),
        ),
    decreases nodes.len(),
{
    if nodes.len() > 0 {
        let rest = nodes.drop_last();
        let node = nodes.last();
        lemma_nodes_first(model, rest, cold, cap, cap_max);
        lemma_group_of(cold, node.coverage, 0);
        assert(rest.push(node) =~= nodes);
        assert forall|s: int| raw_start(rest, cold, s) implies #[trigger] raw_start(
            nodes,
            cold,
            s,
        ) by {
            lemma_raw_start_grows(rest, cold, node, s);
        }
        if let Ok(body) = nodes_body(model, nodes, cold, cap, cap_max) {
            let before = nodes_body(model, rest, cold, cap, cap_max)->Ok_0;
            let there = |s: int| raw_start(nodes, cold, s);
            let known = |s: int| raw_start(rest, cold, s);
            let own = if node.kind == PairwiseNodeKind::Raw {
                group_of(cold, node.coverage, 0)
            } else {
                None
            };
            assert forall|s: int| #[trigger] there(s) implies known(s) || (own is Some
                && own->Some_0.start == s) by {
                lemma_raw_start_grows(rest, cold, node, s);
            }
            if let Some(group) = own {
                let k = choose|k: int|
                    {
                        &&& 0 <= k < cold.len()
                        &&& (#[trigger] cold[k]).start == node.coverage.raw_start_index
                        &&& cold[k].end == node.coverage.raw_end_exclusive
                        &&& cold[k] == group
                    };
                assert(nodes[nodes.len() - 1] == node && cold[k] == group);
                assert(there(group.start));
            }
            if let Some(start) = before.first_exact {
                assert(known(start));
                assert(there(start));
            }
            assert forall|s: int| known(s) implies #[trigger] there(s) by {
                assert(raw_start(rest, cold, s) ==> raw_start(nodes, cold, s));
            }
            if let Some(start) = body.first_exact {
                assert forall|s: int| #[trigger] there(s) implies start <= s by {
                    if known(s) {
                        assert(before.first_exact is Some);
                    }
                }
            } else {
                assert forall|s: int| !#[trigger] there(s) by {
                    if there(s) {
                        assert(known(s));
                    }
                }
            }
        }
    } else {
        if let Ok(body) = nodes_body(model, nodes, cold, cap, cap_max) {
            let there = |s: int| raw_start(nodes, cold, s);
            assert forall|s: int| !#[trigger] there(s) by {}
        }
    }
}

proof fn lemma_groups_first(
    body: PromptBodyView,
    groups: Seq<GroupView>,
    known: spec_fn(int) -> bool,
)
    requires
        least_start(body.first_exact, known),
    ensures
        least_start(
            body_with_groups(body, groups).first_exact,
            |s: int| known(s) || group_starts(groups, s),
        ),
    decreases groups.len(),
{
    let there = |s: int| known(s) || group_starts(groups, s);
    if groups.len() == 0 {
        assert forall|s: int| #[trigger] there(s) == known(s) by {}
        if let Some(start) = body.first_exact {
            assert(there(start));
        }
    } else {
        let rest = groups.drop_last();
        let last = groups.last();
        lemma_groups_first(body, rest, known);
        let before = body_with_groups(body, rest);
        let after = body_with_groups(body, groups);
        let earlier = |s: int| known(s) || group_starts(rest, s);
        assert forall|s: int| #[trigger] there(s) implies earlier(s) || s == last.start by {
            if group_starts(groups, s) {
                let k = choose|k: int| 0 <= k < groups.len() && (#[trigger] groups[k]).start == s;
                if k < rest.len() {
                    assert(rest[k].start == s);
                }
            }
        }
        assert forall|s: int| #[trigger] earlier(s) implies there(s) by {
            if group_starts(rest, s) {
                let k = choose|k: int| 0 <= k < rest.len() && (#[trigger] rest[k]).start == s;
                assert(groups[k].start == s);
            }
        }
        assert(groups[groups.len() - 1].start == last.start);
        assert(there(last.start));
        if let Some(start) = before.first_exact {
            assert(earlier(start));
        }
        let start = after.first_exact->Some_0;
        assert forall|s: int| #[trigger] there(s) implies start <= s by {
            if earlier(s) {
                assert(before.first_exact is Some);
            }
        }
    }
}

/// A pairwise prompt that can be sent goes on from the first index that it shows exactly, or from
/// the end where it shows none, and never from before it was. What it leaves behind is counted. It
/// reports the target that it kept to, and whether that was scaled down.
pub proof fn law_prompt_reports_where_it_goes_on<M: SessionModel>(
    model: M,
    raw: Seq<ItemView>,
    version: u64,
    state: StateView,
    params: ParamsView,
    pairwise: PairwiseRollingPromptParams,
    fingerprint: u64,
    source: SummarySource,
)
    requires
        raw.len() <= usize::MAX,
        params.effective_context_window is Some,
        params.pairwise_compaction == Some(pairwise),
    ensures
        ({
            let window = params.effective_context_window->Some_0;
            let input = prompt_input(model, raw, version, state, params, fingerprint, window);
            let shown = shown_nodes(model, input, pairwise, source);
            let cold = cold_groups(input, pairwise);
            let exact = exact_groups(input, pairwise);
            let before = input.state.raw_history_start_index;
            match rolling_outcome(model, raw, version, state, params, fingerprint, source) {
                Ok(OutcomeView::Ready(result)) => {
                    &&& exists|first: Option<int>|
                        {
                            &&& #[trigger] first_shown(first, shown, cold, exact)
                            &&& first matches Some(start) ==> result.raw_history_start_index
                                == if start > before {
                                start
                            } else {
                                before as int
                            }
                            &&& first is None ==> result.raw_history_start_index == raw.len()
                        }
                    &&& result.projected_state.raw_history_start_index
                        == result.raw_history_start_index
                    &&& result.projected_state.history_version == version
                    &&& result.projected_state.projection_basis_fingerprint == fingerprint
                    &&& result.dropped_body_items == body_indices(
                        model,
                        raw,
                        before as int,
                        result.raw_history_start_index as int,
                        params.prefix,
                    ).len()
                    &&& result.target_tokens == prompt_target(window, params)
                    &&& result.backoff_applied <==> (params.target_scale_percent matches Some(p)
                        && p < 100)
                },
                _ => true,
            }
        }),
{
    let window = params.effective_context_window->Some_0;
    let input = prompt_input(model, raw, version, state, params, fingerprint, window);
    if let Ok(OutcomeView::Ready(result)) = rolling_outcome(
        model,
        raw,
        version,
        state,
        params,
        fingerprint,
        source,
    ) {
        let cold = cold_groups(input, pairwise);
        let exact = exact_groups(input, pairwise);
        let cap = pairwise.summary_group_token_cap as nat;
        let cap_max = pairwise.summary_group_token_cap_max as nat;
        let hot = exact_start(input, pairwise);
        let tree = compaction(
            spec_levels_from_nodes(tree_nodes(input, pairwise)),
            0,
            settings_of(pairwise),
            source,
        ).0;
        let shown = shown_nodes(model, input, pairwise, source);
        lemma_fitted_body(model, tree, input.groups, hot, pairwise, input.body_budget, source);
        let front = nodes_body(model, shown, cold, cap, cap_max)->Ok_0;
        let body = body_with_groups(front, exact);
        lemma_nodes_first(model, shown, cold, cap, cap_max);
        let known = |s: int| raw_start(shown, cold, s);
        lemma_groups_first(front, exact, known);
        let there = |s: int| raw_start(shown, cold, s) || group_starts(exact, s);
        let both = |s: int| known(s) || group_starts(exact, s);
        assert forall|s: int| #[trigger] there(s) == both(s) by {}
        let first = body.first_exact;
        lemma_input_groups(model, raw, version, state, params, fingerprint, window);
        lemma_exact_start(input, pairwise, raw.len() as int);
        if let Some(start) = first {
            assert(both(start));
            assert(there(start));
            assert forall|s: int| #[trigger] there(s) implies start <= s by {
                assert(both(s));
            }
            assert(0 <= start <= raw.len()) by {
                if raw_start(shown, cold, start) {
                    let (i, k) = choose|i: int, k: int|
                        #![trigger shown[i], cold[k]]
                        {
                            &&& 0 <= i < shown.len()
                            &&& 0 <= k < cold.len()
                            &&& shown[i].kind == PairwiseNodeKind::Raw
                            &&& cold[k].start == shown[i].coverage.raw_start_index
                            &&& cold[k].end == shown[i].coverage.raw_end_exclusive
                            &&& cold[k].start == start
                        };
                    assert(0 <= cold[k].start < cold[k].end <= raw.len());
                } else {
                    let k = choose|k: int|
                        0 <= k < exact.len() && (#[trigger] exact[k]).start == start;
                    assert(0 <= exact[k].start < exact[k].end <= raw.len());
                }
            }
        } else {
            assert forall|s: int| !#[trigger] there(s) by {
                assert(!both(s));
            }
        }
        assert(least_start(first, there));
        assert(first_shown(first, shown, cold, exact));
        law_dropped_items_are_counted(
            model,
            raw,
            input.state.raw_history_start_index as int,
            result.raw_history_start_index as int,
            params.prefix,
        );
    }
}

/// The levels, the number of nodes that a level may hold and the size of a summary are those that
/// were asked for.
pub proof fn law_settings_are_those_asked_for(params: PairwiseRollingPromptParams)
    requires
        params.summary_group_token_cap <= i64::MAX,
    ensures
        settings_of(params).max_summary_levels == params.max_summary_levels,
        settings_of(params).compact_when_level_group_count_gt
            == params.compact_when_level_group_count_gt,
        settings_of(params).summary_token_estimate == params.summary_group_token_cap,
{
}

} // verus!
