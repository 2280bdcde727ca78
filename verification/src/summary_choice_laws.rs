//! Which nodes a tree of summaries is built from.

use crate::summary_tree::{
    all_nodes, at_level, chronological, depth, dominated_by_any, dominates, in_order, parted,
    spec_levels_from_nodes, stable_sort, undominated, NodeOrder, NodeView, PairwiseNodeKind,
};
use crate::summary_tree_laws::{law_sort_orders, lemma_sort_members, sorted_by_order};
use vstd::prelude::*;

verus! {

/// The first is a summary of the same or a higher level whose range holds that of the second.
pub open spec fn stands_over(above: NodeView, node: NodeView) -> bool {
    &&& above.kind == PairwiseNodeKind::Summary
    &&& above.level >= node.level
    &&& above.coverage.raw_start_index <= node.coverage.raw_start_index
    &&& above.coverage.raw_end_exclusive >= node.coverage.raw_end_exclusive
}

proof fn lemma_undominated(nodes: Seq<NodeView>)
    ensures
        forall|k: int|
            0 <= k < undominated(nodes).len() ==> nodes.contains(#[trigger] undominated(nodes)[k]),
        forall|j: int|
            0 <= j < nodes.len() ==> undominated(nodes).contains(#[trigger] nodes[j])
                || dominated_by_any(undominated(nodes), nodes[j]),
    decreases nodes.len(),
{
    if nodes.len() > 0 {
        let rest = nodes.drop_last();
        lemma_undominated(rest);
        let kept = undominated(rest);
        let result = undominated(nodes);
        assert forall|k: int| 0 <= k < result.len() implies nodes.contains(#[trigger] result[k]) by {
            if k < kept.len() {
                assert(result[k] == kept[k]);
                let j = choose|j: int| 0 <= j < rest.len() && rest[j] == kept[k];
                assert(nodes[j] == result[k]);
            } else {
                assert(nodes[nodes.len() - 1] == result[k]);
            }
        }
        assert forall|j: int| 0 <= j < nodes.len() implies result.contains(#[trigger] nodes[j])
            || dominated_by_any(result, nodes[j]) by {
            if j < rest.len() {
                assert(rest[j] == nodes[j]);
                if kept.contains(rest[j]) {
                    let k = choose|k: int| 0 <= k < kept.len() && kept[k] == rest[j];
                    assert(result[k] == rest[j]);
                } else {
                    let k = choose|k: int| 0 <= k < kept.len() && dominates(#[trigger] kept[k], rest[j]);
                    assert(dominates(result[k], nodes[j]));
                }
            } else if dominated_by_any(kept, nodes.last()) {
                let k = choose|k: int|
                    0 <= k < kept.len() && dominates(#[trigger] kept[k], nodes.last());
                assert(dominates(result[k], nodes[j]));
            } else {
                assert(result[result.len() - 1] == nodes.last());
            }
        }
    }
}

proof fn lemma_at_level_members(nodes: Seq<NodeView>, level: int, node: NodeView)
    ensures
        at_level(nodes, level).contains(node) <==> nodes.contains(node) && node.level == level,
    decreases nodes.len(),
{
    let all = at_level(nodes, level);
    if nodes.len() > 0 {
        let rest = nodes.drop_last();
        let before = at_level(rest, level);
        lemma_at_level_members(rest, level, node);
        if all.contains(node) {
            let k = choose|k: int| 0 <= k < all.len() && all[k] == node;
            if k < before.len() {
                assert(before[k] == node);
                let j = choose|j: int| 0 <= j < rest.len() && rest[j] == node;
                assert(nodes[j] == node);
            } else {
                assert(nodes[nodes.len() - 1] == node);
            }
        }
        if nodes.contains(node) && node.level == level {
            let j = choose|j: int| 0 <= j < nodes.len() && nodes[j] == node;
            if j < rest.len() {
                assert(rest[j] == node);
                let k = choose|k: int| 0 <= k < before.len() && before[k] == node;
                assert(all[k] == node);
            } else {
                assert(all[all.len() - 1] == node);
            }
        }
    }
}

proof fn lemma_depth(nodes: Seq<NodeView>, j: int)
    requires
        0 <= j < nodes.len(),
    ensures
        nodes[j].level < depth(nodes),
    decreases nodes.len(),
{
    if j < nodes.len() - 1 {
        lemma_depth(nodes.drop_last(), j);
        assert(nodes.drop_last()[j] == nodes[j]);
    }
}

proof fn lemma_all_nodes_members(levels: Seq<Seq<NodeView>>, node: NodeView)
    ensures
        all_nodes(levels).contains(node) <==> exists|l: int|
            0 <= l < levels.len() && (#[trigger] levels[l]).contains(node),
    decreases levels.len(),
{
    let all = all_nodes(levels);
    if levels.len() > 0 {
        let rest = levels.drop_last();
        let before = all_nodes(rest);
        lemma_all_nodes_members(rest, node);
        if all.contains(node) {
            let k = choose|k: int| 0 <= k < all.len() && all[k] == node;
            if k < before.len() {
                assert(before[k] == node);
                let l = choose|l: int| 0 <= l < rest.len() && (#[trigger] rest[l]).contains(node);
                assert(levels[l].contains(node));
            } else {
                let last = levels[levels.len() - 1];
                assert(last[k - before.len()] == node);
                assert(last.contains(node));
            }
        }
        if exists|l: int| 0 <= l < levels.len() && (#[trigger] levels[l]).contains(node) {
            let l = choose|l: int| 0 <= l < levels.len() && (#[trigger] levels[l]).contains(node);
            if l < rest.len() {
                assert(rest[l].contains(node));
                let k = choose|k: int| 0 <= k < before.len() && before[k] == node;
                assert(all[k] == node);
            } else {
                let k = choose|k: int| 0 <= k < levels[l].len() && levels[l][k] == node;
                assert(all[before.len() + k] == node);
            }
        }
    }
}

proof fn lemma_built_members(nodes: Seq<NodeView>, node: NodeView)
    ensures
        all_nodes(spec_levels_from_nodes(nodes)).contains(node) <==> undominated(
            stable_sort(NodeOrder::Dominance, nodes),
        ).contains(node),
{
    let kept = undominated(stable_sort(NodeOrder::Dominance, nodes));
    let levels = parted(kept);
    let sorted = spec_levels_from_nodes(nodes);
    lemma_all_nodes_members(sorted, node);
    if all_nodes(sorted).contains(node) {
        let l = choose|l: int| 0 <= l < sorted.len() && (#[trigger] sorted[l]).contains(node);
        lemma_sort_members(NodeOrder::Chronological, levels[l]);
        let k = choose|k: int| 0 <= k < sorted[l].len() && sorted[l][k] == node;
        assert(levels[l].contains(chronological(levels[l])[k]));
        lemma_at_level_members(kept, l, node);
    }
    if kept.contains(node) {
        let j = choose|j: int| 0 <= j < kept.len() && kept[j] == node;
        lemma_depth(kept, j);
        let l = node.level as int;
        lemma_at_level_members(kept, l, node);
        lemma_sort_members(NodeOrder::Chronological, levels[l]);
        let k = choose|k: int| 0 <= k < levels[l].len() && levels[l][k] == node;
        assert(chronological(levels[l]).contains(levels[l][k]));
        assert(sorted[l].contains(node));
    }
}

/// A tree is built from the given nodes and no others. One that is left out stands under a summary
/// that is in the tree.
pub proof fn law_tree_leaves_out_only_what_a_summary_covers(nodes: Seq<NodeView>, at: int)
    requires
        0 <= at < nodes.len(),
    ensures
        ({
            let tree = all_nodes(spec_levels_from_nodes(nodes));
            ||| tree.contains(nodes[at])
            ||| exists|above: NodeView| #[trigger] tree.contains(above) && stands_over(
                above,
                nodes[at],
            )
        }),
        forall|node: NodeView| #[trigger]
            all_nodes(spec_levels_from_nodes(nodes)).contains(node) ==> nodes.contains(node),
{
    let sorted = stable_sort(NodeOrder::Dominance, nodes);
    let kept = undominated(sorted);
    let tree = all_nodes(spec_levels_from_nodes(nodes));
    lemma_sort_members(NodeOrder::Dominance, nodes);
    lemma_undominated(sorted);
    lemma_built_members(nodes, nodes[at]);
    assert(sorted.contains(nodes[at]));
    let j = choose|j: int| 0 <= j < sorted.len() && sorted[j] == nodes[at];
    assert(kept.contains(sorted[j]) || dominated_by_any(kept, sorted[j]));
    if !kept.contains(nodes[at]) {
        let k = choose|k: int| 0 <= k < kept.len() && dominates(#[trigger] kept[k], nodes[at]);
        lemma_built_members(nodes, kept[k]);
        assert(kept.contains(kept[k]));
        assert(tree.contains(kept[k]) && stands_over(kept[k], nodes[at]));
    }
    assert forall|node: NodeView| #[trigger] tree.contains(node) implies nodes.contains(node) by {
        lemma_built_members(nodes, node);
        let k = choose|k: int| 0 <= k < kept.len() && kept[k] == node;
        assert(sorted.contains(kept[k]));
        let i = choose|i: int| 0 <= i < sorted.len() && sorted[i] == node;
        assert(nodes.contains(sorted[i]));
    }
}

/// Raw nodes are of the lowest level, and summaries of higher ones.
pub open spec fn levels_apart(nodes: Seq<NodeView>) -> bool {
    forall|k: int|
        0 <= k < nodes.len() ==> ((#[trigger] nodes[k]).kind == PairwiseNodeKind::Raw
            <==> nodes[k].level == 0)
}

proof fn lemma_kept_apart(nodes: Seq<NodeView>)
    requires
        sorted_by_order(NodeOrder::Dominance, nodes),
        levels_apart(nodes),
    ensures
        ({
            let kept = undominated(nodes);
            &&& sorted_by_order(NodeOrder::Dominance, kept)
            &&& levels_apart(kept)
            &&& nodes.len() > 0 ==> forall|i: int|
                0 <= i < kept.len() ==> kept[i] == nodes.last() || in_order(
                    NodeOrder::Dominance,
                    #[trigger] kept[i],
                    nodes.last(),
                )
            &&& forall|i: int, j: int|
                0 <= i < j < kept.len() ==> !stands_over(#[trigger] kept[i], #[trigger] kept[j])
        }),
    decreases nodes.len(),
{
    if nodes.len() > 0 {
        let rest = nodes.drop_last();
        assert(forall|k: int| 0 <= k < rest.len() ==> rest[k] == nodes[k]);
        lemma_kept_apart(rest);
        lemma_undominated(rest);
        let before = undominated(rest);
        let kept = undominated(nodes);
        let last = nodes.last();
        assert forall|i: int| 0 <= i < before.len() implies in_order(
            NodeOrder::Dominance,
            #[trigger] before[i],
            last,
        ) by {
            assert(rest.contains(before[i]));
            let k = choose|k: int| 0 <= k < rest.len() && rest[k] == before[i];
            assert(in_order(NodeOrder::Dominance, nodes[k], nodes[nodes.len() - 1]));
        }
        assert(nodes[nodes.len() - 1] == last);
        assert forall|i: int, j: int| 0 <= i < j < kept.len() implies !stands_over(
            #[trigger] kept[i],
            #[trigger] kept[j],
        ) by {
            if j == before.len() {
                assert(!dominates(before[i], last));
            } else {
                assert(!stands_over(before[i], before[j]));
            }
        }
    }
}

/// No node of a tree stands under another summary of it: where one of two different nodes is a
/// summary of the same or a higher level whose range holds that of the other, only that one is in
/// the tree.
pub proof fn law_no_node_stands_under_a_summary(nodes: Seq<NodeView>, above: NodeView, node: NodeView)
    requires
        levels_apart(nodes),
        above.coverage.raw_start_index < above.coverage.raw_end_exclusive,
        stands_over(above, node),
        above.coverage != node.coverage || above.level != node.level,
    ensures
        ({
            let tree = all_nodes(spec_levels_from_nodes(nodes));
            !(tree.contains(above) && tree.contains(node))
        }),
{
    let sorted = stable_sort(NodeOrder::Dominance, nodes);
    let kept = undominated(sorted);
    lemma_sort_members(NodeOrder::Dominance, nodes);
    law_sort_orders(NodeOrder::Dominance, nodes);
    assert(levels_apart(sorted)) by {
        assert forall|k: int| 0 <= k < sorted.len() implies ((#[trigger] sorted[k]).kind
            == PairwiseNodeKind::Raw <==> sorted[k].level == 0) by {
            assert(nodes.contains(sorted[k]));
            let j = choose|j: int| 0 <= j < nodes.len() && nodes[j] == sorted[k];
            assert(nodes[j].kind == PairwiseNodeKind::Raw <==> nodes[j].level == 0);
        }
    }
    lemma_kept_apart(sorted);
    lemma_built_members(nodes, above);
    lemma_built_members(nodes, node);
    if kept.contains(above) && kept.contains(node) {
        let i = choose|i: int| 0 <= i < kept.len() && kept[i] == above;
        let j = choose|j: int| 0 <= j < kept.len() && kept[j] == node;
        if i < j {
            assert(!stands_over(kept[i], kept[j]));
        } else if j < i {
            assert(in_order(NodeOrder::Dominance, kept[j], kept[i]));
        }
    }
}

} // verus!
