//! What holds of every pairwise summary tree.

use crate::summary_tree::{
    all_nodes, at_level, chained, chronological, compaction, depth, dominated_by_any, dominates,
    due_pair, ends_before_next, fold_target, folded, grown, in_order, insert_stable,
    lemma_folded_shrinks, lemma_insert_stable_len, lemma_oldest_pair, lemma_sorted_level_total,
    lemma_stable_sort_len, missing_summary, oldest_pair, parted, promotable_pair, single_fold,
    sorted_prefix, spec_levels_from_nodes, stable_sort, synthetic_summary, total_nodes, touches,
    undominated, visible, CoverageInterval, NodeOrder, NodeView, PairwiseCompactionSettings,
    PairwiseNodeKind, SummarySource,
};
use vstd::prelude::*;

verus! {

/// How many of the nodes cover the raw index `x`.
pub open spec fn cover_count(nodes: Seq<NodeView>, x: int) -> nat
    decreases nodes.len(),
{
    if nodes.len() == 0 {
        0
    } else {
        cover_count(nodes.drop_last(), x) + covers_index(nodes.last(), x)
    }
}

pub open spec fn covers_index(node: NodeView, x: int) -> nat {
    if node.coverage.contains(x) {
        1
    } else {
        0
    }
}

pub open spec fn nodes_wf(nodes: Seq<NodeView>) -> bool {
    forall|i: int| 0 <= i < nodes.len() ==> (#[trigger] nodes[i]).coverage.wf()
}

pub open spec fn levels_wf(levels: Seq<Seq<NodeView>>) -> bool {
    forall|l: int| 0 <= l < levels.len() ==> nodes_wf(#[trigger] levels[l])
}

/// How many nodes of all levels cover the raw index `x`.
pub open spec fn levels_cover_count(levels: Seq<Seq<NodeView>>, x: int) -> nat
    decreases levels.len(),
{
    if levels.len() == 0 {
        0
    } else {
        levels_cover_count(levels.drop_last(), x) + cover_count(levels.last(), x)
    }
}

// -- counting ---------------------------------------------------------------------------------

pub proof fn lemma_count_concat(a: Seq<NodeView>, b: Seq<NodeView>, x: int)
    ensures
        cover_count(a + b, x) == cover_count(a, x) + cover_count(b, x),
    decreases b.len(),
{
    if b.len() == 0 {
        assert(a + b =~= a);
    } else {
        assert((a + b).drop_last() =~= a + b.drop_last());
        lemma_count_concat(a, b.drop_last(), x);
    }
}

proof fn lemma_count_push(a: Seq<NodeView>, node: NodeView, x: int)
    ensures
        cover_count(a.push(node), x) == cover_count(a, x) + covers_index(node, x),
{
    assert(a.push(node).drop_last() =~= a);
}

proof fn lemma_count_remove(a: Seq<NodeView>, at: int, x: int)
    requires
        0 <= at < a.len(),
    ensures
        cover_count(a, x) == cover_count(a.remove(at), x) + covers_index(a[at], x),
{
    let front = a.subrange(0, at);
    let back = a.subrange(at + 1, a.len() as int);
    assert(a =~= front.push(a[at]) + back);
    assert(a.remove(at) =~= front + back);
    lemma_count_concat(front.push(a[at]), back, x);
    lemma_count_concat(front, back, x);
    lemma_count_push(front, a[at], x);
}

proof fn lemma_count_insert_stable(order: NodeOrder, s: Seq<NodeView>, node: NodeView, x: int)
    ensures
        cover_count(insert_stable(order, s, node), x) == cover_count(s, x) + covers_index(node, x),
        nodes_wf(s) && node.coverage.wf() ==> nodes_wf(insert_stable(order, s, node)),
    decreases s.len(),
{
    if s.len() == 0 || in_order(order, s.last(), node) {
        lemma_count_push(s, node, x);
    } else {
        lemma_count_insert_stable(order, s.drop_last(), node, x);
        lemma_count_push(insert_stable(order, s.drop_last(), node), s.last(), x);
    }
}

/// Sorting changes no coverage.
pub proof fn law_sort_keeps_coverage(order: NodeOrder, s: Seq<NodeView>, x: int)
    ensures
        cover_count(stable_sort(order, s), x) == cover_count(s, x),
        nodes_wf(s) ==> nodes_wf(stable_sort(order, s)),
    decreases s.len(),
{
    if s.len() > 0 {
        law_sort_keeps_coverage(order, s.drop_last(), x);
        lemma_count_insert_stable(order, stable_sort(order, s.drop_last()), s.last(), x);
    }
}

pub open spec fn sorted_by_order(order: NodeOrder, s: Seq<NodeView>) -> bool {
    forall|i: int, j: int| 0 <= i < j < s.len() ==> in_order(order, #[trigger] s[i], #[trigger] s[j])
}

proof fn lemma_insert_stable_sorted(order: NodeOrder, s: Seq<NodeView>, node: NodeView)
    requires
        sorted_by_order(order, s),
    ensures
        sorted_by_order(order, insert_stable(order, s, node)),
        forall|bound: NodeView|
            (forall|i: int| 0 <= i < s.len() ==> in_order(order, #[trigger] s[i], bound))
                && in_order(order, node, bound) ==> (forall|i: int|
                0 <= i <= s.len() ==> in_order(
                    order,
                    #[trigger] insert_stable(order, s, node)[i],
                    bound,
                )),
    decreases s.len(),
{
    lemma_insert_stable_len(order, s, node);
    if s.len() > 0 && !in_order(order, s.last(), node) {
        lemma_insert_stable_sorted(order, s.drop_last(), node);
        let inner = insert_stable(order, s.drop_last(), node);
        lemma_insert_stable_len(order, s.drop_last(), node);
        assert(in_order(order, node, s.last()));
        assert forall|i: int| 0 <= i < s.drop_last().len() implies in_order(
            order,
            #[trigger] s.drop_last()[i],
            s.last(),
        ) by {
            assert(s.drop_last()[i] == s[i]);
        }
        let result = insert_stable(order, s, node);
        assert forall|bound: NodeView|
            (forall|i: int| 0 <= i < s.len() ==> in_order(order, #[trigger] s[i], bound))
                && in_order(order, node, bound) implies (forall|i: int|
            0 <= i <= s.len() ==> in_order(order, #[trigger] result[i], bound)) by {
            assert forall|i: int| 0 <= i < s.drop_last().len() implies in_order(
                order,
                #[trigger] s.drop_last()[i],
                bound,
            ) by {
                assert(s.drop_last()[i] == s[i]);
            }
            assert forall|i: int| 0 <= i <= s.len() implies in_order(
                order,
                #[trigger] result[i],
                bound,
            ) by {
                if i < s.len() {
                    assert(result[i] == inner[i]);
                }
            }
        }
    } else if s.len() > 0 {
        assert forall|i: int| 0 <= i < s.len() implies in_order(order, #[trigger] s[i], node) by {
            assert(in_order(order, s[i], s.last()));
        }
    }
}

/// A sorted list is in order.
pub proof fn law_sort_orders(order: NodeOrder, s: Seq<NodeView>)
    ensures
        sorted_by_order(order, stable_sort(order, s)),
    decreases s.len(),
{
    if s.len() > 0 {
        law_sort_orders(order, s.drop_last());
        lemma_insert_stable_sorted(order, stable_sort(order, s.drop_last()), s.last());
    }
}

proof fn lemma_levels_count_update(
    levels: Seq<Seq<NodeView>>,
    at: int,
    level: Seq<NodeView>,
    x: int,
)
    requires
        0 <= at < levels.len(),
    ensures
        levels_cover_count(levels.update(at, level), x) == levels_cover_count(levels, x)
            - cover_count(levels[at], x) + cover_count(level, x),
    decreases levels.len(),
{
    let updated = levels.update(at, level);
    if at == levels.len() - 1 {
        assert(updated.drop_last() =~= levels.drop_last());
    } else {
        lemma_levels_count_update(levels.drop_last(), at, level, x);
        assert(updated.drop_last() =~= levels.drop_last().update(at, level));
    }
}

proof fn lemma_levels_count_is_flat(levels: Seq<Seq<NodeView>>, x: int)
    ensures
        levels_cover_count(levels, x) == cover_count(all_nodes(levels), x),
        levels_wf(levels) ==> nodes_wf(all_nodes(levels)),
    decreases levels.len(),
{
    if levels.len() > 0 {
        lemma_levels_count_is_flat(levels.drop_last(), x);
        lemma_count_concat(all_nodes(levels.drop_last()), levels.last(), x);
        if levels_wf(levels) {
            assert forall|l: int| 0 <= l < levels.drop_last().len() implies nodes_wf(
                #[trigger] levels.drop_last()[l],
            ) by {
                assert(levels.drop_last()[l] == levels[l]);
            }
            assert(nodes_wf(levels[levels.len() - 1]));
        }
    }
}

proof fn lemma_levels_count_sorted_prefix(levels: Seq<Seq<NodeView>>, count: int, x: int)
    requires
        levels_wf(levels),
    ensures
        levels_cover_count(sorted_prefix(levels, count), x) == levels_cover_count(levels, x),
        levels_wf(sorted_prefix(levels, count)),
    decreases levels.len(),
{
    let sorted = sorted_prefix(levels, count);
    assert forall|l: int| 0 <= l < sorted.len() implies nodes_wf(#[trigger] sorted[l]) by {
        assert(nodes_wf(levels[l]));
        law_sort_keeps_coverage(NodeOrder::Chronological, levels[l], x);
    }
    if levels.len() > 0 {
        let rest = levels.drop_last();
        assert(levels_wf(rest)) by {
            assert forall|l: int| 0 <= l < rest.len() implies nodes_wf(#[trigger] rest[l]) by {
                assert(rest[l] == levels[l]);
            }
        }
        lemma_levels_count_sorted_prefix(rest, count, x);
        assert(sorted.drop_last() =~= sorted_prefix(rest, count));
        law_sort_keeps_coverage(NodeOrder::Chronological, levels.last(), x);
    }
}

// -- folding ----------------------------------------------------------------------------------

proof fn lemma_fold_keeps_coverage(
    levels: Seq<Seq<NodeView>>,
    level: int,
    at: int,
    settings: PairwiseCompactionSettings,
    x: int,
)
    requires
        levels_wf(levels),
        0 <= level < levels.len(),
        level <= settings.max_summary_levels,
        0 <= at,
        at + 1 < levels[level].len(),
        touches(levels[level], at),
    ensures
        levels_cover_count(folded(levels, level, at, settings), x) == levels_cover_count(levels, x),
        levels_wf(folded(levels, level, at, settings)),
{
    let target = fold_target(level, settings);
    let all = grown(levels, target);
    assert(levels.push(Seq::empty()).drop_last() =~= levels);
    assert(levels_cover_count(all, x) == levels_cover_count(levels, x));
    assert(all[level] == levels[level]);
    let once = all[level].remove(at + 1);
    let fewer = once.remove(at);
    lemma_count_remove(all[level], at + 1, x);
    lemma_count_remove(once, at, x);
    assert(once[at] == levels[level][at]);
    lemma_levels_count_update(all, level, fewer, x);
    let rest = all.update(level, fewer);
    let asked = missing_summary(levels, level, at, settings);
    let node = synthetic_summary(asked.coverage, asked.level, asked.token_estimate);
    lemma_levels_count_update(rest, target, rest[target].push(node), x);
    lemma_count_push(rest[target], node, x);
    assert(levels[level][at].coverage.wf());
    assert(levels[level][at + 1].coverage.wf());
    assert(covers_index(node, x) == covers_index(levels[level][at], x) + covers_index(
        levels[level][at + 1],
        x,
    ));
    assert forall|l: int| 0 <= l < all.len() implies nodes_wf(#[trigger] all[l]) by {
        if l < levels.len() {
            assert(nodes_wf(levels[l]));
        }
    }
    let result = folded(levels, level, at, settings);
    assert forall|l: int| 0 <= l < result.len() implies nodes_wf(#[trigger] result[l]) by {
        assert(nodes_wf(all[l]));
    }
}

/// Folding neither loses nor doubles a raw item: each raw index is covered by as many nodes
/// afterwards as before.
pub proof fn law_compaction_keeps_coverage(
    levels: Seq<Seq<NodeView>>,
    level: int,
    settings: PairwiseCompactionSettings,
    source: SummarySource,
    x: int,
)
    requires
        levels_wf(levels),
    ensures
        levels_cover_count(compaction(levels, level, settings, source).0, x) == levels_cover_count(
            levels,
            x,
        ),
        levels_wf(compaction(levels, level, settings, source).0),
    decreases total_nodes(levels), levels.len() - level,
{
    if 0 <= level < levels.len() {
        let sorted = levels.update(level, chronological(levels[level]));
        lemma_sorted_level_total(levels, level);
        assert(nodes_wf(levels[level]));
        law_sort_keeps_coverage(NodeOrder::Chronological, levels[level], x);
        lemma_levels_count_update(levels, level, chronological(levels[level]), x);
        assert forall|l: int| 0 <= l < sorted.len() implies nodes_wf(#[trigger] sorted[l]) by {
            assert(nodes_wf(levels[l]));
        }
        lemma_oldest_pair(sorted[level], 0);
        match due_pair(sorted[level], level, settings) {
            None => {
                law_compaction_keeps_coverage(sorted, level + 1, settings, source, x);
            },
            Some(at) => {
                lemma_folded_shrinks(sorted, level, at, settings);
                match source {
                    SummarySource::Synthetic => {
                        lemma_fold_keeps_coverage(sorted, level, at, settings, x);
                        law_compaction_keeps_coverage(
                            folded(sorted, level, at, settings),
                            level,
                            settings,
                            source,
                            x,
                        );
                    },
                    SummarySource::Required => {
                        let target = fold_target(level, settings);
                        let all = grown(sorted, target);
                        assert(sorted.push(Seq::empty()).drop_last() =~= sorted);
                        assert forall|l: int| 0 <= l < all.len() implies nodes_wf(
                            #[trigger] all[l],
                        ) by {
                            if l < sorted.len() {
                                assert(nodes_wf(sorted[l]));
                            }
                        }
                    },
                }
            },
        }
    }
}

pub proof fn lemma_promotable_pair(
    levels: Seq<Seq<NodeView>>,
    level: int,
    settings: PairwiseCompactionSettings,
)
    requires
        0 <= level,
    ensures
        match promotable_pair(levels, level, settings) {
            Some((l, at)) => level <= l < levels.len() && l <= settings.max_summary_levels && 0
                <= at && at + 1 < chronological(levels[l]).len() && touches(
                chronological(levels[l]),
                at,
            ),
            None => true,
        },
    decreases levels.len() - level,
{
    if level < levels.len() && level <= settings.max_summary_levels {
        lemma_oldest_pair(chronological(levels[level]), 0);
        if oldest_pair(chronological(levels[level]), 0) is None {
            lemma_promotable_pair(levels, level + 1, settings);
        }
    }
}

/// A single fold keeps every raw index covered as often as before and every node's range
/// non-empty, and a fold that took place leaves exactly one node fewer.
pub proof fn law_single_fold(
    levels: Seq<Seq<NodeView>>,
    settings: PairwiseCompactionSettings,
    x: int,
)
    requires
        levels_wf(levels),
    ensures
        ({
            let (after, found, _) = single_fold(levels, settings, SummarySource::Synthetic);
            &&& levels_cover_count(after, x) == levels_cover_count(levels, x)
            &&& levels_wf(after)
            &&& total_nodes(after) == total_nodes(levels) - if found {
                1int
            } else {
                0
            }
        }),
{
    lemma_promotable_pair(levels, 0, settings);
    match promotable_pair(levels, 0, settings) {
        None => {
            lemma_levels_count_sorted_prefix(levels, settings.max_summary_levels + 1, x);
            lemma_total_sorted_prefix(levels, settings.max_summary_levels + 1);
        },
        Some((level, at)) => {
            let sorted = sorted_prefix(levels, level + 1);
            lemma_levels_count_sorted_prefix(levels, level + 1, x);
            lemma_total_sorted_prefix(levels, level + 1);
            lemma_fold_keeps_coverage(sorted, level, at, settings, x);
            lemma_folded_shrinks(sorted, level, at, settings);
            let after = folded(sorted, level, at, settings);
            lemma_levels_count_sorted_prefix(after, after.len() as int, x);
            lemma_total_sorted_prefix(after, after.len() as int);
        },
    }
}

/// A fold that took place leaves exactly one node fewer.
pub proof fn lemma_single_fold_total(
    levels: Seq<Seq<NodeView>>,
    settings: PairwiseCompactionSettings,
)
    ensures
        ({
            let (after, found, missing) = single_fold(levels, settings, SummarySource::Synthetic);
            &&& missing is None
            &&& total_nodes(after) == total_nodes(levels) - if found {
                1int
            } else {
                0
            }
        }),
{
    lemma_promotable_pair(levels, 0, settings);
    match promotable_pair(levels, 0, settings) {
        None => {
            lemma_total_sorted_prefix(levels, settings.max_summary_levels + 1);
        },
        Some((level, at)) => {
            let sorted = sorted_prefix(levels, level + 1);
            lemma_total_sorted_prefix(levels, level + 1);
            lemma_folded_shrinks(sorted, level, at, settings);
            let after = folded(sorted, level, at, settings);
            lemma_total_sorted_prefix(after, after.len() as int);
        },
    }
}

proof fn lemma_total_sorted_prefix(levels: Seq<Seq<NodeView>>, count: int)
    ensures
        total_nodes(sorted_prefix(levels, count)) == total_nodes(levels),
    decreases levels.len(),
{
    if levels.len() > 0 {
        lemma_total_sorted_prefix(levels.drop_last(), count);
        assert(sorted_prefix(levels, count).drop_last() =~= sorted_prefix(
            levels.drop_last(),
            count,
        ));
        lemma_stable_sort_len(NodeOrder::Chronological, levels.last());
    }
}

// -- what is visible --------------------------------------------------------------------------

/// The visible nodes are the nodes of the levels: each raw index is covered as often.
pub proof fn law_visible_keeps_coverage(levels: Seq<Seq<NodeView>>, x: int)
    ensures
        cover_count(visible(levels), x) == levels_cover_count(levels, x),
        levels_wf(levels) ==> nodes_wf(visible(levels)),
{
    lemma_levels_count_is_flat(levels, x);
    law_sort_keeps_coverage(NodeOrder::ChronologicalByLevel, all_nodes(levels), x);
}

/// The visible nodes come in chronological order.
pub proof fn law_visible_is_chronological(levels: Seq<Seq<NodeView>>)
    ensures
        sorted_by_order(NodeOrder::ChronologicalByLevel, visible(levels)),
{
    law_sort_orders(NodeOrder::ChronologicalByLevel, all_nodes(levels));
}

pub proof fn lemma_count_two(nodes: Seq<NodeView>, i: int, j: int, x: int)
    requires
        0 <= i < j < nodes.len(),
        nodes[i].coverage.contains(x),
        nodes[j].coverage.contains(x),
    ensures
        cover_count(nodes, x) >= 2,
{
    lemma_count_remove(nodes, j, x);
    let rest = nodes.remove(j);
    assert(rest[i] == nodes[i]);
    lemma_count_remove(rest, i, x);
}

/// If no raw index is covered twice, each visible node ends before the next one starts.
pub proof fn law_single_coverage_is_chained(levels: Seq<Seq<NodeView>>)
    requires
        levels_wf(levels),
        forall|x: int| #[trigger] levels_cover_count(levels, x) <= 1,
    ensures
        chained(visible(levels)),
{
    let nodes = visible(levels);
    law_visible_is_chronological(levels);
    law_visible_keeps_coverage(levels, 0);
    assert forall|i: int| 0 <= i && i + 1 < nodes.len() implies #[trigger] ends_before_next(
        nodes,
        i,
    ) by {
        let x = nodes[i + 1].coverage.raw_start_index as int;
        law_visible_keeps_coverage(levels, x);
        assert(in_order(NodeOrder::ChronologicalByLevel, nodes[i], nodes[i + 1]));
        assert(nodes[i + 1].coverage.wf());
        if nodes[i].coverage.raw_end_exclusive > x {
            lemma_count_two(nodes, i, i + 1, x);
            assert(levels_cover_count(levels, x) <= 1);
        }
    }
}

// -- building a tree --------------------------------------------------------------------------

/// Of any two nodes, the ranges are apart or the one that is listed first by dominance covers the
/// other.
pub open spec fn nested_or_apart(sorted: Seq<NodeView>) -> bool {
    forall|i: int, j: int|
        0 <= i < j < sorted.len() ==> (#[trigger] sorted[i]).coverage.disjoint(
            (#[trigger] sorted[j]).coverage,
        ) || dominates(sorted[i], sorted[j])
}

proof fn lemma_undominated_members(nodes: Seq<NodeView>)
    requires
        nested_or_apart(nodes),
        nodes_wf(nodes),
    ensures
        nodes_wf(undominated(nodes)),
        forall|k: int|
            0 <= k < undominated(nodes).len() ==> exists|j: int|
                0 <= j < nodes.len() && #[trigger] undominated(nodes)[k] == #[trigger] nodes[j],
        forall|j: int|
            0 <= j < nodes.len() ==> undominated(nodes).contains(#[trigger] nodes[j])
                || dominated_by_any(undominated(nodes), nodes[j]),
    decreases nodes.len(),
{
    if nodes.len() > 0 {
        let rest = nodes.drop_last();
        assert(forall|j: int| 0 <= j < rest.len() ==> rest[j] == nodes[j]);
        lemma_undominated_members(rest);
        let kept = undominated(rest);
        let result = undominated(nodes);
        assert forall|k: int| 0 <= k < result.len() implies exists|j: int|
            0 <= j < nodes.len() && #[trigger] result[k] == #[trigger] nodes[j] by {
            if k < kept.len() {
                assert(result[k] == kept[k]);
                let j = choose|j: int| 0 <= j < rest.len() && kept[k] == #[trigger] rest[j];
                assert(nodes[j] == result[k]);
            } else {
                assert(nodes[nodes.len() - 1] == result[k]);
            }
        }
        assert forall|j: int| 0 <= j < nodes.len() implies result.contains(#[trigger] nodes[j])
            || dominated_by_any(result, nodes[j]) by {
            if j < rest.len() {
                assert(rest[j] == nodes[j]);
                if kept.contains(rest[j]) {
                    let k = choose|k: int| 0 <= k < kept.len() && kept[k] == rest[j];
                    assert(result[k] == rest[j]);
                } else {
                    let k = choose|k: int| 0 <= k < kept.len() && dominates(#[trigger] kept[k], rest[j]);
                    assert(dominates(result[k], nodes[j]));
                }
            } else if !dominated_by_any(kept, nodes.last()) {
                assert(result[result.len() - 1] == nodes.last());
            }
        }
    }
}

pub proof fn lemma_count_positive(nodes: Seq<NodeView>, x: int)
    ensures
        cover_count(nodes, x) > 0 <==> exists|k: int|
            0 <= k < nodes.len() && (#[trigger] nodes[k]).coverage.contains(x),
    decreases nodes.len(),
{
    if nodes.len() > 0 {
        let rest = nodes.drop_last();
        lemma_count_positive(rest, x);
        assert(forall|k: int| 0 <= k < rest.len() ==> rest[k] == nodes[k]);
        if cover_count(nodes, x) > 0 {
            if covers_index(nodes.last(), x) > 0 {
                assert(nodes[nodes.len() - 1].coverage.contains(x));
            } else {
                let k = choose|k: int| 0 <= k < rest.len() && (#[trigger] rest[k]).coverage.contains(x);
                assert(nodes[k].coverage.contains(x));
            }
        }
    }
}

/// Leaving out what a summary covers uncovers nothing, and leaves no raw index covered twice.
proof fn lemma_undominated_coverage(nodes: Seq<NodeView>, x: int)
    requires
        nested_or_apart(nodes),
        nodes_wf(nodes),
    ensures
        cover_count(undominated(nodes), x) == if cover_count(nodes, x) > 0 {
            1nat
        } else {
            0
        },
    decreases nodes.len(),
{
    if nodes.len() > 0 {
        let rest = nodes.drop_last();
        let last = nodes.last();
        let kept = undominated(rest);
        assert(forall|j: int| 0 <= j < rest.len() ==> rest[j] == nodes[j]);
        lemma_undominated_coverage(rest, x);
        lemma_undominated_members(rest);
        if dominated_by_any(kept, last) {
            let k = choose|k: int| 0 <= k < kept.len() && dominates(#[trigger] kept[k], last);
            if last.coverage.contains(x) {
                assert(kept[k].coverage.contains(x));
                lemma_count_positive(kept, x);
            }
        } else {
            lemma_count_push(kept, last, x);
            if last.coverage.contains(x) {
                if cover_count(rest, x) > 0 {
                    lemma_count_positive(kept, x);
                    let k = choose|k: int|
                        0 <= k < kept.len() && (#[trigger] kept[k]).coverage.contains(x);
                    let j = choose|j: int| 0 <= j < rest.len() && kept[k] == #[trigger] rest[j];
                    assert(nodes[j].coverage.disjoint(nodes[nodes.len() - 1].coverage) || dominates(
                        nodes[j],
                        nodes[nodes.len() - 1],
                    ));
                    assert(dominates(kept[k], last));
                    assert(dominated_by_any(kept, last));
                }
            }
        }
    }
}

proof fn lemma_at_level_wf(nodes: Seq<NodeView>, level: int)
    requires
        nodes_wf(nodes),
    ensures
        nodes_wf(at_level(nodes, level)),
    decreases nodes.len(),
{
    if nodes.len() > 0 {
        assert(nodes_wf(nodes.drop_last()));
        lemma_at_level_wf(nodes.drop_last(), level);
    }
}

/// The cover count of the first `n` levels that a list parts into.
proof fn lemma_parted_count(nodes: Seq<NodeView>, n: int, x: int)
    requires
        0 <= n,
    ensures
        levels_cover_count(Seq::new(n as nat, |l: int| at_level(nodes, l)), x) == cover_count(
            below_level(nodes, n),
            x,
        ),
    decreases n,
{
    let levels = Seq::new(n as nat, |l: int| at_level(nodes, l));
    if n == 0 {
        lemma_below_zero(nodes);
    } else {
        lemma_parted_count(nodes, n - 1, x);
        assert(levels.drop_last() =~= Seq::new((n - 1) as nat, |l: int| at_level(nodes, l)));
        lemma_below_step(nodes, n - 1, x);
    }
}

/// The nodes under a level, in the order in which they come.
spec fn below_level(nodes: Seq<NodeView>, level: int) -> Seq<NodeView>
    decreases nodes.len(),
{
    if nodes.len() == 0 {
        nodes
    } else if nodes.last().level < level {
        below_level(nodes.drop_last(), level).push(nodes.last())
    } else {
        below_level(nodes.drop_last(), level)
    }
}

proof fn lemma_below_zero(nodes: Seq<NodeView>)
    ensures
        below_level(nodes, 0) == Seq::<NodeView>::empty(),
    decreases nodes.len(),
{
    if nodes.len() > 0 {
        lemma_below_zero(nodes.drop_last());
    } else {
        assert(nodes =~= Seq::empty());
    }
}

proof fn lemma_below_step(nodes: Seq<NodeView>, level: int, x: int)
    ensures
        cover_count(below_level(nodes, level + 1), x) == cover_count(below_level(nodes, level), x)
            + cover_count(at_level(nodes, level), x),
    decreases nodes.len(),
{
    if nodes.len() > 0 {
        let rest = nodes.drop_last();
        lemma_below_step(rest, level, x);
        lemma_count_push(below_level(rest, level + 1), nodes.last(), x);
        lemma_count_push(below_level(rest, level), nodes.last(), x);
        lemma_count_push(at_level(rest, level), nodes.last(), x);
    }
}

proof fn lemma_below_depth(nodes: Seq<NodeView>, level: int)
    requires
        level >= depth(nodes),
    ensures
        below_level(nodes, level) == nodes,
    decreases nodes.len(),
{
    if nodes.len() > 0 {
        lemma_below_depth(nodes.drop_last(), level);
        assert(nodes.drop_last().push(nodes.last()) =~= nodes);
    }
}

pub proof fn lemma_levels_from_nodes(nodes: Seq<NodeView>, x: int)
    requires
        nodes_wf(nodes),
    ensures
        levels_wf(spec_levels_from_nodes(nodes)),
        nested_or_apart(stable_sort(NodeOrder::Dominance, nodes)) ==> levels_cover_count(
            spec_levels_from_nodes(nodes),
            x,
        ) == if cover_count(nodes, x) > 0 {
            1nat
        } else {
            0
        },
{
    let sorted = stable_sort(NodeOrder::Dominance, nodes);
    law_sort_keeps_coverage(NodeOrder::Dominance, nodes, x);
    let kept = undominated(sorted);
    lemma_undominated_wf(sorted);
    let levels = parted(kept);
    assert forall|l: int| 0 <= l < levels.len() implies nodes_wf(#[trigger] levels[l]) by {
        lemma_at_level_wf(kept, l);
    }
    lemma_levels_count_sorted_prefix(levels, levels.len() as int, x);
    if nested_or_apart(sorted) {
        lemma_undominated_coverage(sorted, x);
        lemma_parted_count(kept, depth(kept) as int, x);
        lemma_below_depth(kept, depth(kept) as int);
        assert(levels =~= Seq::new(depth(kept), |l: int| at_level(kept, l)));
    }
}

proof fn lemma_undominated_wf(nodes: Seq<NodeView>)
    requires
        nodes_wf(nodes),
    ensures
        nodes_wf(undominated(nodes)),
    decreases nodes.len(),
{
    if nodes.len() > 0 {
        assert(nodes_wf(nodes.drop_last()));
        lemma_undominated_wf(nodes.drop_last());
        assert(nodes[nodes.len() - 1].coverage.wf());
    }
}

/// Exact-once coverage: where summaries nest and raw groups do not overlap, every raw index that
/// a summary or a group covers is covered by exactly one visible node of the tree, every other
/// index by none, and each visible node ends before the next one starts.
pub proof fn law_exact_once_coverage(
    nodes: Seq<NodeView>,
    settings: PairwiseCompactionSettings,
    source: SummarySource,
)
    requires
        nodes_wf(nodes),
        nested_or_apart(stable_sort(NodeOrder::Dominance, nodes)),
    ensures
        ({
            let tree = compaction(spec_levels_from_nodes(nodes), 0, settings, source).0;
            &&& chained(visible(tree))
            &&& forall|x: int|
                #![trigger cover_count(visible(tree), x)]
                cover_count(visible(tree), x) == if cover_count(nodes, x) > 0 {
                    1nat
                } else {
                    0
                }
        }),
{
    let start = spec_levels_from_nodes(nodes);
    let tree = compaction(start, 0, settings, source).0;
    lemma_levels_from_nodes(nodes, 0);
    law_compaction_keeps_coverage(start, 0, settings, source, 0);
    assert forall|x: int| #[trigger] levels_cover_count(tree, x) == if cover_count(nodes, x) > 0 {
        1nat
    } else {
        0
    } by {
        lemma_levels_from_nodes(nodes, x);
        law_compaction_keeps_coverage(start, 0, settings, source, x);
    }
    law_single_coverage_is_chained(tree);
    assert forall|x: int| #![trigger cover_count(visible(tree), x)]
        cover_count(visible(tree), x) == if cover_count(nodes, x) > 0 {
            1nat
        } else {
            0
        } by {
        law_visible_keeps_coverage(tree, x);
        assert(levels_cover_count(tree, x) <= 1);
    }
}

// -- what a range and its nodes keep ----------------------------------------------------------

/// A range without an index.
pub open spec fn nothing() -> CoverageInterval {
    CoverageInterval { raw_start_index: 0, raw_end_exclusive: 0 }
}

/// The range lies as a whole under the node or outside it.
pub open spec fn uncut(node: NodeView, range: CoverageInterval) -> bool {
    node.coverage.spec_covers(range) || node.coverage.disjoint(range)
}

/// The node has a range, does not cut `range`, and is one of `given` where it is raw.
pub open spec fn stands(
    node: NodeView,
    given: Seq<NodeView>,
    range: CoverageInterval,
) -> bool {
    &&& node.coverage.wf()
    &&& uncut(node, range)
    &&& node.kind == PairwiseNodeKind::Raw ==> given.contains(node)
}

pub open spec fn nodes_stand(
    nodes: Seq<NodeView>,
    given: Seq<NodeView>,
    range: CoverageInterval,
) -> bool {
    forall|i: int| 0 <= i < nodes.len() ==> stands(#[trigger] nodes[i], given, range)
}

pub open spec fn levels_stand(
    levels: Seq<Seq<NodeView>>,
    given: Seq<NodeView>,
    range: CoverageInterval,
) -> bool {
    forall|l: int| 0 <= l < levels.len() ==> nodes_stand(#[trigger] levels[l], given, range)
}

pub proof fn lemma_sort_stands(
    order: NodeOrder,
    nodes: Seq<NodeView>,
    given: Seq<NodeView>,
    range: CoverageInterval,
)
    requires
        nodes_stand(nodes, given, range),
    ensures
        nodes_stand(stable_sort(order, nodes), given, range),
{
    let sorted = stable_sort(order, nodes);
    lemma_sort_members(order, nodes);
    assert forall|i: int| 0 <= i < sorted.len() implies stands(
        #[trigger] sorted[i],
        given,
        range,
    ) by {
        assert(nodes.contains(sorted[i]));
        let j = choose|j: int| 0 <= j < nodes.len() && nodes[j] == sorted[i];
        assert(stands(nodes[j], given, range));
    }
}

pub proof fn lemma_sorted_prefix_stands(
    levels: Seq<Seq<NodeView>>,
    count: int,
    given: Seq<NodeView>,
    range: CoverageInterval,
)
    requires
        levels_stand(levels, given, range),
    ensures
        levels_stand(sorted_prefix(levels, count), given, range),
{
    let sorted = sorted_prefix(levels, count);
    assert forall|l: int| 0 <= l < sorted.len() implies nodes_stand(
        #[trigger] sorted[l],
        given,
        range,
    ) by {
        assert(nodes_stand(levels[l], given, range));
        lemma_sort_stands(NodeOrder::Chronological, levels[l], given, range);
    }
}

pub proof fn lemma_fold_stands(
    levels: Seq<Seq<NodeView>>,
    level: int,
    at: int,
    settings: PairwiseCompactionSettings,
    given: Seq<NodeView>,
    range: CoverageInterval,
)
    requires
        levels_stand(levels, given, range),
        range.wf() || range == nothing(),
        0 <= level < levels.len(),
        level <= settings.max_summary_levels,
        0 <= at,
        at + 1 < levels[level].len(),
        touches(levels[level], at),
    ensures
        levels_stand(folded(levels, level, at, settings), given, range),
{
    let target = fold_target(level, settings);
    let all = grown(levels, target);
    let kept = levels[level].remove(at + 1).remove(at);
    let rest = all.update(level, kept);
    let asked = missing_summary(levels, level, at, settings);
    let node = synthetic_summary(asked.coverage, asked.level, asked.token_estimate);
    assert(nodes_stand(levels[level], given, range));
    assert(stands(levels[level][at], given, range));
    assert(stands(levels[level][at + 1], given, range));
    assert(stands(node, given, range));
    assert(nodes_stand(kept, given, range)) by {
        assert forall|i: int| 0 <= i < kept.len() implies stands(
            #[trigger] kept[i],
            given,
            range,
        ) by {
            assert(kept[i] == levels[level][if i < at {
                i
            } else {
                i + 2
            }]);
        }
    }
    let result = folded(levels, level, at, settings);
    assert forall|l: int| 0 <= l < rest.len() implies nodes_stand(
        #[trigger] rest[l],
        given,
        range,
    ) by {
        if l != level && l < levels.len() {
            assert(rest[l] == levels[l]);
        }
    }
    assert forall|l: int| 0 <= l < result.len() implies nodes_stand(
        #[trigger] result[l],
        given,
        range,
    ) by {
        assert(nodes_stand(rest[l], given, range));
    }
}

/// Folding cuts no range that the tree did not cut, and makes no raw node.
pub proof fn lemma_compaction_stands(
    levels: Seq<Seq<NodeView>>,
    level: int,
    settings: PairwiseCompactionSettings,
    source: SummarySource,
    given: Seq<NodeView>,
    range: CoverageInterval,
)
    requires
        levels_stand(levels, given, range),
        range.wf() || range == nothing(),
    ensures
        levels_stand(compaction(levels, level, settings, source).0, given, range),
    decreases total_nodes(levels), levels.len() - level,
{
    if 0 <= level < levels.len() {
        let sorted = levels.update(level, chronological(levels[level]));
        lemma_sorted_level_total(levels, level);
        assert(nodes_stand(levels[level], given, range));
        lemma_sort_stands(NodeOrder::Chronological, levels[level], given, range);
        assert forall|l: int| 0 <= l < sorted.len() implies nodes_stand(
            #[trigger] sorted[l],
            given,
            range,
        ) by {
            assert(nodes_stand(levels[l], given, range));
        }
        lemma_oldest_pair(sorted[level], 0);
        match due_pair(sorted[level], level, settings) {
            None => {
                lemma_compaction_stands(sorted, level + 1, settings, source, given, range);
            },
            Some(at) => {
                lemma_folded_shrinks(sorted, level, at, settings);
                match source {
                    SummarySource::Synthetic => {
                        lemma_fold_stands(sorted, level, at, settings, given, range);
                        let next = folded(sorted, level, at, settings);
                        lemma_compaction_stands(next, level, settings, source, given, range);
                    },
                    SummarySource::Required => {
                        let all = grown(sorted, fold_target(level, settings));
                        assert forall|l: int| 0 <= l < all.len() implies nodes_stand(
                            #[trigger] all[l],
                            given,
                            range,
                        ) by {
                            if l < sorted.len() {
                                assert(nodes_stand(sorted[l], given, range));
                            }
                        }
                    },
                }
            },
        }
    }
}

pub proof fn lemma_single_fold_stands(
    levels: Seq<Seq<NodeView>>,
    settings: PairwiseCompactionSettings,
    given: Seq<NodeView>,
    range: CoverageInterval,
)
    requires
        levels_stand(levels, given, range),
        range.wf() || range == nothing(),
    ensures
        levels_stand(
            single_fold(levels, settings, SummarySource::Synthetic).0,
            given,
            range,
        ),
{
    lemma_promotable_pair(levels, 0, settings);
    match promotable_pair(levels, 0, settings) {
        None => {
            lemma_sorted_prefix_stands(levels, settings.max_summary_levels + 1, given, range);
        },
        Some((level, at)) => {
            let sorted = sorted_prefix(levels, level + 1);
            lemma_sorted_prefix_stands(levels, level + 1, given, range);
            lemma_fold_stands(sorted, level, at, settings, given, range);
            let after = folded(sorted, level, at, settings);
            lemma_sorted_prefix_stands(after, after.len() as int, given, range);
        },
    }
}

proof fn lemma_all_nodes_stand(
    levels: Seq<Seq<NodeView>>,
    given: Seq<NodeView>,
    range: CoverageInterval,
)
    requires
        levels_stand(levels, given, range),
    ensures
        nodes_stand(all_nodes(levels), given, range),
    decreases levels.len(),
{
    if levels.len() > 0 {
        let rest = levels.drop_last();
        assert forall|l: int| 0 <= l < rest.len() implies nodes_stand(
            #[trigger] rest[l],
            given,
            range,
        ) by {
            assert(rest[l] == levels[l]);
        }
        lemma_all_nodes_stand(rest, given, range);
        assert(nodes_stand(levels[levels.len() - 1], given, range));
    }
}

pub proof fn lemma_visible_stands(
    levels: Seq<Seq<NodeView>>,
    given: Seq<NodeView>,
    range: CoverageInterval,
)
    requires
        levels_stand(levels, given, range),
    ensures
        nodes_stand(visible(levels), given, range),
{
    lemma_all_nodes_stand(levels, given, range);
    lemma_sort_stands(NodeOrder::ChronologicalByLevel, all_nodes(levels), given, range);
}

proof fn lemma_undominated_stands(
    nodes: Seq<NodeView>,
    given: Seq<NodeView>,
    range: CoverageInterval,
)
    requires
        nodes_stand(nodes, given, range),
    ensures
        nodes_stand(undominated(nodes), given, range),
    decreases nodes.len(),
{
    if nodes.len() > 0 {
        let rest = nodes.drop_last();
        assert(nodes_stand(rest, given, range)) by {
            assert(forall|i: int| 0 <= i < rest.len() ==> rest[i] == nodes[i]);
        }
        lemma_undominated_stands(rest, given, range);
        assert(stands(nodes[nodes.len() - 1], given, range));
    }
}

proof fn lemma_at_level_stands(
    nodes: Seq<NodeView>,
    level: int,
    given: Seq<NodeView>,
    range: CoverageInterval,
)
    requires
        nodes_stand(nodes, given, range),
    ensures
        nodes_stand(at_level(nodes, level), given, range),
    decreases nodes.len(),
{
    if nodes.len() > 0 {
        let rest = nodes.drop_last();
        assert(nodes_stand(rest, given, range)) by {
            assert(forall|i: int| 0 <= i < rest.len() ==> rest[i] == nodes[i]);
        }
        lemma_at_level_stands(rest, level, given, range);
        assert(stands(nodes[nodes.len() - 1], given, range));
    }
}

/// A tree cuts the range of none of its raw nodes, and its raw nodes are given ones.
pub proof fn lemma_built_tree_stands(nodes: Seq<NodeView>, raw: int)
    requires
        nodes_wf(nodes),
        nested_or_apart(stable_sort(NodeOrder::Dominance, nodes)),
        0 <= raw < nodes.len(),
        nodes[raw].kind == PairwiseNodeKind::Raw,
    ensures
        levels_stand(spec_levels_from_nodes(nodes), nodes, nodes[raw].coverage),
{
    let range = nodes[raw].coverage;
    let sorted = stable_sort(NodeOrder::Dominance, nodes);
    lemma_sort_members(NodeOrder::Dominance, nodes);
    assert(sorted.contains(nodes[raw]));
    let at = choose|at: int| 0 <= at < sorted.len() && sorted[at] == nodes[raw];
    assert forall|i: int| 0 <= i < sorted.len() implies stands(
        #[trigger] sorted[i],
        nodes,
        range,
    ) by {
        assert(nodes.contains(sorted[i]));
        let j = choose|j: int| 0 <= j < nodes.len() && nodes[j] == sorted[i];
        assert(nodes[j].coverage.wf());
        if i < at {
            assert(sorted[i].coverage.disjoint(sorted[at].coverage) || dominates(
                sorted[i],
                sorted[at],
            ));
        } else if i > at {
            assert(sorted[at].coverage.disjoint(sorted[i].coverage) || dominates(
                sorted[at],
                sorted[i],
            ));
        }
    }
    lemma_levels_stand(nodes, range);
}

proof fn lemma_levels_stand(nodes: Seq<NodeView>, range: CoverageInterval)
    requires
        nodes_stand(stable_sort(NodeOrder::Dominance, nodes), nodes, range),
    ensures
        levels_stand(spec_levels_from_nodes(nodes), nodes, range),
{
    let sorted = stable_sort(NodeOrder::Dominance, nodes);
    lemma_undominated_stands(sorted, nodes, range);
    let kept = undominated(sorted);
    let levels = parted(kept);
    assert forall|l: int| 0 <= l < levels.len() implies nodes_stand(
        #[trigger] levels[l],
        nodes,
        range,
    ) by {
        lemma_at_level_stands(kept, l, nodes, range);
    }
    lemma_sorted_prefix_stands(levels, levels.len() as int, nodes, range);
}

/// The nodes of a tree have a range each, and its raw nodes are given ones.
pub proof fn lemma_tree_cuts_nothing(nodes: Seq<NodeView>)
    requires
        nodes_wf(nodes),
    ensures
        levels_stand(spec_levels_from_nodes(nodes), nodes, nothing()),
{
    let sorted = stable_sort(NodeOrder::Dominance, nodes);
    lemma_sort_members(NodeOrder::Dominance, nodes);
    assert forall|i: int| 0 <= i < sorted.len() implies stands(
        #[trigger] sorted[i],
        nodes,
        nothing(),
    ) by {
        assert(nodes.contains(sorted[i]));
        let j = choose|j: int| 0 <= j < nodes.len() && nodes[j] == sorted[i];
        assert(nodes[j].coverage.wf());
    }
    lemma_levels_stand(nodes, nothing());
}

/// A range that no node cuts and whose first index is covered once lies under one node, apart
/// from all others.
pub proof fn lemma_covered_once(
    nodes: Seq<NodeView>,
    given: Seq<NodeView>,
    range: CoverageInterval,
) -> (at: int)
    requires
        nodes_stand(nodes, given, range),
        range.wf(),
        cover_count(nodes, range.raw_start_index as int) == 1,
    ensures
        0 <= at < nodes.len(),
        nodes[at].coverage.spec_covers(range),
        forall|j: int|
            0 <= j < nodes.len() && j != at ==> (#[trigger] nodes[j]).coverage.disjoint(range),
{
    let x = range.raw_start_index as int;
    lemma_count_positive(nodes, x);
    let at = choose|k: int| 0 <= k < nodes.len() && (#[trigger] nodes[k]).coverage.contains(x);
    assert(stands(nodes[at], given, range));
    assert forall|j: int| 0 <= j < nodes.len() && j != at implies (
    #[trigger] nodes[j]).coverage.disjoint(range) by {
        assert(stands(nodes[j], given, range));
        if nodes[j].coverage.spec_covers(range) {
            if j < at {
                lemma_count_two(nodes, j, at, x);
            } else {
                lemma_count_two(nodes, at, j, x);
            }
        }
    }
    at
}

/// Sorting keeps the entries.
pub proof fn lemma_sort_members(order: NodeOrder, s: Seq<NodeView>)
    ensures
        forall|i: int|
            0 <= i < stable_sort(order, s).len() ==> s.contains(#[trigger] stable_sort(order, s)[i]),
        forall|i: int| 0 <= i < s.len() ==> stable_sort(order, s).contains(#[trigger] s[i]),
{
    broadcast use vstd::seq_lib::group_to_multiset_ensures;

    law_sort_is_stable(order, s);
    let sorted = stable_sort(order, s);
    assert forall|i: int| 0 <= i < sorted.len() implies s.contains(#[trigger] sorted[i]) by {
        assert(sorted.contains(sorted[i]));
        assert(sorted.to_multiset().count(sorted[i]) > 0);
    }
    assert forall|i: int| 0 <= i < s.len() implies sorted.contains(#[trigger] s[i]) by {
        assert(s.contains(s[i]));
        assert(s.to_multiset().count(s[i]) > 0);
    }
}

// -- when folding is over ---------------------------------------------------------------------

/// The level is at or under the threshold, lies above the highest level, or holds no pair.
pub open spec fn settled(
    level: Seq<NodeView>,
    index: int,
    settings: PairwiseCompactionSettings,
) -> bool {
    due_pair(level, index, settings) is None
}

/// After a complete fold no level has a pair to fold.
pub proof fn law_compaction_settles(
    levels: Seq<Seq<NodeView>>,
    level: int,
    settings: PairwiseCompactionSettings,
    source: SummarySource,
)
    requires
        0 <= level <= levels.len(),
        compaction(levels, level, settings, source).1 is None,
        forall|l: int| 0 <= l < level ==> settled(#[trigger] levels[l], l, settings),
    ensures
        forall|l: int|
            0 <= l < compaction(levels, level, settings, source).0.len() ==> settled(
                #[trigger] compaction(levels, level, settings, source).0[l],
                l,
                settings,
            ),
    decreases total_nodes(levels), levels.len() - level,
{
    if level < levels.len() {
        let sorted = levels.update(level, chronological(levels[level]));
        lemma_sorted_level_total(levels, level);
        lemma_oldest_pair(sorted[level], 0);
        assert forall|l: int| 0 <= l < level implies settled(#[trigger] sorted[l], l, settings) by {
            assert(sorted[l] == levels[l]);
        }
        match due_pair(sorted[level], level, settings) {
            None => {
                law_compaction_settles(sorted, level + 1, settings, source);
            },
            Some(at) => {
                lemma_folded_shrinks(sorted, level, at, settings);
                let next = folded(sorted, level, at, settings);
                assert forall|l: int| 0 <= l < level implies settled(#[trigger] next[l], l, settings) by {
                    assert(next[l] == sorted[l]);
                }
                law_compaction_settles(next, level, settings, source);
            },
        }
    }
}

/// Folding with made-up summaries never stops for a missing one.
pub proof fn lemma_synthetic_compaction_completes(
    levels: Seq<Seq<NodeView>>,
    level: int,
    settings: PairwiseCompactionSettings,
)
    ensures
        compaction(levels, level, settings, SummarySource::Synthetic).1 is None,
    decreases total_nodes(levels), levels.len() - level,
{
    if 0 <= level < levels.len() {
        let sorted = levels.update(level, chronological(levels[level]));
        lemma_sorted_level_total(levels, level);
        lemma_oldest_pair(sorted[level], 0);
        match due_pair(sorted[level], level, settings) {
            None => {
                lemma_synthetic_compaction_completes(sorted, level + 1, settings);
            },
            Some(at) => {
                lemma_folded_shrinks(sorted, level, at, settings);
                lemma_synthetic_compaction_completes(
                    folded(sorted, level, at, settings),
                    level,
                    settings,
                );
            },
        }
    }
}

/// Where no summary is missing, nothing is folded: the levels are only put in order, and made-up
/// summaries would give the same tree.
pub proof fn law_complete_tree_needs_no_fold(
    levels: Seq<Seq<NodeView>>,
    level: int,
    settings: PairwiseCompactionSettings,
)
    requires
        0 <= level <= levels.len(),
        compaction(levels, level, settings, SummarySource::Required).1 is None,
    ensures
        compaction(levels, level, settings, SummarySource::Required).0 == Seq::new(
            levels.len(),
            |l: int|
                if l < level {
                    levels[l]
                } else {
                    chronological(levels[l])
                },
        ),
        compaction(levels, level, settings, SummarySource::Synthetic) == compaction(
            levels,
            level,
            settings,
            SummarySource::Required,
        ),
    decreases total_nodes(levels), levels.len() - level,
{
    let expected = Seq::new(
        levels.len(),
        |l: int|
            if l < level {
                levels[l]
            } else {
                chronological(levels[l])
            },
    );
    if level < levels.len() {
        let sorted = levels.update(level, chronological(levels[level]));
        lemma_sorted_level_total(levels, level);
        law_complete_tree_needs_no_fold(sorted, level + 1, settings);
        assert(compaction(sorted, level + 1, settings, SummarySource::Required).0 =~= expected);
    } else {
        assert(levels =~= expected);
    }
}

/// A summary that was asked for dominates the pair it stands for, so that a tree built with it
/// shows neither of the two.
pub proof fn law_supplied_summary_dominates_its_pair(
    levels: Seq<Seq<NodeView>>,
    level: int,
    at: int,
    settings: PairwiseCompactionSettings,
    supplied: NodeView,
)
    requires
        0 <= level < levels.len(),
        level <= settings.max_summary_levels,
        0 <= at,
        at + 1 < levels[level].len(),
        levels_wf(levels),
        touches(levels[level], at),
        levels[level][at].level == level,
        levels[level][at + 1].level == level,
        supplied.kind == PairwiseNodeKind::Summary,
        supplied.level == missing_summary(levels, level, at, settings).level,
        supplied.coverage == missing_summary(levels, level, at, settings).coverage,
    ensures
        dominates(supplied, levels[level][at]),
        dominates(supplied, levels[level][at + 1]),
        supplied.coverage.wf(),
{
    assert(nodes_wf(levels[level]));
    assert(levels[level][at].coverage.wf());
    assert(levels[level][at + 1].coverage.wf());
}

// -- sorting keeps the nodes and the order of equal ones --------------------------------------

/// The nodes may stand in either order.
pub open spec fn same_place(order: NodeOrder, a: NodeView, b: NodeView) -> bool {
    in_order(order, a, b) && in_order(order, b, a)
}

/// The nodes that share the place of `like`, in the order in which they come.
pub open spec fn alike(order: NodeOrder, s: Seq<NodeView>, like: NodeView) -> Seq<NodeView>
    decreases s.len(),
{
    if s.len() == 0 {
        Seq::empty()
    } else {
        let before = alike(order, s.drop_last(), like);
        if same_place(order, s.last(), like) {
            before.push(s.last())
        } else {
            before
        }
    }
}

/// Nodes that share a place in the one order share it in the other.
spec fn refines(fine: NodeOrder, coarse: NodeOrder) -> bool {
    fine == coarse || (fine == NodeOrder::ChronologicalByLevel && coarse
        == NodeOrder::Chronological)
}

proof fn lemma_alike_push(order: NodeOrder, s: Seq<NodeView>, node: NodeView, like: NodeView)
    ensures
        alike(order, s.push(node), like) == if same_place(order, node, like) {
            alike(order, s, like).push(node)
        } else {
            alike(order, s, like)
        },
{
    assert(s.push(node).drop_last() =~= s);
}

proof fn lemma_insert_keeps_alike(
    order: NodeOrder,
    fine: NodeOrder,
    s: Seq<NodeView>,
    node: NodeView,
    like: NodeView,
)
    requires
        refines(fine, order),
    ensures
        alike(fine, insert_stable(order, s, node), like) == if same_place(fine, node, like) {
            alike(fine, s, like).push(node)
        } else {
            alike(fine, s, like)
        },
    decreases s.len(),
{
    if s.len() == 0 || in_order(order, s.last(), node) {
        lemma_alike_push(fine, s, node, like);
    } else {
        // A node that must stand behind the new one does not share its place.
        assert(!(same_place(fine, s.last(), like) && same_place(fine, node, like)));
        lemma_insert_keeps_alike(order, fine, s.drop_last(), node, like);
        lemma_alike_push(fine, insert_stable(order, s.drop_last(), node), s.last(), like);
    }
}

proof fn lemma_sort_keeps_alike(
    order: NodeOrder,
    fine: NodeOrder,
    s: Seq<NodeView>,
    like: NodeView,
)
    requires
        refines(fine, order),
    ensures
        alike(fine, stable_sort(order, s), like) == alike(fine, s, like),
    decreases s.len(),
{
    if s.len() > 0 {
        lemma_sort_keeps_alike(order, fine, s.drop_last(), like);
        lemma_insert_keeps_alike(
            order,
            fine,
            stable_sort(order, s.drop_last()),
            s.last(),
            like,
        );
    }
}

proof fn lemma_insert_keeps_nodes(order: NodeOrder, s: Seq<NodeView>, node: NodeView)
    ensures
        insert_stable(order, s, node).to_multiset() == s.to_multiset().insert(node),
    decreases s.len(),
{
    broadcast use vstd::seq_lib::group_to_multiset_ensures;

    if s.len() > 0 && !in_order(order, s.last(), node) {
        lemma_insert_keeps_nodes(order, s.drop_last(), node);
        assert(s =~= s.drop_last().push(s.last()));
        assert(insert_stable(order, s, node).to_multiset() =~= s.to_multiset().insert(node));
    }
}

/// Sorting keeps every node, and nodes that share a place stay in the order in which they came.
pub proof fn law_sort_is_stable(order: NodeOrder, s: Seq<NodeView>)
    ensures
        stable_sort(order, s).to_multiset() == s.to_multiset(),
        forall|like: NodeView| #[trigger]
            alike(order, stable_sort(order, s), like) == alike(order, s, like),
    decreases s.len(),
{
    broadcast use vstd::seq_lib::group_to_multiset_ensures;

    if s.len() > 0 {
        law_sort_is_stable(order, s.drop_last());
        lemma_insert_keeps_nodes(order, stable_sort(order, s.drop_last()), s.last());
        assert(s =~= s.drop_last().push(s.last()));
    }
    assert forall|like: NodeView| #[trigger]
        alike(order, stable_sort(order, s), like) == alike(order, s, like) by {
        lemma_sort_keeps_alike(order, order, s, like);
    }
}

// -- folds that do not take place -------------------------------------------------------------

/// The lists hold the same nodes at every place, each in the same order.
spec fn same_places(order: NodeOrder, a: Seq<NodeView>, b: Seq<NodeView>) -> bool {
    forall|like: NodeView| #[trigger] alike(order, a, like) == alike(order, b, like)
}

proof fn lemma_alike_member(order: NodeOrder, s: Seq<NodeView>, like: NodeView)
    ensures
        alike(order, s, like).len() > 0 ==> exists|k: int|
            0 <= k < s.len() && same_place(order, #[trigger] s[k], like),
    decreases s.len(),
{
    if s.len() > 0 {
        lemma_alike_member(order, s.drop_last(), like);
        if same_place(order, s.last(), like) {
            assert(same_place(order, s[s.len() - 1], like));
        } else if alike(order, s, like).len() > 0 {
            let k = choose|k: int|
                0 <= k < s.drop_last().len() && same_place(order, #[trigger] s.drop_last()[k], like);
            assert(same_place(order, s[k], like));
        }
    }
}

proof fn lemma_sorted_is_unique(order: NodeOrder, a: Seq<NodeView>, b: Seq<NodeView>)
    requires
        sorted_by_order(order, a),
        sorted_by_order(order, b),
        same_places(order, a, b),
    ensures
        a == b,
    decreases a.len(),
{
    if a.len() == 0 {
        if b.len() > 0 {
            assert(same_place(order, b.last(), b.last()));
            assert(alike(order, a, b.last()) == alike(order, b, b.last()));
        }
        assert(a =~= b);
    } else {
        let last = a.last();
        assert(same_place(order, last, last));
        assert(alike(order, a, last) == alike(order, b, last));
        lemma_alike_member(order, b, last);
        assert(b.len() > 0);
        let other = b.last();
        assert(same_place(order, other, other));
        assert(alike(order, a, other) == alike(order, b, other));
        lemma_alike_member(order, a, other);
        let k = choose|k: int| 0 <= k < b.len() && same_place(order, #[trigger] b[k], last);
        let m = choose|m: int| 0 <= m < a.len() && same_place(order, #[trigger] a[m], other);
        // Each of the two comes no later than the other.
        if k < b.len() - 1 {
            assert(in_order(order, b[k], b[b.len() - 1]));
        }
        if m < a.len() - 1 {
            assert(in_order(order, a[m], a[a.len() - 1]));
        }
        assert(same_place(order, other, last));
        assert(alike(order, a, last).last() == last);
        assert(alike(order, b, last).last() == other);
        assert(last == other);
        let fewer_a = a.drop_last();
        let fewer_b = b.drop_last();
        assert forall|like: NodeView| #[trigger]
            alike(order, fewer_a, like) == alike(order, fewer_b, like) by {
            assert(alike(order, a, like) == alike(order, b, like));
            if same_place(order, last, like) {
                assert(alike(order, a, like).drop_last() =~= alike(order, fewer_a, like));
                assert(alike(order, b, like).drop_last() =~= alike(order, fewer_b, like));
            }
        }
        assert forall|i: int, j: int| 0 <= i < j < fewer_a.len() implies in_order(
            order,
            #[trigger] fewer_a[i],
            #[trigger] fewer_a[j],
        ) by {
            assert(in_order(order, a[i], a[j]));
        }
        assert forall|i: int, j: int| 0 <= i < j < fewer_b.len() implies in_order(
            order,
            #[trigger] fewer_b[i],
            #[trigger] fewer_b[j],
        ) by {
            assert(in_order(order, b[i], b[j]));
        }
        lemma_sorted_is_unique(order, fewer_a, fewer_b);
        assert(a =~= fewer_a.push(last));
        assert(b =~= fewer_b.push(other));
    }
}

proof fn lemma_alike_concat(order: NodeOrder, a: Seq<NodeView>, b: Seq<NodeView>, like: NodeView)
    ensures
        alike(order, a + b, like) == alike(order, a, like) + alike(order, b, like),
    decreases b.len(),
{
    if b.len() == 0 {
        assert(a + b =~= a);
        assert(alike(order, a, like) + alike(order, b, like) =~= alike(order, a, like));
    } else {
        assert((a + b).drop_last() =~= a + b.drop_last());
        lemma_alike_concat(order, a, b.drop_last(), like);
        assert(alike(order, a + b, like) =~= alike(order, a, like) + alike(order, b, like));
    }
}

/// Each level is the same or was put in chronological order.
spec fn only_sorted(before: Seq<Seq<NodeView>>, after: Seq<Seq<NodeView>>) -> bool {
    &&& before.len() == after.len()
    &&& forall|l: int|
        0 <= l < before.len() ==> (#[trigger] after[l] == before[l] || after[l] == chronological(
            before[l],
        ))
}

proof fn lemma_only_sorted_alike(
    before: Seq<Seq<NodeView>>,
    after: Seq<Seq<NodeView>>,
    like: NodeView,
)
    requires
        only_sorted(before, after),
    ensures
        alike(NodeOrder::ChronologicalByLevel, all_nodes(after), like) == alike(
            NodeOrder::ChronologicalByLevel,
            all_nodes(before),
            like,
        ),
    decreases before.len(),
{
    let fine = NodeOrder::ChronologicalByLevel;
    if before.len() > 0 {
        let b = before.drop_last();
        let a = after.drop_last();
        assert forall|l: int| 0 <= l < b.len() implies (#[trigger] a[l] == b[l] || a[l]
            == chronological(b[l])) by {
            assert(after[l] == a[l]);
        }
        lemma_only_sorted_alike(b, a, like);
        lemma_alike_concat(fine, all_nodes(b), before.last(), like);
        lemma_alike_concat(fine, all_nodes(a), after.last(), like);
        assert(after[before.len() - 1] == after.last());
        lemma_sort_keeps_alike(NodeOrder::Chronological, fine, before.last(), like);
    }
}

proof fn lemma_only_sorted_visible(before: Seq<Seq<NodeView>>, after: Seq<Seq<NodeView>>)
    requires
        only_sorted(before, after),
    ensures
        visible(after) == visible(before),
{
    let fine = NodeOrder::ChronologicalByLevel;
    law_sort_orders(fine, all_nodes(before));
    law_sort_orders(fine, all_nodes(after));
    assert forall|like: NodeView| #[trigger]
        alike(fine, visible(after), like) == alike(fine, visible(before), like) by {
        lemma_sort_keeps_alike(fine, fine, all_nodes(before), like);
        lemma_sort_keeps_alike(fine, fine, all_nodes(after), like);
        lemma_only_sorted_alike(before, after, like);
    }
    lemma_sorted_is_unique(fine, visible(after), visible(before));
}

proof fn lemma_grown_visible(levels: Seq<Seq<NodeView>>, target: int)
    ensures
        visible(grown(levels, target)) == visible(levels),
{
    if levels.len() <= target {
        let all = levels.push(Seq::empty());
        assert(all.drop_last() =~= levels);
        assert(all_nodes(all) =~= all_nodes(levels));
    }
}

/// A fold that does not take place, because a summary is missing or there is no pair, leaves the
/// visible nodes as they were.
pub proof fn law_refused_fold_changes_nothing_visible(
    levels: Seq<Seq<NodeView>>,
    settings: PairwiseCompactionSettings,
)
    ensures
        visible(single_fold(levels, settings, SummarySource::Required).0) == visible(levels),
        !single_fold(levels, settings, SummarySource::Synthetic).1 ==> visible(
            single_fold(levels, settings, SummarySource::Synthetic).0,
        ) == visible(levels),
{
    match promotable_pair(levels, 0, settings) {
        None => {
            lemma_only_sorted_visible(
                levels,
                sorted_prefix(levels, settings.max_summary_levels + 1),
            );
        },
        Some((level, at)) => {
            let sorted = sorted_prefix(levels, level + 1);
            lemma_only_sorted_visible(levels, sorted);
            lemma_grown_visible(sorted, fold_target(level, settings));
        },
    }
}

/// Where summaries must be supplied, compaction itself never changes what is visible.
pub proof fn law_required_compaction_changes_nothing_visible(
    levels: Seq<Seq<NodeView>>,
    level: int,
    settings: PairwiseCompactionSettings,
)
    ensures
        visible(compaction(levels, level, settings, SummarySource::Required).0) == visible(levels),
    decreases total_nodes(levels), levels.len() - level,
{
    if 0 <= level < levels.len() {
        let sorted = levels.update(level, chronological(levels[level]));
        lemma_sorted_level_total(levels, level);
        lemma_only_sorted_visible(levels, sorted);
        match due_pair(sorted[level], level, settings) {
            None => {
                law_required_compaction_changes_nothing_visible(sorted, level + 1, settings);
            },
            Some(at) => {
                lemma_grown_visible(sorted, fold_target(level, settings));
            },
        }
    }
}

// -- levels in order --------------------------------------------------------------------------

/// The nodes of a level come in chronological order.
pub open spec fn level_in_order(level: Seq<NodeView>) -> bool {
    sorted_by_order(NodeOrder::Chronological, level)
}

/// The levels that a list of nodes makes are in chronological order.
pub proof fn law_built_levels_are_in_order(nodes: Seq<NodeView>)
    ensures
        forall|l: int|
            0 <= l < spec_levels_from_nodes(nodes).len() ==> level_in_order(
                #[trigger] spec_levels_from_nodes(nodes)[l],
            ),
{
    let levels = parted(undominated(stable_sort(NodeOrder::Dominance, nodes)));
    let done = spec_levels_from_nodes(nodes);
    assert forall|l: int| 0 <= l < done.len() implies level_in_order(#[trigger] done[l]) by {
        law_sort_orders(NodeOrder::Chronological, levels[l]);
    }
}

/// A compaction that comes to its end leaves every level in chronological order.
pub proof fn law_compacted_levels_are_in_order(
    levels: Seq<Seq<NodeView>>,
    level: int,
    settings: PairwiseCompactionSettings,
    source: SummarySource,
)
    requires
        0 <= level <= levels.len(),
        compaction(levels, level, settings, source).1 is None,
        forall|l: int| 0 <= l < level ==> level_in_order(#[trigger] levels[l]),
    ensures
        forall|l: int|
            0 <= l < compaction(levels, level, settings, source).0.len() ==> level_in_order(
                #[trigger] compaction(levels, level, settings, source).0[l],
            ),
    decreases total_nodes(levels), levels.len() - level,
{
    if level < levels.len() {
        let sorted = levels.update(level, chronological(levels[level]));
        lemma_sorted_level_total(levels, level);
        law_sort_orders(NodeOrder::Chronological, levels[level]);
        lemma_oldest_pair(sorted[level], 0);
        match due_pair(sorted[level], level, settings) {
            None => {
                assert forall|l: int| 0 <= l < level + 1 implies level_in_order(
                    #[trigger] sorted[l],
                ) by {
                    if l < level {
                        assert(sorted[l] == levels[l]);
                    }
                }
                assert(compaction(levels, level, settings, source) == compaction(
                    sorted,
                    level + 1,
                    settings,
                    source,
                ));
                law_compacted_levels_are_in_order(sorted, level + 1, settings, source);
            },
            Some(at) => {
                assert(source == SummarySource::Synthetic);
                lemma_folded_shrinks(sorted, level, at, settings);
                let next = folded(sorted, level, at, settings);
                assert(compaction(levels, level, settings, source) == compaction(
                    next,
                    level,
                    settings,
                    source,
                ));
                assert forall|l: int| 0 <= l < level implies level_in_order(#[trigger] next[l]) by {
                    assert(next[l] == sorted[l]);
                    assert(sorted[l] == levels[l]);
                }
                law_compacted_levels_are_in_order(next, level, settings, source);
            },
        }
    } else {
        assert(compaction(levels, level, settings, source).0 == levels);
    }
}

/// A fold with a placeholder summary leaves every level in chronological order.
pub proof fn law_folded_levels_are_in_order(
    levels: Seq<Seq<NodeView>>,
    settings: PairwiseCompactionSettings,
)
    requires
        single_fold(levels, settings, SummarySource::Synthetic).1,
    ensures
        forall|l: int|
            0 <= l < single_fold(levels, settings, SummarySource::Synthetic).0.len()
                ==> level_in_order(
                #[trigger] single_fold(levels, settings, SummarySource::Synthetic).0[l],
            ),
{
    let (level, at) = promotable_pair(levels, 0, settings)->Some_0;
    let sorted = sorted_prefix(levels, level + 1);
    let after = folded(sorted, level, at, settings);
    let done = sorted_prefix(after, after.len() as int);
    assert forall|l: int| 0 <= l < done.len() implies level_in_order(#[trigger] done[l]) by {
        law_sort_orders(NodeOrder::Chronological, after[l]);
    }
}

} // verus!
