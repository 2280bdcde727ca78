//! What holds of every exact-tail compaction.

use crate::compact::InitialContextInjection;
use crate::exact_tail_groups::{
    dependent, eligible, group_at, lemma_segment_end, segment_end, segments_from, stale,
    stale_indices, tail_groups, tied, TailGroupView,
};
use crate::exact_tail_plan::{
    cold_reserve, exact_tail_plan, holds_summary, hot_groups, hot_walk, items_of, lemma_hot_walk,
    prior_summary, ExactTailPlanInput,
};
use crate::exact_tail_replacement::{
    ends_with_items, replacement, replacement_fit, replacement_outcome, PreparedView,
};
use crate::item::ItemView;
use crate::session_model::{saturating, total_tokens, SessionModel};
use vstd::prelude::*;

verus! {

// -- groups make up the history ---------------------------------------------------------------

/// The segments from `start` on follow one another without a gap, to the end.
pub proof fn lemma_segments_chain(items: Seq<ItemView>, start: int)
    requires
        0 <= start <= items.len(),
    ensures
        ({
            let segments = segments_from(items, start);
            &&& segments.len() == 0 <==> start == items.len()
            &&& segments.len() > 0 ==> segments[0].0 == start && segments.last().1 == items.len()
                - 1
            &&& forall|k: int|
                0 <= k < segments.len() ==> start <= (#[trigger] segments[k]).0 <= segments[k].1
                    && segments[k].1 < items.len()
            &&& forall|k: int|
                0 <= k && k + 1 < segments.len() ==> next_starts(segments, k)
            &&& forall|k: int|
                0 <= k && k + 1 < segments.len() ==> !tied(items, (#[trigger] segments[k]).1)
        }),
    decreases items.len() - start,
{
    let segments = segments_from(items, start);
    if start < items.len() {
        lemma_segment_end(items, start);
        let end = segment_end(items, start);
        lemma_segments_chain(items, end + 1);
        let rest = segments_from(items, end + 1);
        assert(segments == seq![(start, end)] + rest);
        assert forall|k: int| 0 <= k < segments.len() implies start <= (#[trigger] segments[k]).0
            <= segments[k].1 && segments[k].1 < items.len() by {
            if k > 0 {
                assert(segments[k] == rest[k - 1]);
            }
        }
        assert forall|k: int| 0 <= k && k + 1 < segments.len() implies next_starts(segments, k) by {
            if k > 0 {
                assert(next_starts(rest, k - 1));
                assert(segments[k] == rest[k - 1]);
                assert(segments[k + 1] == rest[k]);
            } else {
                assert(segments[1] == rest[0]);
            }
        }
        assert forall|k: int| 0 <= k && k + 1 < segments.len() implies !tied(
            items,
            (#[trigger] segments[k]).1,
        ) by {
            if k > 0 {
                assert(segments[k] == rest[k - 1]);
            } else {
                assert(end + 1 < items.len());
            }
        }
        if rest.len() > 0 {
            assert(segments.last() == rest.last());
        } else {
            assert(segments.last() == (start, end));
        }
    }
}

/// The next segment starts right behind this one.
pub open spec fn next_starts(segments: Seq<(int, int)>, k: int) -> bool {
    segments[k + 1].0 == segments[k].1 + 1
}

/// The items of the first `count` groups are the first items that take part.
pub proof fn lemma_first_groups<M: SessionModel>(model: M, history: Seq<ItemView>, count: int)
    requires
        0 <= count <= tail_groups(model, history).len(),
    ensures
        ({
            let items = eligible(model, history);
            let groups = tail_groups(model, history);
            let cut = first_item_of(model, history, count);
            &&& 0 <= cut <= items.len()
            &&& items_of(groups, 0, count) == items.subrange(0, cut)
        }),
    decreases count,
{
    let items = eligible(model, history);
    let groups = tail_groups(model, history);
    let segments = segments_from(items, 0);
    lemma_segments_chain(items, 0);
    if count == 0 {
        assert(items_of(groups, 0, 0) =~= items.subrange(0, 0));
        assert(first_item_of(model, history, 0) == 0);
    } else {
        lemma_first_groups(model, history, count - 1);
        let before = first_item_of(model, history, count - 1);
        let after = first_item_of(model, history, count);
        assert(segments[count - 1].0 <= segments[count - 1].1);
        assert(groups[count - 1] == group_at(model, items, segments, count - 1));
        if count < segments.len() {
            assert(next_starts(segments, count - 1));
        }
        assert(before == segments[count - 1].0);
        assert(after == segments[count - 1].1 + 1);
        assert(items.subrange(0, before) + items.subrange(before, after) =~= items.subrange(
            0,
            after,
        ));
    }
}

/// The first item of the group at `count`, or the end.
pub open spec fn first_item_of<M: SessionModel>(
    model: M,
    history: Seq<ItemView>,
    count: int,
) -> int {
    let items = eligible(model, history);
    let segments = segments_from(items, 0);
    if count < segments.len() {
        segments[count].0
    } else {
        items.len() as int
    }
}

pub proof fn lemma_items_of_split(groups: Seq<TailGroupView>, from: int, mid: int, to: int)
    requires
        0 <= from <= mid <= to <= groups.len(),
    ensures
        items_of(groups, from, to) == items_of(groups, from, mid) + items_of(groups, mid, to),
    decreases to - mid,
{
    if mid == to {
        assert(items_of(groups, from, mid) + items_of(groups, mid, to) =~= items_of(
            groups,
            from,
            mid,
        ));
    } else {
        lemma_items_of_split(groups, from, mid, to - 1);
        assert(items_of(groups, from, to) =~= items_of(groups, from, mid) + items_of(
            groups,
            mid,
            to,
        ));
    }
}

/// A plan loses nothing and reorders nothing: what is summarised and what stays exact, one behind
/// the other, are the items of the history that are not stale context.
pub proof fn law_plan_parts_the_history<M: SessionModel>(
    model: M,
    history: Seq<ItemView>,
    input: ExactTailPlanInput,
)
    ensures
        match exact_tail_plan(model, history, input) {
            Ok(plan) => plan.cold_history + plan.hot_suffix == eligible(model, history),
            Err(_) => true,
        },
{
    if let Ok(plan) = exact_tail_plan(model, history, input) {
        let groups = tail_groups(model, history);
        let len = groups.len() as int;
        let start = hot_groups(model, groups, input.target_tokens).0;
        lemma_hot_walk(
            model,
            groups,
            len,
            0,
            cold_reserve(model, groups).max_hot_group_count as int,
            input.target_tokens,
        );
        lemma_items_of_split(groups, 0, start, len);
        lemma_first_groups(model, history, len);
        let items = eligible(model, history);
        assert(items.subrange(0, items.len() as int) =~= items);
    }
}

/// What a plan leaves out is stale context, and every item of it.
pub proof fn law_only_stale_context_is_left_out<M: SessionModel>(model: M, history: Seq<ItemView>)
    ensures
        eligible(model, history).len() + stale_indices(model, history).len() == history.len(),
        forall|k: int|
            0 <= k < eligible(model, history).len() ==> !stale(
                model,
                #[trigger] eligible(model, history)[k],
            ),
    decreases history.len(),
{
    if history.len() > 0 {
        let rest = history.drop_last();
        law_only_stale_context_is_left_out(model, rest);
        let all = eligible(model, history);
        assert forall|k: int| 0 <= k < all.len() implies !stale(model, #[trigger] all[k]) by {
            if k < eligible(model, rest).len() {
                assert(all[k] == eligible(model, rest)[k]);
            }
        }
    }
}

/// A call and its outputs stay together: two items with the same call id are both summarised or
/// both kept exact.
pub proof fn law_plan_keeps_calls_with_outputs<M: SessionModel>(
    model: M,
    history: Seq<ItemView>,
    input: ExactTailPlanInput,
    a: int,
    b: int,
)
    requires
        dependent(eligible(model, history), a, b),
        a < b,
    ensures
        match exact_tail_plan(model, history, input) {
            Ok(plan) => a < plan.cold_history.len() <==> b < plan.cold_history.len(),
            Err(_) => true,
        },
{
    if let Ok(plan) = exact_tail_plan(model, history, input) {
        let items = eligible(model, history);
        let groups = tail_groups(model, history);
        let segments = segments_from(items, 0);
        let len = groups.len() as int;
        let start = hot_groups(model, groups, input.target_tokens).0;
        lemma_hot_walk(
            model,
            groups,
            len,
            0,
            cold_reserve(model, groups).max_hot_group_count as int,
            input.target_tokens,
        );
        lemma_first_groups(model, history, start);
        lemma_segments_chain(items, 0);
        let cut = first_item_of(model, history, start);
        assert(plan.cold_history.len() == cut);
        if a < cut && cut <= b {
            // The cut lies between two groups.
            assert(start > 0);
            assert(next_starts(segments, start - 1));
            assert(segments[start - 1].1 == cut - 1);
            assert(!tied(items, cut - 1));
            assert(dependent(items, a, b));
        }
    }
}

// -- what stays exact -------------------------------------------------------------------------

/// The exact part fits the room that is left for it, no prior summary is in it, and something is
/// left to be summarised.
pub proof fn law_exact_part_fits<M: SessionModel>(
    model: M,
    history: Seq<ItemView>,
    input: ExactTailPlanInput,
)
    ensures
        match exact_tail_plan(model, history, input) {
            Ok(plan) => {
                &&& plan.diagnostics.actual_hot_tokens <= plan.diagnostics.available_for_hot
                &&& plan.cold_history.len() > 0
                &&& !holds_summary(model, plan.hot_suffix)
            },
            Err(_) => true,
        },
{
    if let Ok(plan) = exact_tail_plan(model, history, input) {
        let groups = tail_groups(model, history);
        let len = groups.len() as int;
        let start = hot_groups(model, groups, input.target_tokens).0;
        lemma_hot_walk(
            model,
            groups,
            len,
            0,
            cold_reserve(model, groups).max_hot_group_count as int,
            input.target_tokens,
        );
        lemma_no_summary(model, groups, start, len);
        let items = eligible(model, history);
        let segments = segments_from(items, 0);
        lemma_segments_chain(items, 0);
        lemma_first_groups(model, history, start);
        assert(segments[start - 1].0 <= segments[start - 1].1);
        if start < len {
            assert(next_starts(segments, start - 1));
        }
        assert(plan.cold_history.len() == first_item_of(model, history, start));
    }
}

proof fn lemma_no_summary<M: SessionModel>(
    model: M,
    groups: Seq<TailGroupView>,
    from: int,
    to: int,
)
    requires
        0 <= from <= to <= groups.len(),
        forall|k: int| from <= k < to ==> !holds_summary(model, (#[trigger] groups[k]).items),
    ensures
        !holds_summary(model, items_of(groups, from, to)),
    decreases to - from,
{
    if from < to {
        lemma_no_summary(model, groups, from, to - 1);
        let front = items_of(groups, from, to - 1);
        let back = groups[to - 1].items;
        let all = items_of(groups, from, to);
        assert forall|k: int| 0 <= k < all.len() implies !prior_summary(model, #[trigger] all[k]) by {
            if k < front.len() {
                assert(all[k] == front[k]);
            } else {
                assert(all[k] == back[k - front.len()]);
            }
        }
    }
}

/// The target is overshot by one group at most: without its oldest group the exact part, where it
/// is more than the newest group, was below the target.
pub proof fn law_target_is_overshot_by_one_group<M: SessionModel>(
    model: M,
    groups: Seq<TailGroupView>,
    target: i64,
)
    ensures
        ({
            let (start, tokens) = hot_groups(model, groups, target);
            start < groups.len() ==> exists|before: i64| #[trigger]
                completes(groups, start, before, tokens, target)
        }),
{
    lemma_overshoot(
        model,
        groups,
        groups.len() as int,
        0,
        cold_reserve(model, groups).max_hot_group_count as int,
        target,
    );
}

/// The group at `start` brings `before` tokens to `tokens`, and was needed: it is the newest, or
/// `before` was below the target.
pub open spec fn completes(
    groups: Seq<TailGroupView>,
    start: int,
    before: i64,
    tokens: i64,
    target: i64,
) -> bool {
    tokens == saturating(before + groups[start].tokens) && (start == groups.len() - 1 || before
        < target)
}

proof fn lemma_overshoot<M: SessionModel>(
    model: M,
    groups: Seq<TailGroupView>,
    at: int,
    tokens: i64,
    max_count: int,
    target: i64,
)
    requires
        0 <= at <= groups.len(),
    ensures
        ({
            let (start, sum) = hot_walk(model, groups, at, tokens, max_count, target);
            start < at ==> exists|before: i64| #[trigger]
                completes(groups, start, before, sum, target)
        }),
    decreases at,
{
    let count = groups.len() - at;
    if !(at <= 0 || count >= max_count || holds_summary(model, groups[at - 1].items) || !(count == 0
        || tokens < target)) {
        let next = saturating(tokens + groups[at - 1].tokens);
        lemma_overshoot(model, groups, at - 1, next, max_count, target);
        let (start, sum) = hot_walk(model, groups, at, tokens, max_count, target);
        lemma_hot_walk(model, groups, at - 1, next, max_count, target);
        if start == at - 1 {
            assert(sum == next) by {
                lemma_hot_walk_stays(model, groups, at - 1, next, max_count, target);
            }
            assert(completes(groups, start, tokens, sum, target));
        }
    }
}

proof fn lemma_hot_walk_stays<M: SessionModel>(
    model: M,
    groups: Seq<TailGroupView>,
    at: int,
    tokens: i64,
    max_count: int,
    target: i64,
)
    requires
        0 <= at <= groups.len(),
    ensures
        hot_walk(model, groups, at, tokens, max_count, target).0 == at ==> hot_walk(
            model,
            groups,
            at,
            tokens,
            max_count,
            target,
        ).1 == tokens,
{
    let count = groups.len() - at;
    if !(at <= 0 || count >= max_count || holds_summary(model, groups[at - 1].items) || !(count == 0
        || tokens < target)) {
        lemma_hot_walk(
            model,
            groups,
            at - 1,
            saturating(tokens + groups[at - 1].tokens),
            max_count,
            target,
        );
    }
}

// -- the replacement --------------------------------------------------------------------------

/// Whatever the summariser returned, and whether or not the initial context is injected, the
/// replacement ends with the exact tail, item for item.
pub proof fn law_replacement_ends_with_the_exact_tail<M: SessionModel>(
    model: M,
    compacted: Seq<ItemView>,
    context: Seq<ItemView>,
    hot: Seq<ItemView>,
    injection: InitialContextInjection,
)
    ensures
        ends_with_items(replacement(model, compacted, context, hot, injection), hot),
{
    let items = replacement(model, compacted, context, hot, injection);
    assert(items.subrange(items.len() - hot.len(), items.len() as int) =~= hot);
}

/// A replacement that is installed fits its budget together with what the prompt adds to it.
pub proof fn law_installed_replacement_fits<M: SessionModel>(
    model: M,
    prepared: PreparedView,
    compacted: Seq<ItemView>,
    injection: InitialContextInjection,
    summary_tokens: i64,
)
    ensures
        match replacement_outcome(model, prepared, compacted, injection, summary_tokens) {
            Ok((items, diagnostics)) => {
                &&& ends_with_items(items, prepared.plan.hot_suffix)
                &&& diagnostics.final_replacement_tokens_estimate
                    <= prepared.plan.diagnostics.effective_replacement_budget
                &&& diagnostics.final_replacement_tokens_estimate == saturating(
                    total_tokens(model, items)
                        + prepared.plan.diagnostics.final_replacement_extra_budget_tokens,
                )
            },
            Err(_) => replacement_fit(
                model,
                prepared.plan.diagnostics,
                replacement(
                    model,
                    compacted,
                    prepared.initial_context,
                    prepared.plan.hot_suffix,
                    injection,
                ),
            ) is Err,
        },
{
    law_replacement_ends_with_the_exact_tail(
        model,
        compacted,
        prepared.initial_context,
        prepared.plan.hot_suffix,
        injection,
    );
}

} // verus!
