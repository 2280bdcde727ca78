//! Planning an exact-tail compaction: which groups stay exactly as they are, and which are
//! summarised.

use crate::compact::{
    collect_user_messages, compaction_item, is_compaction_item, is_summary_message, summary_message,
    user_message_views, user_messages, CompactedUserMessage, UserMessageView,
};
use crate::exact_tail::{
    ensure_model_visible_items_within_limit, exact_tail_budget_reservation, item_limit_error,
    plain_error, reservation, ErrorView, ExactTailError, ExactTailFailReason,
    ExactTailImplementation, EXACT_TAIL_CONSERVATIVE_SUMMARY_BUDGET_TOKENS,
    EXACT_TAIL_REPLACEMENT_OVERHEAD_MARGIN_TOKENS,
};
use crate::exact_tail_groups::{
    build_groups, stale_indices, tail_group_views, tail_groups, ExactTailGroup, TailGroupView,
};
use crate::item::{
    content_views, extend_items, item_views, BodyView, ContentItem, ContentView, ItemBody, ItemView,
    ResponseItem,
};
use crate::rolling_context_filter::same_text;
use crate::rolling_state::{divided, truncating_div};
use crate::session_model::{
    estimate_items_tokens, saturating, saturating_add, total_tokens, SessionModel,
};
use crate::text::{signed_decimal, signed_decimal_text, trim_start_text, trimmed_start};
use vstd::prelude::*;
use vstd::string::*;

verus! {

/// Which groups went where.
#[derive(Debug, Eq, PartialEq)]
pub struct ExactTailCoverage {
    pub cold_covered_groups: Vec<usize>,
    pub hot_exact_groups: Vec<usize>,
    pub filtered_stale_groups: Vec<usize>,
}

pub struct CoverageView {
    pub cold_covered_groups: Seq<usize>,
    pub hot_exact_groups: Seq<usize>,
    pub filtered_stale_groups: Seq<usize>,
}

impl View for ExactTailCoverage {
    type V = CoverageView;

    open spec fn view(&self) -> CoverageView {
        CoverageView {
            cold_covered_groups: self.cold_covered_groups@,
            hot_exact_groups: self.hot_exact_groups@,
            filtered_stale_groups: self.filtered_stale_groups@,
        }
    }
}

/// The numbers behind a plan. What is known only after the attempt starts out as `None`.
#[derive(Clone, Copy, Debug, Eq, PartialEq, Structural)]
pub struct ExactTailDiagnostics {
    pub implementation: ExactTailImplementation,
    pub raw_item_count: usize,
    pub group_count: usize,
    pub cold_group_count: usize,
    pub hot_group_count: usize,
    pub filtered_context_item_count: usize,
    pub requested_hot_tokens: i64,
    pub actual_hot_tokens: i64,
    pub cold_tokens: i64,
    pub effective_replacement_budget: i64,
    pub conservative_summary_budget_tokens: i64,
    pub estimated_summary_scaffold_overhead_tokens: i64,
    pub retained_cold_user_message_budget_tokens: i64,
    pub replacement_overhead_margin_tokens: i64,
    pub conservative_cold_summary_budget: i64,
    pub required_current_context_budget: i64,
    pub final_replacement_extra_budget_tokens: i64,
    pub max_model_visible_item_tokens: i64,
    pub normalized_tool_output_count: usize,
    pub safety_margin: i64,
    pub available_for_hot: i64,
    pub largest_hot_item_tokens: i64,
    pub post_summary_cold_reserve_target_tokens: i64,
    pub post_summary_cold_reserve_tokens: i64,
    pub post_summary_cold_reserve_group_count: usize,
    pub actual_summary_tokens: Option<i64>,
    pub attempted_replacement_tokens_estimate: Option<i64>,
    pub attempted_final_replacement_tokens_estimate: Option<i64>,
    pub semantic_transcript_tokens: Option<i64>,
    pub semantic_transcript_item_count: Option<usize>,
    pub semantic_transcript_tool_observation_count: Option<usize>,
    pub raw_cold_tokens: Option<i64>,
    pub semantic_transcript_reduction_tokens: Option<i64>,
    pub retained_cold_message_tokens: Option<i64>,
    pub retained_cold_message_count: Option<usize>,
}

/// What is summarised and what stays.
#[derive(Debug)]
pub struct ExactTailPlan {
    pub cold_history: Vec<ResponseItem>,
    pub hot_suffix: Vec<ResponseItem>,
    pub cold_user_messages: Vec<CompactedUserMessage>,
    pub diagnostics: ExactTailDiagnostics,
    pub coverage: ExactTailCoverage,
}

pub struct PlanView {
    pub cold_history: Seq<ItemView>,
    pub hot_suffix: Seq<ItemView>,
    pub cold_user_messages: Seq<UserMessageView>,
    pub diagnostics: ExactTailDiagnostics,
    pub coverage: CoverageView,
}

impl View for ExactTailPlan {
    type V = PlanView;

    open spec fn view(&self) -> PlanView {
        PlanView {
            cold_history: item_views(self.cold_history@),
            hot_suffix: item_views(self.hot_suffix@),
            cold_user_messages: user_message_views(self.cold_user_messages@),
            diagnostics: self.diagnostics,
            coverage: self.coverage@,
        }
    }
}

/// What a plan is made for.
#[derive(Clone, Copy, Debug, PartialEq, Eq, Structural)]
pub struct ExactTailPlanInput {
    pub target_tokens: i64,
    pub effective_replacement_budget: Option<i64>,
    pub required_current_context_budget: i64,
    pub final_replacement_extra_budget_tokens: i64,
    pub max_model_visible_item_tokens: i64,
    pub estimated_summary_scaffold_overhead_tokens: i64,
    pub retained_cold_user_message_budget_tokens: i64,
    pub implementation: ExactTailImplementation,
}

// ---------------------------------------------------------------------------------------------
// Summaries in the history.
// ---------------------------------------------------------------------------------------------

/// The part is the text of a summary.
pub open spec fn summary_part<M: SessionModel>(model: M, part: ContentView) -> bool {
    match part {
        ContentView::InputText { text } => summary_message(model, trimmed_start(text)),
        ContentView::OutputText { text } => summary_message(model, trimmed_start(text)),
        ContentView::InputImage { .. } => false,
    }
}

pub open spec fn has_summary_part<M: SessionModel>(model: M, content: Seq<ContentView>) -> bool {
    exists|k: int| 0 <= k < content.len() && summary_part(model, #[trigger] content[k])
}

fn content_item_is_summary_text<M: SessionModel>(model: &M, part: &ContentItem) -> (r: bool)
    ensures
        r == summary_part(*model, part@),
{
    match part {
        ContentItem::InputText { text } | ContentItem::OutputText { text } => is_summary_message(
            model,
            trim_start_text(text.as_str()).as_str(),
        ),
        ContentItem::InputImage { .. } => false,
    }
}

pub fn content_has_summary_text<M: SessionModel>(model: &M, content: &Vec<ContentItem>) -> (r: bool)
    ensures
        r == has_summary_part(*model, content_views(content@)),
{
    let ghost parts = content_views(content@);
    let mut i: usize = 0;
    while i < content.len()
        invariant
            i <= content@.len(),
            parts == content_views(content@),
            forall|k: int| 0 <= k < i ==> !summary_part(*model, #[trigger] parts[k]),
        decreases content@.len() - i,
    {
        assert(parts[i as int] == content@[i as int]@);
        if content_item_is_summary_text(model, &content[i]) {
            return true;
        }
        i += 1;
    }
    false
}

/// A message of the user's role that holds a summary.
pub open spec fn summary_user_message<M: SessionModel>(model: M, item: ItemView) -> bool {
    match item.body {
        BodyView::Message { role, content, phase } => role == "user"@ && has_summary_part(
            model,
            content,
        ),
        _ => false,
    }
}

pub fn response_item_is_summary_user_message<M: SessionModel>(
    model: &M,
    item: &ResponseItem,
) -> (r: bool)
    ensures
        r == summary_user_message(*model, item@),
{
    match &item.body {
        ItemBody::Message { role, content, phase: _ } => same_text(role.as_str(), "user")
            && content_has_summary_text(model, content),
        _ => false,
    }
}

/// The item stands for history that was summarised before.
pub open spec fn prior_summary<M: SessionModel>(model: M, item: ItemView) -> bool {
    compaction_item(item) || summary_user_message(model, item)
}

/// A group with a summary in it is never kept exact.
pub open spec fn holds_summary<M: SessionModel>(model: M, items: Seq<ItemView>) -> bool {
    exists|k: int| 0 <= k < items.len() && prior_summary(model, #[trigger] items[k])
}

pub fn group_contains_compaction_summary<M: SessionModel>(
    model: &M,
    group: &ExactTailGroup,
) -> (r: bool)
    ensures
        r == holds_summary(*model, group@.items),
{
    let ghost all = group@.items;
    let mut i: usize = 0;
    while i < group.items.len()
        invariant
            i <= group.items@.len(),
            all == item_views(group.items@),
            forall|k: int| 0 <= k < i ==> !prior_summary(*model, #[trigger] all[k]),
        decreases group.items@.len() - i,
    {
        assert(all[i as int] == group.items@[i as int]@);
        if is_compaction_item(&group.items[i]) || response_item_is_summary_user_message(
            model,
            &group.items[i],
        ) {
            return true;
        }
        i += 1;
    }
    false
}

// ---------------------------------------------------------------------------------------------
// What stays cold behind the last summary.
// ---------------------------------------------------------------------------------------------

#[derive(Clone, Copy, Debug, Eq, PartialEq, Structural)]
pub struct PostSummaryColdReserve {
    pub max_hot_group_count: usize,
    pub target_tokens: i64,
    pub tokens: i64,
    pub group_count: usize,
}

/// The last group before `at` that holds a summary.
pub open spec fn last_summary_group<M: SessionModel>(
    model: M,
    groups: Seq<TailGroupView>,
    at: int,
) -> Option<int>
    decreases at,
{
    if at <= 0 || at > groups.len() {
        None
    } else if holds_summary(model, groups[at - 1].items) {
        Some(at - 1)
    } else {
        last_summary_group(model, groups, at - 1)
    }
}

/// The tokens of the groups from `from` to `to`.
pub open spec fn group_tokens(groups: Seq<TailGroupView>, from: int, to: int) -> i64
    decreases to - from,
{
    if from >= to || to > groups.len() || from < 0 {
        0
    } else {
        saturating(group_tokens(groups, from, to - 1) + groups[to - 1].tokens)
    }
}

/// Takes groups from `at` on until their tokens reach the target or `stop` is reached.
pub open spec fn reserve_walk(
    groups: Seq<TailGroupView>,
    at: int,
    stop: int,
    tokens: i64,
    target: i64,
) -> (int, i64)
    decreases stop - at,
{
    if at >= stop || at < 0 || stop > groups.len() {
        (at, tokens)
    } else {
        let sum = saturating(tokens + groups[at].tokens);
        if sum >= target {
            (at + 1, sum)
        } else {
            reserve_walk(groups, at + 1, stop, sum, target)
        }
    }
}

pub open spec fn no_reserve(groups: Seq<TailGroupView>) -> PostSummaryColdReserve {
    PostSummaryColdReserve {
        max_hot_group_count: groups.len() as usize,
        target_tokens: 0,
        tokens: 0,
        group_count: 0,
    }
}

/// A tenth of what came after the last summary stays cold, in whole groups from the oldest on; the
/// newest group may always be kept exact.
pub open spec fn cold_reserve<M: SessionModel>(
    model: M,
    groups: Seq<TailGroupView>,
) -> PostSummaryColdReserve {
    let len = groups.len() as int;
    match last_summary_group(model, groups, len) {
        None => no_reserve(groups),
        Some(summary) => if len - (summary + 1) <= 1 {
            no_reserve(groups)
        } else {
            let tenth = truncating_div(group_tokens(groups, summary + 1, len) as int, 10);
            let target = if tenth < 1 {
                1
            } else {
                tenth as i64
            };
            let (end, tokens) = reserve_walk(groups, summary + 1, len - 1, 0, target);
            PostSummaryColdReserve {
                max_hot_group_count: (len - end) as usize,
                target_tokens: target,
                tokens,
                group_count: (end - (summary + 1)) as usize,
            }
        },
    }
}

pub fn post_summary_cold_reserve<M: SessionModel>(
    model: &M,
    groups: &Vec<ExactTailGroup>,
) -> (r: PostSummaryColdReserve)
    ensures
        r == cold_reserve(*model, tail_group_views(groups@)),
{
    let ghost all = tail_group_views(groups@);
    let len: usize = groups.len();
    let none = PostSummaryColdReserve {
        max_hot_group_count: len,
        target_tokens: 0,
        tokens: 0,
        group_count: 0,
    };
    let mut at: usize = len;
    let mut found = false;
    while at > 0 && !found
        invariant
            at <= len == groups@.len(),
            all == tail_group_views(groups@),
            found ==> last_summary_group(*model, all, len as int) == Some(at as int) && at < len,
            !found ==> last_summary_group(*model, all, len as int) == last_summary_group(
                *model,
                all,
                at as int,
            ),
        decreases at,
    {
        assert(all[at - 1] == groups@[at - 1]@);
        found = group_contains_compaction_summary(model, &groups[at - 1]);
        at -= 1;
    }
    if !found {
        return none;
    }
    let first: usize = at + 1;
    if len - first <= 1 {
        return none;
    }
    let mut total: i64 = 0;
    let mut i: usize = first;
    while i < len
        invariant
            first <= i <= len == groups@.len(),
            all == tail_group_views(groups@),
            total == group_tokens(all, first as int, i as int),
        decreases len - i,
    {
        assert(all[i as int] == groups@[i as int]@);
        total = saturating_add(total, groups[i].tokens);
        i += 1;
    }
    let tenth: i64 = divided(total, 10);
    let target: i64 = if tenth < 1 {
        1
    } else {
        tenth
    };
    let mut end: usize = first;
    let mut tokens: i64 = 0;
    let mut reached = false;
    while end < len - 1 && !reached
        invariant
            first <= end <= len - 1,
            first < len == groups@.len(),
            all == tail_group_views(groups@),
            reached ==> reserve_walk(all, first as int, len - 1, 0, target) == (
                end as int,
                tokens,
            ),
            !reached ==> reserve_walk(all, first as int, len - 1, 0, target) == reserve_walk(
                all,
                end as int,
                len - 1,
                tokens,
                target,
            ),
        decreases len - end,
    {
        assert(all[end as int] == groups@[end as int]@);
        tokens = saturating_add(tokens, groups[end].tokens);
        end += 1;
        reached = tokens >= target;
    }
    PostSummaryColdReserve {
        max_hot_group_count: len - end,
        target_tokens: target,
        tokens,
        group_count: end - first,
    }
}

// ---------------------------------------------------------------------------------------------
// What stays exact.
// ---------------------------------------------------------------------------------------------

/// Walks back from the group before `at`, taking whole groups until the target is reached, the
/// reserve begins or a summary is met.
pub open spec fn hot_walk<M: SessionModel>(
    model: M,
    groups: Seq<TailGroupView>,
    at: int,
    tokens: i64,
    max_count: int,
    target: i64,
) -> (int, i64)
    decreases at,
{
    let count = groups.len() - at;
    if at <= 0 || at > groups.len() || count >= max_count || holds_summary(
        model,
        groups[at - 1].items,
    ) || !(count == 0 || tokens < target) {
        (at, tokens)
    } else {
        hot_walk(
            model,
            groups,
            at - 1,
            saturating(tokens + groups[at - 1].tokens),
            max_count,
            target,
        )
    }
}

/// Where the exact groups start, and their tokens.
pub open spec fn hot_groups<M: SessionModel>(
    model: M,
    groups: Seq<TailGroupView>,
    target: i64,
) -> (int, i64) {
    hot_walk(
        model,
        groups,
        groups.len() as int,
        0,
        cold_reserve(model, groups).max_hot_group_count as int,
        target,
    )
}

#[derive(Clone, Copy, Debug, PartialEq, Eq, Structural)]
pub struct HotGroupSelection {
    pub selected_group_count: usize,
    pub actual_hot_tokens: i64,
    pub post_summary_cold_reserve: PostSummaryColdReserve,
}

pub fn select_hot_groups<M: SessionModel>(
    model: &M,
    groups: &Vec<ExactTailGroup>,
    target_tokens: i64,
) -> (r: HotGroupSelection)
    ensures
        ({
            let all = tail_group_views(groups@);
            let (start, tokens) = hot_groups(*model, all, target_tokens);
            &&& r.selected_group_count == groups@.len() - start
            &&& r.selected_group_count <= groups@.len()
            &&& r.actual_hot_tokens == tokens
            &&& r.post_summary_cold_reserve == cold_reserve(*model, all)
        }),
{
    let ghost all = tail_group_views(groups@);
    let reserve = post_summary_cold_reserve(model, groups);
    let len: usize = groups.len();
    let max_count: usize = reserve.max_hot_group_count;
    let mut start: usize = len;
    let mut tokens: i64 = 0;
    while start > 0 && len - start < max_count && (start == len || tokens < target_tokens)
        invariant_except_break
            hot_walk(*model, all, start as int, tokens, max_count as int, target_tokens)
                == hot_groups(*model, all, target_tokens),
        invariant
            start <= len == groups@.len(),
            all == tail_group_views(groups@),
            max_count == cold_reserve(*model, all).max_hot_group_count,
        ensures
            (start as int, tokens) == hot_groups(*model, all, target_tokens),
        decreases start,
    {
        assert(all[start - 1] == groups@[start - 1]@);
        if group_contains_compaction_summary(model, &groups[start - 1]) {
            break;
        }
        tokens = saturating_add(tokens, groups[start - 1].tokens);
        start -= 1;
    }
    HotGroupSelection {
        selected_group_count: len - start,
        actual_hot_tokens: tokens,
        post_summary_cold_reserve: reserve,
    }
}

// ---------------------------------------------------------------------------------------------
// The plan.
// ---------------------------------------------------------------------------------------------

/// The items of the groups from `from` to `to`.
pub open spec fn items_of(groups: Seq<TailGroupView>, from: int, to: int) -> Seq<ItemView>
    decreases to - from,
{
    if from >= to || to > groups.len() || from < 0 {
        Seq::empty()
    } else {
        items_of(groups, from, to - 1) + groups[to - 1].items
    }
}

pub open spec fn ids_of(groups: Seq<TailGroupView>, from: int, to: int) -> Seq<usize>
    decreases to - from,
{
    if from >= to || to > groups.len() || from < 0 {
        Seq::empty()
    } else {
        ids_of(groups, from, to - 1).push(groups[to - 1].id as usize)
    }
}

fn collect_groups(groups: &Vec<ExactTailGroup>, from: usize, to: usize) -> (r: (
    Vec<ResponseItem>,
    Vec<usize>,
))
    requires
        from <= to <= groups@.len(),
    ensures
        item_views(r.0@) == items_of(tail_group_views(groups@), from as int, to as int),
        r.1@ == ids_of(tail_group_views(groups@), from as int, to as int),
{
    let ghost all = tail_group_views(groups@);
    let mut items: Vec<ResponseItem> = Vec::new();
    let mut ids: Vec<usize> = Vec::new();
    let mut i: usize = from;
    assert(item_views(items@) =~= Seq::<ItemView>::empty());
    while i < to
        invariant
            from <= i <= to <= groups@.len(),
            all == tail_group_views(groups@),
            item_views(items@) == items_of(all, from as int, i as int),
            ids@ == ids_of(all, from as int, i as int),
        decreases to - i,
    {
        assert(all[i as int] == groups@[i as int]@);
        extend_items(&mut items, groups[i].items.as_slice());
        ids.push(groups[i].id);
        i += 1;
    }
    (items, ids)
}

/// The tokens of the largest item; zero if there is none.
pub open spec fn largest_item<M: SessionModel>(model: M, items: Seq<ItemView>) -> i64
    decreases items.len(),
{
    if items.len() == 0 {
        0
    } else {
        let tokens = model.spec_item_tokens(items.last());
        let rest = largest_item(model, items.drop_last());
        if items.len() == 1 || tokens > rest {
            tokens
        } else {
            rest
        }
    }
}

fn largest_item_tokens<M: SessionModel>(model: &M, items: &Vec<ResponseItem>) -> (r: i64)
    ensures
        r == largest_item(*model, item_views(items@)),
{
    let ghost all = item_views(items@);
    let mut largest: i64 = 0;
    let mut i: usize = 0;
    assert(all.subrange(0, 0) =~= Seq::<ItemView>::empty());
    while i < items.len()
        invariant
            i <= items@.len(),
            all == item_views(items@),
            largest == largest_item(*model, all.subrange(0, i as int)),
        decreases items@.len() - i,
    {
        proof {
            let next = all.subrange(0, i + 1);
            assert(next.drop_last() =~= all.subrange(0, i as int));
            assert(next.last() == items@[i as int]@);
        }
        let tokens: i64 = model.item_tokens(&items[i]);
        if i == 0 || tokens > largest {
            largest = tokens;
        }
        i += 1;
    }
    assert(all.subrange(0, i as int) =~= all);
    largest
}

pub open spec fn budget_unavailable() -> ErrorView {
    plain_error(
        ExactTailFailReason::BudgetUnavailable,
        "Exact-tail compaction requires a model context window or auto-compaction budget."@,
    )
}

pub open spec fn no_cold_prefix() -> ErrorView {
    plain_error(
        ExactTailFailReason::NoColdPrefix,
        "ExactTailNoColdPrefix: exact-tail compaction requires at least one cold group to summarize."@,
    )
}

/// `what` needs more tokens than there are.
pub open spec fn hot_too_large(what: Seq<char>, tokens: i64, available: i64) -> ErrorView {
    plain_error(
        ExactTailFailReason::MinimumHotSuffixTooLarge,
        ExactTailFailReason::MinimumHotSuffixTooLarge.name() + what + signed_decimal(tokens as int)
            + " tokens but only "@ + signed_decimal(available as int) + " are available"@,
    )
}

fn hot_too_large_error(what: &str, tokens: i64, available: i64) -> (error: ExactTailError)
    ensures
        error@ == hot_too_large(what@, tokens, available),
{
    let mut message = String::from_str(ExactTailFailReason::MinimumHotSuffixTooLarge.as_str());
    message.append(what);
    message.append(signed_decimal_text(tokens).as_str());
    message.append(" tokens but only ");
    message.append(signed_decimal_text(available).as_str());
    message.append(" are available");
    ExactTailError::new(ExactTailFailReason::MinimumHotSuffixTooLarge, message)
}

/// The numbers behind a plan.
pub open spec fn plan_diagnostics<M: SessionModel>(
    model: M,
    history: Seq<ItemView>,
    input: ExactTailPlanInput,
    budget: i64,
    start: int,
    tokens: i64,
) -> ExactTailDiagnostics {
    let groups = tail_groups(model, history);
    let len = groups.len() as int;
    let reserve = cold_reserve(model, groups);
    let reserved = reservation(
        budget,
        input.required_current_context_budget,
        input.estimated_summary_scaffold_overhead_tokens,
        input.retained_cold_user_message_budget_tokens,
    );
    ExactTailDiagnostics {
        implementation: input.implementation,
        raw_item_count: history.len() as usize,
        group_count: len as usize,
        cold_group_count: start as usize,
        hot_group_count: (len - start) as usize,
        filtered_context_item_count: stale_indices(model, history).len() as usize,
        requested_hot_tokens: input.target_tokens,
        actual_hot_tokens: tokens,
        cold_tokens: total_tokens(model, items_of(groups, 0, start)),
        effective_replacement_budget: budget,
        conservative_summary_budget_tokens: EXACT_TAIL_CONSERVATIVE_SUMMARY_BUDGET_TOKENS,
        estimated_summary_scaffold_overhead_tokens:
            input.estimated_summary_scaffold_overhead_tokens,
        retained_cold_user_message_budget_tokens: input.retained_cold_user_message_budget_tokens,
        replacement_overhead_margin_tokens: EXACT_TAIL_REPLACEMENT_OVERHEAD_MARGIN_TOKENS,
        conservative_cold_summary_budget: reserved.conservative_cold_summary_budget,
        required_current_context_budget: input.required_current_context_budget,
        final_replacement_extra_budget_tokens: input.final_replacement_extra_budget_tokens,
        max_model_visible_item_tokens: input.max_model_visible_item_tokens,
        normalized_tool_output_count: 0,
        safety_margin: reserved.safety_margin,
        available_for_hot: reserved.available_for_hot,
        largest_hot_item_tokens: largest_item(model, items_of(groups, start, len)),
        post_summary_cold_reserve_target_tokens: reserve.target_tokens,
        post_summary_cold_reserve_tokens: reserve.tokens,
        post_summary_cold_reserve_group_count: reserve.group_count,
        actual_summary_tokens: None,
        attempted_replacement_tokens_estimate: None,
        attempted_final_replacement_tokens_estimate: None,
        semantic_transcript_tokens: None,
        semantic_transcript_item_count: None,
        semantic_transcript_tool_observation_count: None,
        raw_cold_tokens: None,
        semantic_transcript_reduction_tokens: None,
        retained_cold_message_tokens: None,
        retained_cold_message_count: None,
    }
}

/// What planning comes to.
pub open spec fn exact_tail_plan<M: SessionModel>(
    model: M,
    history: Seq<ItemView>,
    input: ExactTailPlanInput,
) -> Result<PlanView, ErrorView> {
    match input.effective_replacement_budget {
        None => Err(budget_unavailable()),
        Some(budget) => {
            let groups = tail_groups(model, history);
            let len = groups.len() as int;
            let available = reservation(
                budget,
                input.required_current_context_budget,
                input.estimated_summary_scaffold_overhead_tokens,
                input.retained_cold_user_message_budget_tokens,
            ).available_for_hot;
            let (start, tokens) = hot_groups(model, groups, input.target_tokens);
            let hot = items_of(groups, start, len);
            if len > 0 && !holds_summary(model, groups[len - 1].items) && groups[len - 1].tokens
                > available {
                Err(
                    hot_too_large(
                        ": newest exact-tail group requires "@,
                        groups[len - 1].tokens,
                        available,
                    ),
                )
            } else if tokens > available {
                Err(
                    hot_too_large(
                        ": requested exact-tail suffix requires "@,
                        tokens,
                        available,
                    ),
                )
            } else if start == 0 {
                Err(no_cold_prefix())
            } else {
                match item_limit_error(model, hot, input.max_model_visible_item_tokens) {
                    Some(error) => Err(error),
                    None => Ok(
                        PlanView {
                            cold_history: items_of(groups, 0, start),
                            hot_suffix: hot,
                            cold_user_messages: user_messages(model, items_of(groups, 0, start)),
                            diagnostics: plan_diagnostics(
                                model,
                                history,
                                input,
                                budget,
                                start,
                                tokens,
                            ),
                            coverage: CoverageView {
                                cold_covered_groups: ids_of(groups, 0, start),
                                hot_exact_groups: ids_of(groups, start, len),
                                filtered_stale_groups: stale_indices(model, history),
                            },
                        },
                    ),
                }
            }
        },
    }
}

pub proof fn lemma_hot_walk<M: SessionModel>(
    model: M,
    groups: Seq<TailGroupView>,
    at: int,
    tokens: i64,
    max_count: int,
    target: i64,
)
    requires
        0 <= at <= groups.len(),
    ensures
        0 <= hot_walk(model, groups, at, tokens, max_count, target).0 <= at,
        forall|k: int|
            hot_walk(model, groups, at, tokens, max_count, target).0 <= k < at ==> !holds_summary(
                model,
                (#[trigger] groups[k]).items,
            ),
    decreases at,
{
    let count = groups.len() - at;
    if !(at <= 0 || count >= max_count || holds_summary(model, groups[at - 1].items) || !(count == 0
        || tokens < target)) {
        lemma_hot_walk(
            model,
            groups,
            at - 1,
            saturating(tokens + groups[at - 1].tokens),
            max_count,
            target,
        );
    }
}

/// Plans which groups stay exact and which are summarised.
pub fn plan_exact_tail<M: SessionModel>(
    model: &M,
    history_items: &[ResponseItem],
    input: ExactTailPlanInput,
) -> (r: Result<ExactTailPlan, ExactTailError>)
    ensures
        match r {
            Ok(plan) => exact_tail_plan(*model, item_views(history_items@), input) == Ok::<
                PlanView,
                ErrorView,
            >(plan@),
            Err(error) => exact_tail_plan(*model, item_views(history_items@), input) == Err::<
                PlanView,
                ErrorView,
            >(error@),
        },
{
    let budget: i64 = match input.effective_replacement_budget {
        Some(budget) => budget,
        None => {
            return Err(
                ExactTailError::new(
                    ExactTailFailReason::BudgetUnavailable,
                    String::from_str(
                        "Exact-tail compaction requires a model context window or auto-compaction budget.",
                    ),
                ),
            );
        },
    };
    let reserved = exact_tail_budget_reservation(
        budget,
        input.required_current_context_budget,
        input.estimated_summary_scaffold_overhead_tokens,
        input.retained_cold_user_message_budget_tokens,
    );
    let (groups, stale_groups) = build_groups(model, history_items);
    let ghost all = tail_group_views(groups@);
    let len: usize = groups.len();
    if len > 0 {
        assert(all[len - 1] == groups@[len - 1]@);
        if !group_contains_compaction_summary(model, &groups[len - 1]) && groups[len - 1].tokens
            > reserved.available_for_hot {
            return Err(
                hot_too_large_error(
                    ": newest exact-tail group requires ",
                    groups[len - 1].tokens,
                    reserved.available_for_hot,
                ),
            );
        }
    }
    let selection = select_hot_groups(model, &groups, input.target_tokens);
    if selection.actual_hot_tokens > reserved.available_for_hot {
        return Err(
            hot_too_large_error(
                ": requested exact-tail suffix requires ",
                selection.actual_hot_tokens,
                reserved.available_for_hot,
            ),
        );
    }
    let start: usize = len - selection.selected_group_count;
    if start == 0 {
        return Err(
            ExactTailError::new(
                ExactTailFailReason::NoColdPrefix,
                String::from_str(
                    "ExactTailNoColdPrefix: exact-tail compaction requires at least one cold group to summarize.",
                ),
            ),
        );
    }
    let (cold_history, cold_ids) = collect_groups(&groups, 0, start);
    let (hot_suffix, hot_ids) = collect_groups(&groups, start, len);
    if let Err(error) = ensure_model_visible_items_within_limit(
        model,
        hot_suffix.as_slice(),
        input.max_model_visible_item_tokens,
    ) {
        return Err(error);
    }
    let cold_user_messages = collect_user_messages(model, cold_history.as_slice());
    let reserve = selection.post_summary_cold_reserve;
    let diagnostics = ExactTailDiagnostics {
        implementation: input.implementation,
        raw_item_count: history_items.len(),
        group_count: len,
        cold_group_count: start,
        hot_group_count: selection.selected_group_count,
        filtered_context_item_count: stale_groups.len(),
        requested_hot_tokens: input.target_tokens,
        actual_hot_tokens: selection.actual_hot_tokens,
        cold_tokens: estimate_items_tokens(model, cold_history.as_slice()),
        effective_replacement_budget: budget,
        conservative_summary_budget_tokens: EXACT_TAIL_CONSERVATIVE_SUMMARY_BUDGET_TOKENS,
        estimated_summary_scaffold_overhead_tokens:
            input.estimated_summary_scaffold_overhead_tokens,
        retained_cold_user_message_budget_tokens: input.retained_cold_user_message_budget_tokens,
        replacement_overhead_margin_tokens: EXACT_TAIL_REPLACEMENT_OVERHEAD_MARGIN_TOKENS,
        conservative_cold_summary_budget: reserved.conservative_cold_summary_budget,
        required_current_context_budget: input.required_current_context_budget,
        final_replacement_extra_budget_tokens: input.final_replacement_extra_budget_tokens,
        max_model_visible_item_tokens: input.max_model_visible_item_tokens,
        normalized_tool_output_count: 0,
        safety_margin: reserved.safety_margin,
        available_for_hot: reserved.available_for_hot,
        largest_hot_item_tokens: largest_item_tokens(model, &hot_suffix),
        post_summary_cold_reserve_target_tokens: reserve.target_tokens,
        post_summary_cold_reserve_tokens: reserve.tokens,
        post_summary_cold_reserve_group_count: reserve.group_count,
        actual_summary_tokens: None,
        attempted_replacement_tokens_estimate: None,
        attempted_final_replacement_tokens_estimate: None,
        semantic_transcript_tokens: None,
        semantic_transcript_item_count: None,
        semantic_transcript_tool_observation_count: None,
        raw_cold_tokens: None,
        semantic_transcript_reduction_tokens: None,
        retained_cold_message_tokens: None,
        retained_cold_message_count: None,
    };
    Ok(
        ExactTailPlan {
            cold_history,
            hot_suffix,
            cold_user_messages,
            diagnostics,
            coverage: ExactTailCoverage {
                cold_covered_groups: cold_ids,
                hot_exact_groups: hot_ids,
                filtered_stale_groups: stale_groups,
            },
        },
    )
}

} // verus!
