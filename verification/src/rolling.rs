//! Rolling prompts: the newest groups of the history that fit under the target, behind a prefix
//! that every request carries.

use crate::item::{
    clone_items, extend_items, item_views, ItemView, ResponseItem,
};
use crate::rolling_context_filter::{
    group_start, historical_at, is_historical_context_item_at, is_turn_context_group_start,
};
use crate::rolling_groups::{groups_from, raw_group_views, rolling_groups, RawGroupView};
use crate::rolling_projection::{
    project_rolling_message_item, project_rolling_prompt_item, projected_item, projected_message,
};
use crate::rolling_state::{RollingPromptState, StateView};
use crate::session_model::{
    estimate_items_tokens, saturating, saturating_add, total_tokens, InputModality, SessionModel,
};
use crate::text::{signed_decimal, signed_decimal_text};
use vstd::prelude::*;
use vstd::string::*;

verus! {

/// No item of a rolling prompt is larger than this.
pub const MAX_ROLLING_PROMPT_ITEM_TOKENS: i64 = 10_000;

/// Why no prompt could be built.
#[derive(Debug, Clone, Copy, PartialEq, Eq, Structural)]
pub enum RollingPromptError {
    NoContextWindow,
    InvariantPrefixExceedsTarget { pinned_tokens: i64, target_tokens: i64 },
    FrontierExceedsBudget { frontier_tokens: i64, body_budget: i64 },
    ItemExceedsLimit { item_tokens: i64, limit_tokens: i64 },
}

impl RollingPromptError {
    pub open spec fn spec_message(self) -> Seq<char> {
        match self {
            RollingPromptError::NoContextWindow => {
                "rolling prompt retention requires a context window"@
            },
            RollingPromptError::InvariantPrefixExceedsTarget { pinned_tokens, target_tokens } => {
                "rolling prompt invariant prefix uses "@ + signed_decimal(pinned_tokens as int)
                    + " tokens, exceeding target "@ + signed_decimal(target_tokens as int)
            },
            RollingPromptError::FrontierExceedsBudget { frontier_tokens, body_budget } => {
                "rolling prompt newest frontier uses "@ + signed_decimal(frontier_tokens as int)
                    + " tokens, exceeding body budget "@ + signed_decimal(body_budget as int)
            },
            RollingPromptError::ItemExceedsLimit { item_tokens, limit_tokens } => {
                "rolling prompt item uses "@ + signed_decimal(item_tokens as int)
                    + " tokens, exceeding per-item limit "@ + signed_decimal(limit_tokens as int)
            },
        }
    }

    /// The error in words.
    pub fn message(&self) -> (text: String)
        ensures
            text@ == self.spec_message(),
    {
        match *self {
            RollingPromptError::NoContextWindow => String::from_str(
                "rolling prompt retention requires a context window",
            ),
            RollingPromptError::InvariantPrefixExceedsTarget { pinned_tokens, target_tokens } => {
                let mut text = String::from_str("rolling prompt invariant prefix uses ");
                text.append(signed_decimal_text(pinned_tokens).as_str());
                text.append(" tokens, exceeding target ");
                text.append(signed_decimal_text(target_tokens).as_str());
                text
            },
            RollingPromptError::FrontierExceedsBudget { frontier_tokens, body_budget } => {
                let mut text = String::from_str("rolling prompt newest frontier uses ");
                text.append(signed_decimal_text(frontier_tokens).as_str());
                text.append(" tokens, exceeding body budget ");
                text.append(signed_decimal_text(body_budget).as_str());
                text
            },
            RollingPromptError::ItemExceedsLimit { item_tokens, limit_tokens } => {
                let mut text = String::from_str("rolling prompt item uses ");
                text.append(signed_decimal_text(item_tokens).as_str());
                text.append(" tokens, exceeding per-item limit ");
                text.append(signed_decimal_text(limit_tokens).as_str());
                text
            },
        }
    }
}

/// A prompt that can be sent.
#[derive(Debug, PartialEq)]
pub struct RollingPromptResult {
    pub prompt_input: Vec<ResponseItem>,
    pub estimated_prompt_tokens: i64,
    pub dropped_body_items: usize,
    pub raw_history_start_index: usize,
    pub target_tokens: i64,
    pub backoff_applied: bool,
    pub projected_state: RollingPromptState,
}

pub struct ResultView {
    pub prompt_input: Seq<ItemView>,
    pub estimated_prompt_tokens: i64,
    pub dropped_body_items: nat,
    pub raw_history_start_index: usize,
    pub target_tokens: i64,
    pub backoff_applied: bool,
    pub projected_state: StateView,
}

impl View for RollingPromptResult {
    type V = ResultView;

    open spec fn view(&self) -> ResultView {
        ResultView {
            prompt_input: item_views(self.prompt_input@),
            estimated_prompt_tokens: self.estimated_prompt_tokens,
            dropped_body_items: self.dropped_body_items as nat,
            raw_history_start_index: self.raw_history_start_index,
            target_tokens: self.target_tokens,
            backoff_applied: self.backoff_applied,
            projected_state: self.projected_state@,
        }
    }
}

// ---------------------------------------------------------------------------------------------
// Item sizes.
// ---------------------------------------------------------------------------------------------

/// Some item is over the limit.
pub open spec fn over_limit<M: SessionModel>(model: M, items: Seq<ItemView>) -> bool {
    exists|k: int|
        0 <= k < items.len() && model.spec_item_tokens(#[trigger] items[k])
            > MAX_ROLLING_PROMPT_ITEM_TOKENS
}

/// The size of the first item over the limit.
pub open spec fn first_over_limit<M: SessionModel>(model: M, items: Seq<ItemView>) -> Option<i64>
    decreases items.len(),
{
    if items.len() == 0 {
        None
    } else {
        match first_over_limit(model, items.drop_last()) {
            Some(tokens) => Some(tokens),
            None => if model.spec_item_tokens(items.last()) > MAX_ROLLING_PROMPT_ITEM_TOKENS {
                Some(model.spec_item_tokens(items.last()))
            } else {
                None
            },
        }
    }
}

/// The size of the largest item, if that is over the limit; else one token more than the limit.
pub open spec fn largest_over_limit<M: SessionModel>(model: M, items: Seq<ItemView>) -> i64
    decreases items.len(),
{
    if items.len() == 0 {
        (MAX_ROLLING_PROMPT_ITEM_TOKENS + 1) as i64
    } else {
        let rest = largest_over_limit(model, items.drop_last());
        let tokens = model.spec_item_tokens(items.last());
        if tokens > rest {
            tokens
        } else {
            rest
        }
    }
}

proof fn lemma_first_over_limit<M: SessionModel>(model: M, items: Seq<ItemView>, upto: int)
    requires
        0 <= upto <= items.len(),
        first_over_limit(model, items.subrange(0, upto)) is Some,
    ensures
        first_over_limit(model, items) == first_over_limit(model, items.subrange(0, upto)),
    decreases items.len(),
{
    if upto == items.len() {
        assert(items.subrange(0, upto) =~= items);
    } else {
        assert(items.drop_last().subrange(0, upto) =~= items.subrange(0, upto));
        lemma_first_over_limit(model, items.drop_last(), upto);
    }
}

pub proof fn lemma_first_over_limit_is_over<M: SessionModel>(model: M, items: Seq<ItemView>)
    ensures
        first_over_limit(model, items) is Some <==> over_limit(model, items),
    decreases items.len(),
{
    if items.len() > 0 {
        let rest = items.drop_last();
        lemma_first_over_limit_is_over(model, rest);
        assert(forall|k: int| 0 <= k < rest.len() ==> rest[k] == items[k]);
        if over_limit(model, rest) {
            let k = choose|k: int|
                0 <= k < rest.len() && model.spec_item_tokens(#[trigger] rest[k])
                    > MAX_ROLLING_PROMPT_ITEM_TOKENS;
            assert(model.spec_item_tokens(items[k]) > MAX_ROLLING_PROMPT_ITEM_TOKENS);
        }
        if model.spec_item_tokens(items.last()) > MAX_ROLLING_PROMPT_ITEM_TOKENS {
            assert(model.spec_item_tokens(items[items.len() - 1])
                > MAX_ROLLING_PROMPT_ITEM_TOKENS);
        }
    }
}

pub fn validate_prompt_items_within_limit<M: SessionModel>(
    model: &M,
    items: &Vec<ResponseItem>,
) -> (r: Result<(), RollingPromptError>)
    ensures
        r == match first_over_limit(*model, item_views(items@)) {
            Some(item_tokens) => Err::<(), RollingPromptError>(
                RollingPromptError::ItemExceedsLimit {
                    item_tokens,
                    limit_tokens: MAX_ROLLING_PROMPT_ITEM_TOKENS,
                },
            ),
            None => Ok(()),
        },
{
    let ghost all = item_views(items@);
    let mut i: usize = 0;
    assert(all.subrange(0, 0) =~= Seq::<ItemView>::empty());
    while i < items.len()
        invariant
            i <= items@.len(),
            all == item_views(items@),
            first_over_limit(*model, all.subrange(0, i as int)) is None,
        decreases items@.len() - i,
    {
        let item_tokens: i64 = model.item_tokens(&items[i]);
        proof {
            let next = all.subrange(0, i + 1);
            assert(next.drop_last() =~= all.subrange(0, i as int));
            assert(next.last() == items@[i as int]@);
        }
        if item_tokens > MAX_ROLLING_PROMPT_ITEM_TOKENS {
            proof {
                lemma_first_over_limit(*model, all, i + 1);
            }
            return Err(
                RollingPromptError::ItemExceedsLimit {
                    item_tokens,
                    limit_tokens: MAX_ROLLING_PROMPT_ITEM_TOKENS,
                },
            );
        }
        i += 1;
    }
    assert(all.subrange(0, i as int) =~= all);
    Ok(())
}

// ---------------------------------------------------------------------------------------------
// Groups in the form in which they are sent.
// ---------------------------------------------------------------------------------------------

/// A group in the form in which it is sent.
#[derive(Debug)]
pub struct RollingGroup {
    pub raw_start_index: usize,
    pub raw_end_exclusive: usize,
    pub items: Vec<ResponseItem>,
    pub tokens: i64,
}

pub struct GroupView {
    pub start: int,
    pub end: int,
    pub items: Seq<ItemView>,
    pub tokens: i64,
}

impl View for RollingGroup {
    type V = GroupView;

    open spec fn view(&self) -> GroupView {
        GroupView {
            start: self.raw_start_index as int,
            end: self.raw_end_exclusive as int,
            items: item_views(self.items@),
            tokens: self.tokens,
        }
    }
}

pub open spec fn group_views(groups: Seq<RollingGroup>) -> Seq<GroupView> {
    groups.map_values(|g: RollingGroup| g@)
}

/// The error that a group with an item over the limit gives.
pub open spec fn group_limit_error<M: SessionModel>(
    model: M,
    group: GroupView,
) -> RollingPromptError {
    RollingPromptError::ItemExceedsLimit {
        item_tokens: largest_over_limit(model, group.items),
        limit_tokens: MAX_ROLLING_PROMPT_ITEM_TOKENS,
    }
}

impl RollingGroup {
    pub fn item_tokens_exceed_limit<M: SessionModel>(&self, model: &M) -> (r: bool)
        ensures
            r == over_limit(*model, self@.items),
    {
        let ghost all = self@.items;
        let mut i: usize = 0;
        while i < self.items.len()
            invariant
                i <= self.items@.len(),
                all == item_views(self.items@),
                forall|k: int|
                    0 <= k < i ==> model.spec_item_tokens(#[trigger] all[k])
                        <= MAX_ROLLING_PROMPT_ITEM_TOKENS,
            decreases self.items@.len() - i,
        {
            assert(all[i as int] == self.items@[i as int]@);
            if model.item_tokens(&self.items[i]) > MAX_ROLLING_PROMPT_ITEM_TOKENS {
                return true;
            }
            i += 1;
        }
        false
    }

    pub fn item_limit_error<M: SessionModel>(&self, model: &M) -> (error: RollingPromptError)
        ensures
            error == group_limit_error(*model, self@),
    {
        let ghost all = self@.items;
        let mut largest: i64 = MAX_ROLLING_PROMPT_ITEM_TOKENS + 1;
        let mut i: usize = 0;
        assert(all.subrange(0, 0) =~= Seq::<ItemView>::empty());
        while i < self.items.len()
            invariant
                i <= self.items@.len(),
                all == item_views(self.items@),
                largest == largest_over_limit(*model, all.subrange(0, i as int)),
            decreases self.items@.len() - i,
        {
            proof {
                let next = all.subrange(0, i + 1);
                assert(next.drop_last() =~= all.subrange(0, i as int));
                assert(next.last() == self.items@[i as int]@);
            }
            let tokens: i64 = model.item_tokens(&self.items[i]);
            if tokens > largest {
                largest = tokens;
            }
            i += 1;
        }
        assert(all.subrange(0, i as int) =~= all);
        RollingPromptError::ItemExceedsLimit {
            item_tokens: largest,
            limit_tokens: MAX_ROLLING_PROMPT_ITEM_TOKENS,
        }
    }
}

/// The form in which one item of a group is sent: context of a turn is split, anything else is
/// cut down.
pub open spec fn sent_item<M: SessionModel>(
    model: M,
    item: ItemView,
    prefix: Seq<ItemView>,
    tool_output_limit_tokens: nat,
) -> Seq<ItemView> {
    if group_start(model, item, prefix) {
        projected_message(model, item, MAX_ROLLING_PROMPT_ITEM_TOKENS)
    } else {
        seq![
            projected_item(model, item, tool_output_limit_tokens, MAX_ROLLING_PROMPT_ITEM_TOKENS),
        ]
    }
}

pub open spec fn sent_items<M: SessionModel>(
    model: M,
    items: Seq<ItemView>,
    prefix: Seq<ItemView>,
    tool_output_limit_tokens: nat,
) -> Seq<ItemView>
    decreases items.len(),
{
    if items.len() == 0 {
        Seq::empty()
    } else {
        sent_items(model, items.drop_last(), prefix, tool_output_limit_tokens) + sent_item(
            model,
            items.last(),
            prefix,
            tool_output_limit_tokens,
        )
    }
}

/// The groups as they are sent; one of which nothing is sent is left out.
pub open spec fn sent_groups<M: SessionModel>(
    model: M,
    groups: Seq<RawGroupView>,
    modalities: Seq<InputModality>,
    prefix: Seq<ItemView>,
    tool_output_limit_tokens: nat,
) -> Seq<GroupView>
    decreases groups.len(),
{
    if groups.len() == 0 {
        Seq::empty()
    } else {
        let rest = sent_groups(
            model,
            groups.drop_last(),
            modalities,
            prefix,
            tool_output_limit_tokens,
        );
        let group = groups.last();
        let items = sent_items(
            model,
            model.spec_prompt_items(group.items, modalities),
            prefix,
            tool_output_limit_tokens,
        );
        if items.len() == 0 {
            rest
        } else {
            rest.push(
                GroupView {
                    start: group.start,
                    end: group.end,
                    items,
                    tokens: total_tokens(model, items),
                },
            )
        }
    }
}

fn send_items<M: SessionModel>(
    model: &M,
    items: &Vec<ResponseItem>,
    invariant_prefix: &Vec<ResponseItem>,
    tool_output_limit_tokens: usize,
) -> (sent: Vec<ResponseItem>)
    ensures
        item_views(sent@) == sent_items(
            *model,
            item_views(items@),
            item_views(invariant_prefix@),
            tool_output_limit_tokens as nat,
        ),
{
    let ghost all = item_views(items@);
    let ghost prefix = item_views(invariant_prefix@);
    let mut sent: Vec<ResponseItem> = Vec::new();
    let mut i: usize = 0;
    assert(item_views(sent@) =~= sent_items(
        *model,
        all.subrange(0, 0),
        prefix,
        tool_output_limit_tokens as nat,
    ));
    while i < items.len()
        invariant
            i <= items@.len(),
            all == item_views(items@),
            prefix == item_views(invariant_prefix@),
            item_views(sent@) == sent_items(
                *model,
                all.subrange(0, i as int),
                prefix,
                tool_output_limit_tokens as nat,
            ),
        decreases items@.len() - i,
    {
        let mut more: Vec<ResponseItem> = if is_turn_context_group_start(
            model,
            &items[i],
            invariant_prefix,
        ) {
            project_rolling_message_item(model, items[i].clone(), MAX_ROLLING_PROMPT_ITEM_TOKENS)
        } else {
            let mut one: Vec<ResponseItem> = Vec::new();
            let projected = project_rolling_prompt_item(
                model,
                items[i].clone(),
                tool_output_limit_tokens,
                MAX_ROLLING_PROMPT_ITEM_TOKENS,
            );
            one.push(projected);
            assert(item_views(one@) =~= seq![projected@]);
            one
        };
        proof {
            let next = all.subrange(0, i + 1);
            assert(next.drop_last() =~= all.subrange(0, i as int));
            assert(next.last() == items@[i as int]@);
            assert(item_views(sent@ + more@) =~= item_views(sent@) + item_views(more@));
        }
        sent.append(&mut more);
        i += 1;
    }
    assert(all.subrange(0, i as int) =~= all);
    sent
}

pub fn projected_rolling_groups<M: SessionModel>(
    model: &M,
    raw_items: &[ResponseItem],
    raw_start_index: usize,
    input_modalities: &[InputModality],
    invariant_prefix: &Vec<ResponseItem>,
    tool_output_limit_tokens: usize,
) -> (groups: Vec<RollingGroup>)
    ensures
        group_views(groups@) == sent_groups(
            *model,
            groups_from(
                *model,
                item_views(raw_items@),
                0,
                raw_start_index as int,
                item_views(invariant_prefix@),
            ),
            input_modalities@,
            item_views(invariant_prefix@),
            tool_output_limit_tokens as nat,
        ),
{
    let raw_groups = rolling_groups(model, raw_items, raw_start_index, invariant_prefix);
    let ghost all = raw_group_views(raw_groups@);
    let ghost prefix = item_views(invariant_prefix@);
    let mut groups: Vec<RollingGroup> = Vec::new();
    let mut i: usize = 0;
    assert(group_views(groups@) =~= sent_groups(
        *model,
        all.subrange(0, 0),
        input_modalities@,
        prefix,
        tool_output_limit_tokens as nat,
    ));
    while i < raw_groups.len()
        invariant
            i <= raw_groups@.len(),
            all == raw_group_views(raw_groups@),
            prefix == item_views(invariant_prefix@),
            group_views(groups@) == sent_groups(
                *model,
                all.subrange(0, i as int),
                input_modalities@,
                prefix,
                tool_output_limit_tokens as nat,
            ),
        decreases raw_groups@.len() - i,
    {
        let group = &raw_groups[i];
        let prompt = model.prompt_items(clone_items(group.items.as_slice()), input_modalities);
        let items = send_items(model, &prompt, invariant_prefix, tool_output_limit_tokens);
        proof {
            let next = all.subrange(0, i + 1);
            assert(next.drop_last() =~= all.subrange(0, i as int));
            assert(next.last() == group@);
        }
        if items.len() > 0 {
            let ghost before = group_views(groups@);
            let tokens: i64 = estimate_items_tokens(model, items.as_slice());
            let sent = RollingGroup {
                raw_start_index: group.raw_start_index,
                raw_end_exclusive: group.raw_end_exclusive,
                items,
                tokens,
            };
            groups.push(sent);
            assert(group_views(groups@) =~= before.push(sent@));
        }
        i += 1;
    }
    assert(all.subrange(0, i as int) =~= all);
    groups
}

// ---------------------------------------------------------------------------------------------
// Keeping the newest groups.
// ---------------------------------------------------------------------------------------------

/// Walks back from the group before `at` while groups fit: where the kept groups start, and their
/// tokens together.
pub open spec fn kept_groups<M: SessionModel>(
    model: M,
    groups: Seq<GroupView>,
    at: int,
    tokens: i64,
    budget: i64,
) -> (int, i64)
    decreases at,
{
    if at <= 0 || at > groups.len() || over_limit(model, groups[at - 1].items) || saturating(
        tokens + groups[at - 1].tokens,
    ) > budget {
        (at, tokens)
    } else {
        kept_groups(model, groups, at - 1, saturating(tokens + groups[at - 1].tokens), budget)
    }
}

/// The newest groups that fit; an error if even the newest does not.
pub open spec fn newest_groups<M: SessionModel>(
    model: M,
    groups: Seq<GroupView>,
    budget: i64,
) -> Result<(int, i64), RollingPromptError> {
    let len = groups.len() as int;
    let (start, tokens) = kept_groups(model, groups, len, 0, budget);
    if len > 0 && start == len {
        if over_limit(model, groups.last().items) {
            Err(group_limit_error(model, groups.last()))
        } else {
            Err(
                RollingPromptError::FrontierExceedsBudget {
                    frontier_tokens: groups.last().tokens,
                    body_budget: budget,
                },
            )
        }
    } else {
        Ok((start, tokens))
    }
}

pub fn keep_newest_groups<M: SessionModel>(
    model: &M,
    groups: &Vec<RollingGroup>,
    body_budget: i64,
) -> (r: Result<(usize, i64), RollingPromptError>)
    ensures
        match r {
            Ok((start, tokens)) => newest_groups(*model, group_views(groups@), body_budget) == Ok::<
                (int, i64),
                RollingPromptError,
            >((start as int, tokens)) && start <= groups@.len(),
            Err(error) => newest_groups(*model, group_views(groups@), body_budget) == Err::<
                (int, i64),
                RollingPromptError,
            >(error),
        },
{
    let ghost all = group_views(groups@);
    let len: usize = groups.len();
    let mut start: usize = len;
    let mut tokens: i64 = 0;
    let mut over = false;
    while start > 0
        invariant_except_break
            kept_groups(*model, all, start as int, tokens, body_budget) == kept_groups(
                *model,
                all,
                len as int,
                0,
                body_budget,
            ),
        invariant
            all == group_views(groups@),
            len == groups@.len(),
            start <= len,
        ensures
            (start as int, tokens) == kept_groups(*model, all, len as int, 0, body_budget),
            start == len && len > 0 ==> over == over_limit(*model, all[len - 1].items),
        decreases start,
    {
        let group = &groups[start - 1];
        assert(all[start - 1] == group@);
        over = group.item_tokens_exceed_limit(model);
        let sum: i64 = saturating_add(tokens, group.tokens);
        if over || sum > body_budget {
            break;
        }
        tokens = sum;
        start -= 1;
    }
    if len > 0 && start == len {
        let newest = &groups[len - 1];
        assert(all.last() == newest@);
        if over {
            return Err(newest.item_limit_error(model));
        }
        return Err(
            RollingPromptError::FrontierExceedsBudget {
                frontier_tokens: newest.tokens,
                body_budget,
            },
        );
    }
    Ok((start, tokens))
}

/// The items of the groups from `from` on.
pub open spec fn group_items(groups: Seq<GroupView>, from: int) -> Seq<ItemView>
    decreases groups.len(),
{
    if groups.len() == 0 || from >= groups.len() {
        Seq::empty()
    } else {
        group_items(groups.drop_last(), from) + groups.last().items
    }
}

/// Puts the items of the groups from `from` on behind `items`.
pub fn extend_with_groups(items: &mut Vec<ResponseItem>, groups: &Vec<RollingGroup>, from: usize)
    ensures
        item_views(final(items)@) == item_views(old(items)@) + group_items(
            group_views(groups@),
            from as int,
        ),
{
    let ghost all = group_views(groups@);
    let ghost before = item_views(items@);
    let mut i: usize = from;
    if from >= groups.len() {
        assert(item_views(items@) + group_items(all, from as int) =~= item_views(items@));
        return;
    }
    assert(group_items(all.subrange(0, from as int), from as int) =~= Seq::<ItemView>::empty());
    assert(before + group_items(all.subrange(0, from as int), from as int) =~= before);
    while i < groups.len()
        invariant
            from <= i <= groups@.len(),
            all == group_views(groups@),
            item_views(items@) == before + group_items(all.subrange(0, i as int), from as int),
        decreases groups@.len() - i,
    {
        extend_items(items, groups[i].items.as_slice());
        proof {
            let next = all.subrange(0, i + 1);
            assert(next.drop_last() =~= all.subrange(0, i as int));
            assert(next.last() == groups@[i as int]@);
            assert(before + group_items(next, from as int) =~= before + group_items(
                all.subrange(0, i as int),
                from as int,
            ) + groups@[i as int]@.items);
        }
        i += 1;
    }
    assert(all.subrange(0, i as int) =~= all);
}

/// How many items of a range belong to the body.
pub open spec fn body_items<M: SessionModel>(
    model: M,
    raw: Seq<ItemView>,
    from: int,
    to: int,
    prefix: Seq<ItemView>,
) -> nat
    decreases to - from,
{
    if from >= to {
        0
    } else {
        body_items(model, raw, from, to - 1, prefix) + if historical_at(model, raw, to - 1, prefix) {
            0nat
        } else {
            1
        }
    }
}

pub fn count_body_items<M: SessionModel>(
    model: &M,
    raw_items: &[ResponseItem],
    from: usize,
    to: usize,
    invariant_prefix: &Vec<ResponseItem>,
) -> (n: usize)
    requires
        to <= raw_items@.len(),
    ensures
        n == body_items(
            *model,
            item_views(raw_items@),
            from as int,
            to as int,
            item_views(invariant_prefix@),
        ),
{
    let mut n: usize = 0;
    let mut i: usize = from;
    while i < to
        invariant
            to <= raw_items@.len(),
            from <= i,
            i <= to || i == from,
            n <= i - from,
            n == body_items(
                *model,
                item_views(raw_items@),
                from as int,
                i as int,
                item_views(invariant_prefix@),
            ),
        decreases to - i,
    {
        if !is_historical_context_item_at(model, raw_items, i, invariant_prefix) {
            n += 1;
        }
        i += 1;
    }
    n
}

/// The prefix in the form in which it is sent.
pub open spec fn sent_prefix<M: SessionModel>(model: M, prefix: Seq<ItemView>) -> Seq<ItemView>
    decreases prefix.len(),
{
    if prefix.len() == 0 {
        Seq::empty()
    } else {
        sent_prefix(model, prefix.drop_last()) + projected_message(
            model,
            prefix.last(),
            MAX_ROLLING_PROMPT_ITEM_TOKENS,
        )
    }
}

pub fn send_prefix<M: SessionModel>(model: &M, prefix: &Vec<ResponseItem>) -> (sent: Vec<ResponseItem>)
    ensures
        item_views(sent@) == sent_prefix(*model, item_views(prefix@)),
{
    let ghost all = item_views(prefix@);
    let mut sent: Vec<ResponseItem> = Vec::new();
    let mut i: usize = 0;
    assert(item_views(sent@) =~= sent_prefix(*model, all.subrange(0, 0)));
    while i < prefix.len()
        invariant
            i <= prefix@.len(),
            all == item_views(prefix@),
            item_views(sent@) == sent_prefix(*model, all.subrange(0, i as int)),
        decreases prefix@.len() - i,
    {
        let mut more = project_rolling_message_item(
            model,
            prefix[i].clone(),
            MAX_ROLLING_PROMPT_ITEM_TOKENS,
        );
        proof {
            let next = all.subrange(0, i + 1);
            assert(next.drop_last() =~= all.subrange(0, i as int));
            assert(next.last() == prefix@[i as int]@);
            assert(item_views(sent@ + more@) =~= item_views(sent@) + item_views(more@));
        }
        sent.append(&mut more);
        i += 1;
    }
    assert(all.subrange(0, i as int) =~= all);
    sent
}

} // verus!
