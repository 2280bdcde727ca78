//! Building a rolling prompt.

use crate::item::{item_views, ItemView, ResponseItem};
use crate::projection_basis::{is_basis_fingerprint, projection_basis_fingerprint};
use crate::rolling::{
    body_items, count_body_items, extend_with_groups, first_over_limit, group_items, group_views,
    newest_groups, keep_newest_groups, projected_rolling_groups, send_prefix, sent_groups,
    sent_prefix, validate_prompt_items_within_limit, GroupView, ResultView, RollingPromptError,
    RollingPromptResult, MAX_ROLLING_PROMPT_ITEM_TOKENS,
};
use crate::rolling_groups::{groups_from, lemma_group_step, next_index, group_step, RawGroupView};
use crate::rolling_pairwise::{
    build_pairwise_rolling_prompt, groups_within, pairwise_input_view, pairwise_outcome,
    OutcomeView, PairwiseInput, PairwiseInputView, PairwiseRollingPromptParams,
    RollingPromptBuildOutcome,
};
use crate::rolling_prompt_laws::law_synthetic_prompt_needs_no_summary;
use crate::rolling_state::{
    aligned, apply_target_scale, larger, reset_or_clamp_state, rolling_target_tokens,
    scaled_target, target, History, RollingPromptState, StateView,
};
use crate::session_model::{
    estimate_items_tokens, saturating, saturating_add, saturating_sub, total_tokens, InputModality,
    SessionModel,
};
use crate::summary_tree::{NodeView, SummarySource};
use crate::tokens::{approx_token_count, text_tokens};
use vstd::prelude::*;

verus! {

/// What a rolling prompt is built for.
pub struct RollingPromptParams {
    pub input_modalities: Vec<InputModality>,
    pub base_instructions: String,
    pub invariant_prefix: Vec<ResponseItem>,
    pub effective_context_window: Option<i64>,
    pub reserve_percent: Option<u8>,
    pub target_tokens: Option<i64>,
    pub target_scale_percent: Option<u8>,
    pub tool_output_limit_tokens: i64,
    pub pairwise_compaction: Option<PairwiseRollingPromptParams>,
}

pub struct ParamsView {
    pub input_modalities: Seq<InputModality>,
    pub base_instructions: Seq<char>,
    pub prefix: Seq<ItemView>,
    pub effective_context_window: Option<i64>,
    pub reserve_percent: Option<u8>,
    pub target_tokens: Option<i64>,
    pub target_scale_percent: Option<u8>,
    pub tool_output_limit_tokens: i64,
    pub pairwise_compaction: Option<PairwiseRollingPromptParams>,
}

impl View for RollingPromptParams {
    type V = ParamsView;

    open spec fn view(&self) -> ParamsView {
        ParamsView {
            input_modalities: self.input_modalities@,
            base_instructions: self.base_instructions@,
            prefix: item_views(self.invariant_prefix@),
            effective_context_window: self.effective_context_window,
            reserve_percent: self.reserve_percent,
            target_tokens: self.target_tokens,
            target_scale_percent: self.target_scale_percent,
            tool_output_limit_tokens: self.tool_output_limit_tokens,
            pairwise_compaction: self.pairwise_compaction,
        }
    }
}

/// The state that a prompt starts from: in line with the history, and on another basis without
/// summaries. With pairwise summaries another basis starts at the first item again.
pub open spec fn starting_state(
    state: StateView,
    version: u64,
    raw_len: usize,
    fingerprint: u64,
    pairwise: bool,
) -> StateView {
    let start = aligned(state, version, raw_len);
    if start.projection_basis_fingerprint == fingerprint {
        start
    } else {
        StateView {
            projection_basis_fingerprint: fingerprint,
            pairwise_summaries: Seq::empty(),
            raw_history_start_index: if pairwise {
                0
            } else {
                start.raw_history_start_index
            },
            ..start
        }
    }
}

/// The tokens of a text, as far as an `i64` reaches.
pub open spec fn instruction_tokens(text: Seq<char>) -> i64 {
    saturating(text_tokens(text) as int)
}

pub fn estimate_base_instructions_tokens(text: &str) -> (tokens: i64)
    ensures
        tokens == instruction_tokens(text@),
{
    let tokens: usize = approx_token_count(text);
    if tokens as u64 <= i64::MAX as u64 {
        tokens as i64
    } else {
        i64::MAX
    }
}

/// The limit on a tool output: at least one token, at most the item limit.
pub open spec fn output_limit(tool_output_limit_tokens: i64) -> nat {
    if tool_output_limit_tokens < 1 {
        1
    } else if tool_output_limit_tokens > MAX_ROLLING_PROMPT_ITEM_TOKENS {
        MAX_ROLLING_PROMPT_ITEM_TOKENS as nat
    } else {
        tool_output_limit_tokens as nat
    }
}

/// The groups that may go into the prompt.
pub open spec fn candidate_groups<M: SessionModel>(
    model: M,
    raw: Seq<ItemView>,
    cursor: usize,
    params: ParamsView,
) -> Seq<GroupView> {
    sent_groups(
        model,
        groups_from(model, raw, 0, cursor as int, params.prefix),
        params.input_modalities,
        params.prefix,
        output_limit(params.tool_output_limit_tokens),
    )
}

/// The prompt of the newest groups.
pub open spec fn newest_result<M: SessionModel>(
    model: M,
    input: PairwiseInputView,
    start: int,
    tokens: i64,
) -> ResultView {
    let first = if start < input.groups.len() {
        input.groups[start].start as usize
    } else {
        input.raw.len() as usize
    };
    let cursor = larger(input.state.raw_history_start_index, first);
    ResultView {
        prompt_input: input.sent_prefix + group_items(input.groups, start),
        estimated_prompt_tokens: saturating(input.pinned_tokens + tokens),
        dropped_body_items: body_items(
            model,
            input.raw,
            input.state.raw_history_start_index as int,
            cursor as int,
            input.prefix,
        ),
        raw_history_start_index: cursor,
        target_tokens: input.target,
        backoff_applied: input.backoff_applied,
        projected_state: StateView { raw_history_start_index: cursor, ..input.state },
    }
}

pub open spec fn prompt_target(window: i64, params: ParamsView) -> i64 {
    scaled_target(
        target(window, params.reserve_percent, params.target_tokens),
        params.target_scale_percent,
    )
}

/// The tokens that every request carries.
pub open spec fn pinned<M: SessionModel>(model: M, params: ParamsView) -> i64 {
    saturating(
        instruction_tokens(params.base_instructions) + total_tokens(
            model,
            sent_prefix(model, params.prefix),
        ),
    )
}

/// What the body is built from.
pub open spec fn prompt_input<M: SessionModel>(
    model: M,
    raw: Seq<ItemView>,
    version: u64,
    state: StateView,
    params: ParamsView,
    fingerprint: u64,
    window: i64,
) -> PairwiseInputView {
    let start = starting_state(
        state,
        version,
        raw.len() as usize,
        fingerprint,
        params.pairwise_compaction is Some,
    );
    PairwiseInputView {
        raw,
        prefix: params.prefix,
        sent_prefix: sent_prefix(model, params.prefix),
        state: start,
        groups: candidate_groups(model, raw, start.raw_history_start_index, params),
        pinned_tokens: pinned(model, params),
        body_budget: saturating(prompt_target(window, params) - pinned(model, params)),
        target: prompt_target(window, params),
        backoff_applied: match params.target_scale_percent {
            Some(percent) => percent < 100,
            None => false,
        },
    }
}

/// What building a prompt comes to, given the fingerprint of what it is built on.
pub open spec fn rolling_outcome<M: SessionModel>(
    model: M,
    raw: Seq<ItemView>,
    version: u64,
    state: StateView,
    params: ParamsView,
    fingerprint: u64,
    source: SummarySource,
) -> Result<OutcomeView, RollingPromptError> {
    match params.effective_context_window {
        None => Err(RollingPromptError::NoContextWindow),
        Some(window) => if window <= 0 {
            Err(RollingPromptError::NoContextWindow)
        } else {
            match first_over_limit(model, sent_prefix(model, params.prefix)) {
                Some(item_tokens) => Err(
                    RollingPromptError::ItemExceedsLimit {
                        item_tokens,
                        limit_tokens: MAX_ROLLING_PROMPT_ITEM_TOKENS,
                    },
                ),
                None => {
                    let input = prompt_input(model, raw, version, state, params, fingerprint, window);
                    if input.pinned_tokens >= input.target {
                        Err(
                            RollingPromptError::InvariantPrefixExceedsTarget {
                                pinned_tokens: input.pinned_tokens,
                                target_tokens: input.target,
                            },
                        )
                    } else {
                        match params.pairwise_compaction {
                            Some(pairwise) => pairwise_outcome(model, input, pairwise, source),
                            None => match newest_groups(model, input.groups, input.body_budget) {
                                Err(error) => Err(error),
                                Ok((start, tokens)) => Ok(
                                    OutcomeView::Ready(newest_result(model, input, start, tokens)),
                                ),
                            },
                        }
                    }
                },
            }
        },
    }
}

/// Every group lies within the history.
pub open spec fn raw_groups_within(groups: Seq<RawGroupView>, len: int) -> bool {
    forall|i: int|
        0 <= i < groups.len() ==> 0 <= (#[trigger] groups[i]).start < groups[i].end <= len
}

pub proof fn lemma_groups_from_within<M: SessionModel>(
    model: M,
    raw: Seq<ItemView>,
    index: int,
    cursor: int,
    prefix: Seq<ItemView>,
)
    requires
        0 <= index,
    ensures
        raw_groups_within(groups_from(model, raw, index, cursor, prefix), raw.len() as int),
    decreases raw.len() - index,
{
    if index < raw.len() {
        lemma_group_step(model, raw, index, cursor, prefix);
        let next = next_index(model, raw, index, cursor, prefix);
        lemma_groups_from_within(model, raw, next, cursor, prefix);
        let rest = groups_from(model, raw, next, cursor, prefix);
        let all = groups_from(model, raw, index, cursor, prefix);
        if let Some(group) = group_step(model, raw, index, prefix).0 {
            if index >= cursor {
                assert forall|i: int| 0 <= i < all.len() implies 0 <= (#[trigger] all[i]).start
                    < all[i].end <= raw.len() by {
                    if i > 0 {
                        assert(all[i] == rest[i - 1]);
                    }
                }
            }
        }
    }
}

pub proof fn lemma_sent_groups_within<M: SessionModel>(
    model: M,
    groups: Seq<RawGroupView>,
    modalities: Seq<InputModality>,
    prefix: Seq<ItemView>,
    limit: nat,
    len: int,
)
    requires
        raw_groups_within(groups, len),
    ensures
        groups_within(sent_groups(model, groups, modalities, prefix, limit), len),
    decreases groups.len(),
{
    if groups.len() > 0 {
        let fewer = groups.drop_last();
        assert(raw_groups_within(fewer, len)) by {
            assert forall|i: int| 0 <= i < fewer.len() implies 0 <= (#[trigger] fewer[i]).start
                < fewer[i].end <= len by {
                assert(fewer[i] == groups[i]);
            }
        }
        lemma_sent_groups_within(model, fewer, modalities, prefix, limit, len);
        let rest = sent_groups(model, fewer, modalities, prefix, limit);
        let all = sent_groups(model, groups, modalities, prefix, limit);
        assert(groups[groups.len() - 1].start < groups[groups.len() - 1].end);
        assert forall|i: int| 0 <= i < all.len() implies 0 <= (#[trigger] all[i]).start
            < all[i].end <= len by {
            if i < rest.len() {
                assert(all[i] == rest[i]);
            }
        }
    }
}

fn start_state(
    history: &History,
    state: &RollingPromptState,
    fingerprint: u64,
    pairwise: bool,
) -> (r: RollingPromptState)
    ensures
        r@ == starting_state(
            state@,
            history.version,
            history.raw_items@.len() as usize,
            fingerprint,
            pairwise,
        ),
        r.raw_history_start_index <= history.raw_items@.len(),
{
    let len: usize = history.raw_items.len();
    let mut start = state.clone();
    reset_or_clamp_state(history, &mut start);
    if start.projection_basis_fingerprint != fingerprint {
        start.projection_basis_fingerprint = fingerprint;
        start.pairwise_summaries = Vec::new();
        if pairwise {
            start.raw_history_start_index = 0;
        }
        assert(start@.pairwise_summaries =~= Seq::<NodeView>::empty());
    }
    start
}

fn tool_output_limit(tool_output_limit_tokens: i64) -> (limit: usize)
    ensures
        limit == output_limit(tool_output_limit_tokens),
{
    if tool_output_limit_tokens < 1 {
        1
    } else if tool_output_limit_tokens > MAX_ROLLING_PROMPT_ITEM_TOKENS {
        MAX_ROLLING_PROMPT_ITEM_TOKENS as usize
    } else {
        tool_output_limit_tokens as usize
    }
}

fn build_newest_prompt<M: SessionModel>(
    model: &M,
    history: &History,
    input: PairwiseInput,
) -> (r: Result<RollingPromptResult, RollingPromptError>)
    requires
        groups_within(group_views(input.groups@), history.raw_items@.len() as int),
        input.projected_state.raw_history_start_index <= history.raw_items@.len(),
    ensures
        ({
            let view = pairwise_input_view(*history, input);
            match newest_groups(*model, view.groups, view.body_budget) {
                Err(error) => r == Err::<RollingPromptResult, RollingPromptError>(error),
                Ok((start, tokens)) => r is Ok && r->Ok_0@ == newest_result(
                    *model,
                    view,
                    start,
                    tokens,
                ),
            }
        }),
{
    let ghost view = pairwise_input_view(*history, input);
    let len: usize = history.raw_items.len();
    let groups = input.groups;
    let (start, tokens): (usize, i64) = match keep_newest_groups(
        model,
        &groups,
        input.body_budget,
    ) {
        Ok(kept) => kept,
        Err(error) => {
            return Err(error);
        },
    };
    let first: usize = if start < groups.len() {
        assert(view.groups[start as int] == groups@[start as int]@);
        groups[start].raw_start_index
    } else {
        len
    };
    let mut state = input.projected_state;
    let old_start: usize = state.raw_history_start_index;
    let cursor: usize = if old_start >= first {
        old_start
    } else {
        first
    };
    let dropped: usize = count_body_items(
        model,
        history.raw_items.as_slice(),
        old_start,
        cursor,
        &input.invariant_prefix,
    );
    let mut prompt = input.projected_invariant_prefix;
    extend_with_groups(&mut prompt, &groups, start);
    state.raw_history_start_index = cursor;
    Ok(
        RollingPromptResult {
            prompt_input: prompt,
            estimated_prompt_tokens: saturating_add(input.pinned_tokens, tokens),
            dropped_body_items: dropped,
            raw_history_start_index: cursor,
            target_tokens: input.target,
            backoff_applied: input.backoff_applied,
            projected_state: state,
        },
    )
}

/// Builds a prompt, given the fingerprint of what it is built on.
pub fn build_rolling_prompt_on_basis<M: SessionModel>(
    model: &M,
    history: &History,
    state: &RollingPromptState,
    params: RollingPromptParams,
    fingerprint: u64,
    source: SummarySource,
) -> (r: Result<RollingPromptBuildOutcome, RollingPromptError>)
    ensures
        match r {
            Ok(outcome) => rolling_outcome(
                *model,
                item_views(history.raw_items@),
                history.version,
                state@,
                params@,
                fingerprint,
                source,
            ) == Ok::<OutcomeView, RollingPromptError>(outcome@),
            Err(error) => rolling_outcome(
                *model,
                item_views(history.raw_items@),
                history.version,
                state@,
                params@,
                fingerprint,
                source,
            ) == Err::<OutcomeView, RollingPromptError>(error),
        },
{
    let ghost raw = item_views(history.raw_items@);
    let ghost view = params@;
    let window: i64 = match params.effective_context_window {
        None => {
            return Err(RollingPromptError::NoContextWindow);
        },
        Some(window) => window,
    };
    if window <= 0 {
        return Err(RollingPromptError::NoContextWindow);
    }
    let len: usize = history.raw_items.len();
    let invariant_prefix = params.invariant_prefix;
    let sent = send_prefix(model, &invariant_prefix);
    if let Err(error) = validate_prompt_items_within_limit(model, &sent) {
        return Err(error);
    }
    let start = start_state(
        history,
        state,
        fingerprint,
        params.pairwise_compaction.is_some(),
    );
    let aim: i64 = apply_target_scale(
        rolling_target_tokens(window, params.reserve_percent, params.target_tokens),
        params.target_scale_percent,
    );
    let backoff_applied = match params.target_scale_percent {
        Some(percent) => percent < 100,
        None => false,
    };
    let pinned_tokens: i64 = saturating_add(
        estimate_base_instructions_tokens(params.base_instructions.as_str()),
        estimate_items_tokens(model, sent.as_slice()),
    );
    if pinned_tokens >= aim {
        return Err(
            RollingPromptError::InvariantPrefixExceedsTarget { pinned_tokens, target_tokens: aim },
        );
    }
    let groups = projected_rolling_groups(
        model,
        history.raw_items.as_slice(),
        start.raw_history_start_index,
        params.input_modalities.as_slice(),
        &invariant_prefix,
        tool_output_limit(params.tool_output_limit_tokens),
    );
    proof {
        let cursor = start.raw_history_start_index as int;
        lemma_groups_from_within(*model, raw, 0, cursor, view.prefix);
        lemma_sent_groups_within(
            *model,
            groups_from(*model, raw, 0, cursor, view.prefix),
            view.input_modalities,
            view.prefix,
            output_limit(view.tool_output_limit_tokens),
            raw.len() as int,
        );
    }
    let input = PairwiseInput {
        projected_state: start,
        groups,
        pinned_tokens,
        body_budget: saturating_sub(aim, pinned_tokens),
        target: aim,
        backoff_applied,
        invariant_prefix,
        projected_invariant_prefix: sent,
    };
    assert(pairwise_input_view(*history, input) == prompt_input(
        *model,
        raw,
        history.version,
        state@,
        view,
        fingerprint,
        window,
    ));
    match params.pairwise_compaction {
        Some(pairwise) => build_pairwise_rolling_prompt(model, history, input, pairwise, source),
        None => match build_newest_prompt(model, history, input) {
            Ok(result) => Ok(RollingPromptBuildOutcome::Ready(result)),
            Err(error) => Err(error),
        },
    }
}

/// What an attempt to build a prompt comes to, as a view.
pub open spec fn result_of(
    r: Result<RollingPromptBuildOutcome, RollingPromptError>,
) -> Result<OutcomeView, RollingPromptError> {
    match r {
        Ok(outcome) => Ok(outcome@),
        Err(error) => Err(error),
    }
}

/// Builds a prompt; summaries that nobody wrote yet are made up. Whatever the fingerprint of the
/// basis comes out as, the outcome is the one that belongs to it.
pub fn build_rolling_prompt<M: SessionModel>(
    model: &M,
    history: &History,
    state: &RollingPromptState,
    params: RollingPromptParams,
) -> (r: Result<RollingPromptResult, RollingPromptError>)
    ensures
        exists|fingerprint: u64| #[trigger]
            is_basis_fingerprint(*model, params@, fingerprint) && rolling_outcome(
                *model,
                item_views(history.raw_items@),
                history.version,
                state@,
                params@,
                fingerprint,
                SummarySource::Synthetic,
            ) == match r {
                Ok(result) => Ok::<OutcomeView, RollingPromptError>(OutcomeView::Ready(result@)),
                Err(error) => Err::<OutcomeView, RollingPromptError>(error),
            },
{
    let ghost view = params@;
    let fingerprint: u64 = projection_basis_fingerprint(model, &params);
    proof {
        law_synthetic_prompt_needs_no_summary(
            *model,
            item_views(history.raw_items@),
            history.version,
            state@,
            view,
            fingerprint,
        );
    }
    match build_rolling_prompt_on_basis(
        model,
        history,
        state,
        params,
        fingerprint,
        SummarySource::Synthetic,
    ) {
        Ok(RollingPromptBuildOutcome::Ready(result)) => Ok(result),
        Ok(RollingPromptBuildOutcome::NeedsPairSummary { request: _, projected_state: _ }) => {
            Err(RollingPromptError::NoContextWindow)
        },
        Err(error) => Err(error),
    }
}

/// Builds a prompt, or names the summary that must be written first. Whatever the fingerprint of
/// the basis comes out as, the outcome is the one that belongs to it.
pub fn build_rolling_prompt_with_live_summaries<M: SessionModel>(
    model: &M,
    history: &History,
    state: &RollingPromptState,
    params: RollingPromptParams,
) -> (r: Result<RollingPromptBuildOutcome, RollingPromptError>)
    ensures
        exists|fingerprint: u64| #[trigger]
            is_basis_fingerprint(*model, params@, fingerprint) && rolling_outcome(
                *model,
                item_views(history.raw_items@),
                history.version,
                state@,
                params@,
                fingerprint,
                SummarySource::Required,
            ) == result_of(r),
{
    let fingerprint: u64 = projection_basis_fingerprint(model, &params);
    build_rolling_prompt_on_basis(
        model,
        history,
        state,
        params,
        fingerprint,
        SummarySource::Required,
    )
}

} // verus!
