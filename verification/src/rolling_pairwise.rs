//! Rolling prompts with pairwise summaries: the newest groups stay exact, older ones are folded
//! into summaries until the body fits.

use crate::item::{clone_items, extend_items, item_views, ItemView, ResponseItem};
use crate::rolling::{
    body_items, count_body_items, group_limit_error, group_views, over_limit, GroupView, ResultView,
    RollingGroup, RollingPromptError, RollingPromptResult, MAX_ROLLING_PROMPT_ITEM_TOKENS,
};
use crate::rolling_state::{
    clone_nodes, divided, larger, saturating_mul, truncating_div, with_summary, History,
    RollingPromptState, StateView,
};
use crate::session_model::{saturating, saturating_add, SessionModel};
use crate::summary_tree::{
    compaction, coverage_label_text, node_views, single_fold, spec_levels_from_nodes, summaries_of,
    summary_item, total_nodes, visible, CoverageInterval, MissingView, NodeView,
    PairwiseCompactionSettings, PairwiseMissingSummary, PairwiseNode, PairwiseNodeKind,
    PairwiseSummaryTree, SummarySource,
};
use crate::summary_tree_laws::{lemma_single_fold_total, lemma_synthetic_compaction_completes};
use crate::text::decimal_text;
use vstd::prelude::*;
use vstd::string::*;

verus! {

/// How a prompt is summarised.
#[derive(Debug, Clone, Copy, PartialEq, Eq, Hash, Structural)]
pub struct PairwiseRollingPromptParams {
    /// Tokens of the newest groups that stay exact; by default two thirds of the body budget.
    pub protected_hot_exact_tokens: Option<i64>,
    pub summary_group_token_cap: usize,
    /// No summary group shows more tokens than this, whatever its cap.
    pub summary_group_token_cap_max: usize,
    pub max_summary_levels: u8,
    pub compact_when_level_group_count_gt: usize,
}

/// A summary that must be written before the prompt can be built.
#[derive(Debug, PartialEq)]
pub struct PairwiseSummaryRequest {
    pub input: Vec<ResponseItem>,
    pub raw_start_index: usize,
    pub raw_end_exclusive: usize,
    pub level: u8,
    pub token_estimate: i64,
}

pub struct RequestView {
    pub input: Seq<ItemView>,
    pub raw_start_index: usize,
    pub raw_end_exclusive: usize,
    pub level: u8,
    pub token_estimate: i64,
}

impl View for PairwiseSummaryRequest {
    type V = RequestView;

    open spec fn view(&self) -> RequestView {
        RequestView {
            input: item_views(self.input@),
            raw_start_index: self.raw_start_index,
            raw_end_exclusive: self.raw_end_exclusive,
            level: self.level,
            token_estimate: self.token_estimate,
        }
    }
}

/// The range that a request covers.
pub open spec fn request_coverage(request: RequestView) -> CoverageInterval {
    CoverageInterval {
        raw_start_index: request.raw_start_index,
        raw_end_exclusive: request.raw_end_exclusive,
    }
}

/// The summary node that an answered request makes.
pub open spec fn answered(request: RequestView, summary_text: Seq<char>) -> NodeView {
    NodeView {
        coverage: request_coverage(request),
        level: request.level,
        kind: PairwiseNodeKind::Summary,
        token_estimate: request.token_estimate,
        summary_text: Some(summary_text),
    }
}

impl PairwiseSummaryRequest {
    pub fn coverage_label(&self) -> (label: String)
        ensures
            label@ == coverage_label_text(request_coverage(self@)),
    {
        let mut label = String::from_str("raw[");
        label.append(decimal_text(self.raw_start_index as u64).as_str());
        label.append("..");
        label.append(decimal_text(self.raw_end_exclusive as u64).as_str());
        label.append(")");
        label
    }

    /// Adds the answer to the state's summaries; the cursor stays.
    pub fn add_to_summary_cache(self, state: &mut RollingPromptState, summary_text: String)
        requires
            self.raw_start_index < self.raw_end_exclusive,
        ensures
            final(state)@ == (StateView {
                pairwise_summaries: with_summary(
                    old(state)@.pairwise_summaries,
                    answered(self@, summary_text@),
                ),
                ..old(state)@
            }),
    {
        state.add_pairwise_summary(
            PairwiseNode::summary_with_text(
                CoverageInterval::new(self.raw_start_index, self.raw_end_exclusive),
                self.level,
                self.token_estimate,
                summary_text,
            ),
        );
    }

    /// Adds the answer to the state's summaries and moves the cursor behind what it covers.
    pub fn add_to_projected_state(self, state: &mut RollingPromptState, summary_text: String)
        requires
            self.raw_start_index < self.raw_end_exclusive,
        ensures
            final(state)@ == (StateView {
                raw_history_start_index: larger(
                    old(state)@.raw_history_start_index,
                    self.raw_end_exclusive,
                ),
                pairwise_summaries: with_summary(
                    old(state)@.pairwise_summaries,
                    answered(self@, summary_text@),
                ),
                ..old(state)@
            }),
    {
        if state.raw_history_start_index < self.raw_end_exclusive {
            state.raw_history_start_index = self.raw_end_exclusive;
        }
        self.add_to_summary_cache(state, summary_text);
    }
}

// ---------------------------------------------------------------------------------------------
// The exact part.
// ---------------------------------------------------------------------------------------------

/// Two thirds of the body, and never more than 160,000 tokens.
pub open spec fn default_protected_tokens(body_budget: i64) -> i64 {
    let share = truncating_div(saturating(body_budget * 2) as int, 3);
    if share <= 160_000 {
        share as i64
    } else {
        160_000
    }
}

pub fn default_protected_hot_exact_tokens(body_budget: i64) -> (r: i64)
    ensures
        r == default_protected_tokens(body_budget),
{
    let share: i64 = divided(saturating_mul(body_budget, 2), 3);
    if share <= 160_000 {
        share
    } else {
        160_000
    }
}

/// Where the exact groups start: walking back from `at`, whole groups are taken until their tokens
/// reach the protected amount.
pub open spec fn hot_start(groups: Seq<GroupView>, at: int, tokens: i64, protected: i64) -> int
    decreases at,
{
    if at <= 0 || at > groups.len() || tokens >= protected {
        at
    } else {
        hot_start(groups, at - 1, saturating(tokens + groups[at - 1].tokens), protected)
    }
}

fn protected_hot_start_index(groups: &Vec<RollingGroup>, protected_hot_exact_tokens: i64) -> (r:
    usize)
    ensures
        r == hot_start(
            group_views(groups@),
            groups@.len() as int,
            0,
            protected_hot_exact_tokens,
        ),
        r <= groups@.len(),
{
    let ghost all = group_views(groups@);
    let len: usize = groups.len();
    let mut index: usize = len;
    let mut tokens: i64 = 0;
    while index > 0 && tokens < protected_hot_exact_tokens
        invariant
            all == group_views(groups@),
            len == groups@.len(),
            index <= len,
            hot_start(all, index as int, tokens, protected_hot_exact_tokens) == hot_start(
                all,
                len as int,
                0,
                protected_hot_exact_tokens,
            ),
        decreases index,
    {
        assert(all[index - 1] == groups@[index - 1]@);
        index -= 1;
        tokens = saturating_add(tokens, groups[index].tokens);
    }
    index
}

// ---------------------------------------------------------------------------------------------
// The body of a prompt.
// ---------------------------------------------------------------------------------------------

/// The first group, from `from` on, with exactly this range.
pub open spec fn group_of(
    groups: Seq<GroupView>,
    coverage: CoverageInterval,
    from: int,
) -> Option<GroupView>
    decreases groups.len() - from,
{
    if from < 0 || from >= groups.len() {
        None
    } else if groups[from].start == coverage.raw_start_index && groups[from].end
        == coverage.raw_end_exclusive {
        Some(groups[from])
    } else {
        group_of(groups, coverage, from + 1)
    }
}

fn find_group(groups: &Vec<RollingGroup>, count: usize, coverage: CoverageInterval) -> (r: Option<
    usize,
>)
    requires
        count <= groups@.len(),
    ensures
        match r {
            Some(i) => i < count && group_of(
                group_views(groups@).subrange(0, count as int),
                coverage,
                0,
            ) == Some(groups@[i as int]@),
            None => group_of(group_views(groups@).subrange(0, count as int), coverage, 0) is None,
        },
{
    let ghost cold = group_views(groups@).subrange(0, count as int);
    let mut i: usize = 0;
    while i < count
        invariant
            i <= count <= groups@.len(),
            cold == group_views(groups@).subrange(0, count as int),
            group_of(cold, coverage, i as int) == group_of(cold, coverage, 0),
        decreases count - i,
    {
        assert(cold[i as int] == groups@[i as int]@);
        if groups[i].raw_start_index == coverage.raw_start_index && groups[i].raw_end_exclusive
            == coverage.raw_end_exclusive {
            return Some(i);
        }
        i += 1;
    }
    None
}

/// A body: its items, their tokens, and the first raw index that it shows exactly.
pub struct PromptBodyView {
    pub items: Seq<ItemView>,
    pub tokens: i64,
    pub first_exact: Option<int>,
}

pub open spec fn earliest(first: Option<int>, start: int) -> Option<int> {
    match first {
        Some(known) => Some(
            if known <= start {
                known
            } else {
                start
            },
        ),
        None => Some(start),
    }
}

/// The body with a group behind it.
pub open spec fn body_with_group(body: PromptBodyView, group: GroupView) -> PromptBodyView {
    PromptBodyView {
        items: body.items + group.items,
        tokens: saturating(body.tokens + group.tokens),
        first_exact: earliest(body.first_exact, group.start),
    }
}

/// The body that the nodes make: a summary shows its message, a raw node its group.
pub open spec fn nodes_body<M: SessionModel>(
    model: M,
    nodes: Seq<NodeView>,
    cold: Seq<GroupView>,
    cap: nat,
    cap_max: nat,
) -> Result<PromptBodyView, RollingPromptError>
    decreases nodes.len(),
{
    if nodes.len() == 0 {
        Ok(PromptBodyView { items: Seq::empty(), tokens: 0, first_exact: None })
    } else {
        match nodes_body(model, nodes.drop_last(), cold, cap, cap_max) {
            Err(error) => Err(error),
            Ok(body) => match nodes.last().kind {
                PairwiseNodeKind::Summary => {
                    let item = summary_item(nodes.last(), cap, cap_max);
                    let tokens = model.spec_item_tokens(item);
                    if tokens > MAX_ROLLING_PROMPT_ITEM_TOKENS {
                        Err(
                            RollingPromptError::ItemExceedsLimit {
                                item_tokens: tokens,
                                limit_tokens: MAX_ROLLING_PROMPT_ITEM_TOKENS,
                            },
                        )
                    } else {
                        Ok(
                            PromptBodyView {
                                items: body.items.push(item),
                                tokens: saturating(body.tokens + tokens),
                                first_exact: body.first_exact,
                            },
                        )
                    }
                },
                PairwiseNodeKind::Raw => match group_of(cold, nodes.last().coverage, 0) {
                    None => Ok(body),
                    Some(group) => if over_limit(model, group.items) {
                        Err(group_limit_error(model, group))
                    } else {
                        Ok(body_with_group(body, group))
                    },
                },
            },
        }
    }
}

/// The body with the exact groups behind it.
pub open spec fn body_with_groups(body: PromptBodyView, groups: Seq<GroupView>) -> PromptBodyView
    decreases groups.len(),
{
    if groups.len() == 0 {
        body
    } else {
        body_with_group(body_with_groups(body, groups.drop_last()), groups.last())
    }
}

/// The whole body: the nodes of the tree, then the groups from `hot` on.
pub open spec fn prompt_body<M: SessionModel>(
    model: M,
    levels: Seq<Seq<NodeView>>,
    groups: Seq<GroupView>,
    hot: int,
    cap: nat,
    cap_max: nat,
) -> Result<PromptBodyView, RollingPromptError> {
    match nodes_body(model, visible(levels), groups.subrange(0, hot), cap, cap_max) {
        Err(error) => Err(error),
        Ok(body) => Ok(body_with_groups(body, groups.subrange(hot, groups.len() as int))),
    }
}

proof fn lemma_nodes_body_error<M: SessionModel>(
    model: M,
    nodes: Seq<NodeView>,
    upto: int,
    cold: Seq<GroupView>,
    cap: nat,
    cap_max: nat,
)
    requires
        0 <= upto <= nodes.len(),
        nodes_body(model, nodes.subrange(0, upto), cold, cap, cap_max) is Err,
    ensures
        nodes_body(model, nodes, cold, cap, cap_max) == nodes_body(
            model,
            nodes.subrange(0, upto),
            cold,
            cap,
            cap_max,
        ),
    decreases nodes.len(),
{
    if upto == nodes.len() {
        assert(nodes.subrange(0, upto) =~= nodes);
    } else {
        assert(nodes.drop_last().subrange(0, upto) =~= nodes.subrange(0, upto));
        lemma_nodes_body_error(model, nodes.drop_last(), upto, cold, cap, cap_max);
    }
}

struct ProjectedPairwisePromptBody {
    items: Vec<ResponseItem>,
    body_tokens: i64,
    first_exact_raw_start: Option<usize>,
}

spec fn option_int(value: Option<usize>) -> Option<int> {
    match value {
        Some(v) => Some(v as int),
        None => None,
    }
}

impl View for ProjectedPairwisePromptBody {
    type V = PromptBodyView;

    closed spec fn view(&self) -> PromptBodyView {
        PromptBodyView {
            items: item_views(self.items@),
            tokens: self.body_tokens,
            first_exact: option_int(self.first_exact_raw_start),
        }
    }
}

fn add_group_to_body(body: &mut ProjectedPairwisePromptBody, group: &RollingGroup)
    ensures
        final(body)@ == body_with_group(old(body)@, group@),
{
    extend_items(&mut body.items, group.items.as_slice());
    body.body_tokens = saturating_add(body.body_tokens, group.tokens);
    body.first_exact_raw_start = match body.first_exact_raw_start {
        Some(start) => Some(
            if start <= group.raw_start_index {
                start
            } else {
                group.raw_start_index
            },
        ),
        None => Some(group.raw_start_index),
    };
}

fn project_prompt_body<M: SessionModel>(
    model: &M,
    tree: &PairwiseSummaryTree,
    groups: &Vec<RollingGroup>,
    hot: usize,
    summary_group_token_cap: usize,
    summary_group_token_cap_max: usize,
) -> (r: Result<ProjectedPairwisePromptBody, RollingPromptError>)
    requires
        hot <= groups@.len(),
    ensures
        match r {
            Ok(body) => prompt_body(
                *model,
                tree@,
                group_views(groups@),
                hot as int,
                summary_group_token_cap as nat,
                summary_group_token_cap_max as nat,
            ) == Ok::<PromptBodyView, RollingPromptError>(body@),
            Err(error) => prompt_body(
                *model,
                tree@,
                group_views(groups@),
                hot as int,
                summary_group_token_cap as nat,
                summary_group_token_cap_max as nat,
            ) == Err::<PromptBodyView, RollingPromptError>(error),
        },
{
    let ghost all = group_views(groups@);
    let ghost cold = all.subrange(0, hot as int);
    let ghost cap = summary_group_token_cap as nat;
    let ghost cap_max = summary_group_token_cap_max as nat;
    let nodes = tree.visible_nodes();
    let ghost views = node_views(nodes@);
    let mut body = ProjectedPairwisePromptBody {
        items: Vec::new(),
        body_tokens: 0,
        first_exact_raw_start: None,
    };
    let mut i: usize = 0;
    proof {
        assert(body@.items =~= Seq::<ItemView>::empty());
        assert(views.subrange(0, 0) =~= Seq::<NodeView>::empty());
    }
    while i < nodes.len()
        invariant
            i <= nodes@.len(),
            hot <= groups@.len(),
            views == node_views(nodes@),
            views == visible(tree@),
            all == group_views(groups@),
            cold == all.subrange(0, hot as int),
            cap == summary_group_token_cap,
            cap_max == summary_group_token_cap_max,
            nodes_body(*model, views.subrange(0, i as int), cold, cap, cap_max) == Ok::<
                PromptBodyView,
                RollingPromptError,
            >(body@),
        decreases nodes@.len() - i,
    {
        let node = &nodes[i];
        proof {
            let next = views.subrange(0, i + 1);
            assert(next.drop_last() =~= views.subrange(0, i as int));
            assert(next.last() == node@);
        }
        match node.kind {
            PairwiseNodeKind::Summary => {
                if let Some(item) = node.summary_response_item(
                    summary_group_token_cap,
                    summary_group_token_cap_max,
                ) {
                    let item_tokens: i64 = model.item_tokens(&item);
                    if item_tokens > MAX_ROLLING_PROMPT_ITEM_TOKENS {
                        proof {
                            lemma_nodes_body_error(*model, views, i + 1, cold, cap, cap_max);
                        }
                        return Err(
                            RollingPromptError::ItemExceedsLimit {
                                item_tokens,
                                limit_tokens: MAX_ROLLING_PROMPT_ITEM_TOKENS,
                            },
                        );
                    }
                    let ghost before = body@;
                    body.body_tokens = saturating_add(body.body_tokens, item_tokens);
                    body.items.push(item);
                    assert(body@.items =~= before.items.push(item@));
                }
            },
            PairwiseNodeKind::Raw => {
                if let Some(at) = find_group(groups, hot, node.coverage) {
                    if groups[at].item_tokens_exceed_limit(model) {
                        proof {
                            lemma_nodes_body_error(*model, views, i + 1, cold, cap, cap_max);
                        }
                        return Err(groups[at].item_limit_error(model));
                    }
                    add_group_to_body(&mut body, &groups[at]);
                }
            },
        }
        i += 1;
    }
    assert(views.subrange(0, i as int) =~= views);
    let ghost start = body@;
    let ghost exact = all.subrange(hot as int, all.len() as int);
    let mut k: usize = hot;
    assert(exact.subrange(0, 0) =~= Seq::<GroupView>::empty());
    while k < groups.len()
        invariant
            hot <= k <= groups@.len(),
            all == group_views(groups@),
            exact == all.subrange(hot as int, all.len() as int),
            body@ == body_with_groups(start, exact.subrange(0, k - hot)),
        decreases groups@.len() - k,
    {
        proof {
            let next = exact.subrange(0, k + 1 - hot);
            assert(next.drop_last() =~= exact.subrange(0, k - hot));
            assert(next.last() == groups@[k as int]@);
        }
        add_group_to_body(&mut body, &groups[k]);
        k += 1;
    }
    assert(exact.subrange(0, k - hot) =~= exact);
    Ok(body)
}

// ---------------------------------------------------------------------------------------------
// Requests for summaries.
// ---------------------------------------------------------------------------------------------

/// What a node contributes to the input of a summary.
pub open spec fn node_input<M: SessionModel>(
    model: M,
    node: NodeView,
    cold: Seq<GroupView>,
    cap: nat,
    cap_max: nat,
) -> Result<Seq<ItemView>, RollingPromptError> {
    match node.kind {
        PairwiseNodeKind::Raw => match group_of(cold, node.coverage, 0) {
            None => Ok(Seq::empty()),
            Some(group) => if over_limit(model, group.items) {
                Err(group_limit_error(model, group))
            } else {
                Ok(group.items)
            },
        },
        PairwiseNodeKind::Summary => Ok(seq![summary_item(node, cap, cap_max)]),
    }
}

/// The request for a missing summary: the two nodes of the pair are its input.
pub open spec fn request_for<M: SessionModel>(
    model: M,
    missing: MissingView,
    cold: Seq<GroupView>,
    cap: nat,
    cap_max: nat,
) -> Result<RequestView, RollingPromptError> {
    match (
        node_input(model, missing.first, cold, cap, cap_max),
        node_input(model, missing.second, cold, cap, cap_max),
    ) {
        (Err(error), _) => Err(error),
        (_, Err(error)) => Err(error),
        (Ok(first), Ok(second)) => Ok(
            RequestView {
                input: first + second,
                raw_start_index: missing.coverage.raw_start_index,
                raw_end_exclusive: missing.coverage.raw_end_exclusive,
                level: missing.level,
                token_estimate: missing.token_estimate,
            },
        ),
    }
}

fn pairwise_node_input_items<M: SessionModel>(
    model: &M,
    node: &PairwiseNode,
    groups: &Vec<RollingGroup>,
    hot: usize,
    summary_group_token_cap: usize,
    summary_group_token_cap_max: usize,
) -> (r: Result<Vec<ResponseItem>, RollingPromptError>)
    requires
        hot <= groups@.len(),
    ensures
        match r {
            Ok(items) => node_input(
                *model,
                node@,
                group_views(groups@).subrange(0, hot as int),
                summary_group_token_cap as nat,
                summary_group_token_cap_max as nat,
            ) == Ok::<Seq<ItemView>, RollingPromptError>(item_views(items@)),
            Err(error) => node_input(
                *model,
                node@,
                group_views(groups@).subrange(0, hot as int),
                summary_group_token_cap as nat,
                summary_group_token_cap_max as nat,
            ) == Err::<Seq<ItemView>, RollingPromptError>(error),
        },
{
    let mut items: Vec<ResponseItem> = Vec::new();
    assert(item_views(items@) =~= Seq::<ItemView>::empty());
    match node.kind {
        PairwiseNodeKind::Raw => match find_group(groups, hot, node.coverage) {
            None => Ok(items),
            Some(at) => {
                if groups[at].item_tokens_exceed_limit(model) {
                    return Err(groups[at].item_limit_error(model));
                }
                Ok(clone_items(groups[at].items.as_slice()))
            },
        },
        PairwiseNodeKind::Summary => {
            if let Some(item) = node.summary_response_item(
                summary_group_token_cap,
                summary_group_token_cap_max,
            ) {
                items.push(item);
                assert(item_views(items@) =~= seq![item@]);
            }
            Ok(items)
        },
    }
}

fn pairwise_summary_request<M: SessionModel>(
    model: &M,
    missing: PairwiseMissingSummary,
    groups: &Vec<RollingGroup>,
    hot: usize,
    summary_group_token_cap: usize,
    summary_group_token_cap_max: usize,
) -> (r: Result<PairwiseSummaryRequest, RollingPromptError>)
    requires
        hot <= groups@.len(),
    ensures
        match r {
            Ok(request) => request_for(
                *model,
                missing@,
                group_views(groups@).subrange(0, hot as int),
                summary_group_token_cap as nat,
                summary_group_token_cap_max as nat,
            ) == Ok::<RequestView, RollingPromptError>(request@),
            Err(error) => request_for(
                *model,
                missing@,
                group_views(groups@).subrange(0, hot as int),
                summary_group_token_cap as nat,
                summary_group_token_cap_max as nat,
            ) == Err::<RequestView, RollingPromptError>(error),
        },
{
    let mut input = match pairwise_node_input_items(
        model,
        &missing.first,
        groups,
        hot,
        summary_group_token_cap,
        summary_group_token_cap_max,
    ) {
        Ok(items) => items,
        Err(error) => {
            return Err(error);
        },
    };
    let mut second = match pairwise_node_input_items(
        model,
        &missing.second,
        groups,
        hot,
        summary_group_token_cap,
        summary_group_token_cap_max,
    ) {
        Ok(items) => items,
        Err(error) => {
            return Err(error);
        },
    };
    assert(item_views(input@ + second@) =~= item_views(input@) + item_views(second@));
    input.append(&mut second);
    Ok(
        PairwiseSummaryRequest {
            input,
            raw_start_index: missing.coverage.raw_start_index,
            raw_end_exclusive: missing.coverage.raw_end_exclusive,
            level: missing.level,
            token_estimate: missing.token_estimate,
        },
    )
}

// ---------------------------------------------------------------------------------------------
// The prompt.
// ---------------------------------------------------------------------------------------------

/// The cold groups as raw nodes of the tree.
pub open spec fn cold_nodes(groups: Seq<GroupView>) -> Seq<NodeView> {
    groups.map_values(
        |g: GroupView|
            NodeView {
                coverage: CoverageInterval {
                    raw_start_index: g.start as usize,
                    raw_end_exclusive: g.end as usize,
                },
                level: 0,
                kind: PairwiseNodeKind::Raw,
                token_estimate: g.tokens,
                summary_text: None,
            },
    )
}

pub open spec fn settings_of(params: PairwiseRollingPromptParams) -> PairwiseCompactionSettings {
    PairwiseCompactionSettings {
        max_summary_levels: params.max_summary_levels,
        compact_when_level_group_count_gt: params.compact_when_level_group_count_gt,
        summary_token_estimate: if params.summary_group_token_cap <= i64::MAX {
            params.summary_group_token_cap as i64
        } else {
            i64::MAX
        },
    }
}

/// What fitting a tree under a budget comes to.
pub enum FitView {
    /// The tree, and the body that it makes.
    Fits { levels: Seq<Seq<NodeView>>, body: PromptBodyView },
    /// The tree so far, and the summary that the next fold needs.
    Needs { levels: Seq<Seq<NodeView>>, missing: MissingView },
}

/// Folds one pair after the other until the body keeps to the budget.
pub open spec fn fit_tree<M: SessionModel>(
    model: M,
    levels: Seq<Seq<NodeView>>,
    groups: Seq<GroupView>,
    hot: int,
    params: PairwiseRollingPromptParams,
    budget: i64,
    source: SummarySource,
) -> Result<FitView, RollingPromptError>
    decreases total_nodes(levels),
    via fit_tree_decreases::<M>
{
    match prompt_body(
        model,
        levels,
        groups,
        hot,
        params.summary_group_token_cap as nat,
        params.summary_group_token_cap_max as nat,
    ) {
        Err(error) => Err(error),
        Ok(body) => if body.tokens <= budget {
            Ok(FitView::Fits { levels, body })
        } else {
            let (after, found, missing) = single_fold(levels, settings_of(params), source);
            match missing {
                Some(m) => Ok(FitView::Needs { levels: after, missing: m }),
                None => if found && source == SummarySource::Synthetic {
                    fit_tree(model, after, groups, hot, params, budget, source)
                } else {
                    Err(
                        RollingPromptError::FrontierExceedsBudget {
                            frontier_tokens: body.tokens,
                            body_budget: budget,
                        },
                    )
                },
            }
        },
    }
}

#[via_fn]
proof fn fit_tree_decreases<M: SessionModel>(
    model: M,
    levels: Seq<Seq<NodeView>>,
    groups: Seq<GroupView>,
    hot: int,
    params: PairwiseRollingPromptParams,
    budget: i64,
    source: SummarySource,
) {
    lemma_single_fold_total(levels, settings_of(params));
}

/// The first group, from `from` on, that holds an item over the limit.
pub open spec fn first_group_over<M: SessionModel>(
    model: M,
    groups: Seq<GroupView>,
    from: int,
) -> Option<GroupView>
    decreases groups.len() - from,
{
    if from < 0 || from >= groups.len() {
        None
    } else if over_limit(model, groups[from].items) {
        Some(groups[from])
    } else {
        first_group_over(model, groups, from + 1)
    }
}

/// What a pairwise prompt starts from.
pub struct PairwiseInputView {
    pub raw: Seq<ItemView>,
    pub prefix: Seq<ItemView>,
    pub sent_prefix: Seq<ItemView>,
    pub state: StateView,
    pub groups: Seq<GroupView>,
    pub pinned_tokens: i64,
    pub body_budget: i64,
    pub target: i64,
    pub backoff_applied: bool,
}

pub enum OutcomeView {
    Ready(ResultView),
    NeedsPairSummary { request: RequestView, projected_state: StateView },
}

/// The prompt that a fitted tree makes.
pub open spec fn pairwise_result<M: SessionModel>(
    model: M,
    input: PairwiseInputView,
    levels: Seq<Seq<NodeView>>,
    body: PromptBodyView,
) -> ResultView {
    let first = match body.first_exact {
        Some(start) => start,
        None => input.raw.len() as int,
    };
    let start = larger(input.state.raw_history_start_index, first as usize);
    ResultView {
        prompt_input: input.sent_prefix + body.items,
        estimated_prompt_tokens: saturating(input.pinned_tokens + body.tokens),
        dropped_body_items: body_items(
            model,
            input.raw,
            input.state.raw_history_start_index as int,
            start as int,
            input.prefix,
        ),
        raw_history_start_index: start,
        target_tokens: input.target,
        backoff_applied: input.backoff_applied,
        projected_state: StateView {
            raw_history_start_index: start,
            pairwise_summaries: summaries_of(visible(levels)),
            ..input.state
        },
    }
}

pub open spec fn needs_summary<M: SessionModel>(
    model: M,
    input: PairwiseInputView,
    hot: int,
    params: PairwiseRollingPromptParams,
    missing: MissingView,
    state: StateView,
) -> Result<OutcomeView, RollingPromptError> {
    match request_for(
        model,
        missing,
        input.groups.subrange(0, hot),
        params.summary_group_token_cap as nat,
        params.summary_group_token_cap_max as nat,
    ) {
        Err(error) => Err(error),
        Ok(request) => Ok(OutcomeView::NeedsPairSummary { request, projected_state: state }),
    }
}

/// What building a pairwise prompt comes to.
pub open spec fn pairwise_outcome<M: SessionModel>(
    model: M,
    input: PairwiseInputView,
    params: PairwiseRollingPromptParams,
    source: SummarySource,
) -> Result<OutcomeView, RollingPromptError> {
    let protected = match params.protected_hot_exact_tokens {
        Some(tokens) => tokens,
        None => default_protected_tokens(input.body_budget),
    };
    let hot = hot_start(input.groups, input.groups.len() as int, 0, protected);
    match first_group_over(model, input.groups, hot) {
        Some(group) => Err(group_limit_error(model, group)),
        None => {
            let (levels, missing) = compaction(
                spec_levels_from_nodes(
                    input.state.pairwise_summaries + cold_nodes(input.groups.subrange(0, hot)),
                ),
                0,
                settings_of(params),
                source,
            );
            match missing {
                Some(m) => needs_summary(model, input, hot, params, m, input.state),
                None => match fit_tree(
                    model,
                    levels,
                    input.groups,
                    hot,
                    params,
                    input.body_budget,
                    source,
                ) {
                    Err(error) => Err(error),
                    Ok(FitView::Fits { levels: fitted, body }) => Ok(
                        OutcomeView::Ready(pairwise_result(model, input, fitted, body)),
                    ),
                    Ok(FitView::Needs { levels: reached, missing: m }) => needs_summary(
                        model,
                        input,
                        hot,
                        params,
                        m,
                        StateView {
                            pairwise_summaries: summaries_of(visible(reached)),
                            ..input.state
                        },
                    ),
                },
            }
        },
    }
}

/// Every group covers a non-empty range of the history.
pub open spec fn groups_within(groups: Seq<GroupView>, len: int) -> bool {
    forall|i: int|
        0 <= i < groups.len() ==> 0 <= (#[trigger] groups[i]).start < groups[i].end <= len
}

proof fn lemma_group_of_within(
    groups: Seq<GroupView>,
    coverage: CoverageInterval,
    from: int,
    len: int,
)
    requires
        groups_within(groups, len),
    ensures
        match group_of(groups, coverage, from) {
            Some(group) => 0 <= group.start < len,
            None => true,
        },
    decreases groups.len() - from,
{
    if 0 <= from < groups.len() {
        assert(groups[from].start < groups[from].end);
        lemma_group_of_within(groups, coverage, from + 1, len);
    }
}

pub open spec fn exact_within(body: PromptBodyView, len: int) -> bool {
    match body.first_exact {
        Some(start) => 0 <= start < len,
        None => true,
    }
}

proof fn lemma_nodes_body_within<M: SessionModel>(
    model: M,
    nodes: Seq<NodeView>,
    cold: Seq<GroupView>,
    cap: nat,
    cap_max: nat,
    len: int,
)
    requires
        groups_within(cold, len),
    ensures
        match nodes_body(model, nodes, cold, cap, cap_max) {
            Ok(body) => exact_within(body, len),
            Err(_) => true,
        },
    decreases nodes.len(),
{
    if nodes.len() > 0 {
        lemma_nodes_body_within(model, nodes.drop_last(), cold, cap, cap_max, len);
        lemma_group_of_within(cold, nodes.last().coverage, 0, len);
    }
}

proof fn lemma_body_with_groups_within(body: PromptBodyView, groups: Seq<GroupView>, len: int)
    requires
        groups_within(groups, len),
        exact_within(body, len),
    ensures
        exact_within(body_with_groups(body, groups), len),
    decreases groups.len(),
{
    if groups.len() > 0 {
        assert(groups_within(groups.drop_last(), len)) by {
            assert forall|i: int| 0 <= i < groups.drop_last().len() implies 0 <= (
            #[trigger] groups.drop_last()[i]).start < groups.drop_last()[i].end <= len by {
                assert(groups.drop_last()[i] == groups[i]);
            }
        }
        lemma_body_with_groups_within(body, groups.drop_last(), len);
        assert(groups[groups.len() - 1].start < groups[groups.len() - 1].end);
    }
}

proof fn lemma_prompt_body_within<M: SessionModel>(
    model: M,
    levels: Seq<Seq<NodeView>>,
    groups: Seq<GroupView>,
    hot: int,
    cap: nat,
    cap_max: nat,
    len: int,
)
    requires
        groups_within(groups, len),
        0 <= hot <= groups.len(),
    ensures
        match prompt_body(model, levels, groups, hot, cap, cap_max) {
            Ok(body) => exact_within(body, len),
            Err(_) => true,
        },
{
    let cold = groups.subrange(0, hot);
    let exact = groups.subrange(hot, groups.len() as int);
    assert forall|i: int| 0 <= i < cold.len() implies 0 <= (#[trigger] cold[i]).start < cold[i].end
        <= len by {
        assert(cold[i] == groups[i]);
    }
    assert forall|i: int| 0 <= i < exact.len() implies 0 <= (#[trigger] exact[i]).start
        < exact[i].end <= len by {
        assert(exact[i] == groups[hot + i]);
    }
    lemma_nodes_body_within(model, visible(levels), cold, cap, cap_max, len);
    if let Ok(body) = nodes_body(model, visible(levels), cold, cap, cap_max) {
        lemma_body_with_groups_within(body, exact, len);
    }
}

fn raw_nodes(groups: &Vec<RollingGroup>, hot: usize) -> (nodes: Vec<PairwiseNode>)
    requires
        hot <= groups@.len(),
        forall|i: int|
            0 <= i < groups@.len() ==> (#[trigger] groups@[i]).raw_start_index
                < groups@[i].raw_end_exclusive,
    ensures
        node_views(nodes@) == cold_nodes(group_views(groups@).subrange(0, hot as int)),
{
    let ghost all = group_views(groups@);
    let mut nodes: Vec<PairwiseNode> = Vec::new();
    let mut i: usize = 0;
    assert(node_views(nodes@) =~= cold_nodes(all.subrange(0, 0)));
    while i < hot
        invariant
            i <= hot <= groups@.len(),
            all == group_views(groups@),
            forall|i: int|
                0 <= i < groups@.len() ==> (#[trigger] groups@[i]).raw_start_index
                    < groups@[i].raw_end_exclusive,
            node_views(nodes@) == cold_nodes(all.subrange(0, i as int)),
        decreases hot - i,
    {
        let group = &groups[i];
        assert(all[i as int] == group@);
        let node = PairwiseNode::raw(
            CoverageInterval::new(group.raw_start_index, group.raw_end_exclusive),
            group.tokens,
        );
        let ghost before = node_views(nodes@);
        nodes.push(node);
        i += 1;
        proof {
            assert(node_views(nodes@) =~= before.push(node@));
            assert(cold_nodes(all.subrange(0, i as int)) =~= cold_nodes(
                all.subrange(0, i - 1),
            ).push(node@));
        }
    }
    nodes
}

fn settings_for(params: PairwiseRollingPromptParams) -> (settings: PairwiseCompactionSettings)
    ensures
        settings == settings_of(params),
{
    PairwiseCompactionSettings {
        max_summary_levels: params.max_summary_levels,
        compact_when_level_group_count_gt: params.compact_when_level_group_count_gt,
        summary_token_estimate: if params.summary_group_token_cap as u64 <= i64::MAX as u64 {
            params.summary_group_token_cap as i64
        } else {
            i64::MAX
        },
    }
}

/// A prompt, or the summary that must be written before it can be built.
#[derive(Debug, PartialEq)]
pub enum RollingPromptBuildOutcome {
    Ready(RollingPromptResult),
    NeedsPairSummary { request: PairwiseSummaryRequest, projected_state: RollingPromptState },
}

impl View for RollingPromptBuildOutcome {
    type V = OutcomeView;

    open spec fn view(&self) -> OutcomeView {
        match self {
            RollingPromptBuildOutcome::Ready(result) => OutcomeView::Ready(result@),
            RollingPromptBuildOutcome::NeedsPairSummary { request, projected_state } => {
                OutcomeView::NeedsPairSummary { request: request@, projected_state: projected_state@ }
            },
        }
    }
}

/// What a fitted tree comes to.
enum Fit {
    Fits { tree: PairwiseSummaryTree, body: ProjectedPairwisePromptBody },
    Needs { tree: PairwiseSummaryTree, missing: PairwiseMissingSummary },
}

impl View for Fit {
    type V = FitView;

    closed spec fn view(&self) -> FitView {
        match self {
            Fit::Fits { tree, body } => FitView::Fits { levels: tree@, body: body@ },
            Fit::Needs { tree, missing } => FitView::Needs { levels: tree@, missing: missing@ },
        }
    }
}

fn fit_under_budget<M: SessionModel>(
    model: &M,
    first: PairwiseSummaryTree,
    groups: &Vec<RollingGroup>,
    hot: usize,
    params: PairwiseRollingPromptParams,
    body_budget: i64,
    source: SummarySource,
) -> (r: Result<Fit, RollingPromptError>)
    requires
        hot <= groups@.len(),
    ensures
        match r {
            Ok(fit) => fit_tree(
                *model,
                first@,
                group_views(groups@),
                hot as int,
                params,
                body_budget,
                source,
            ) == Ok::<FitView, RollingPromptError>(fit@),
            Err(error) => fit_tree(
                *model,
                first@,
                group_views(groups@),
                hot as int,
                params,
                body_budget,
                source,
            ) == Err::<FitView, RollingPromptError>(error),
        },
{
    let settings = settings_for(params);
    let mut tree = first;
    loop
        invariant
            hot <= groups@.len(),
            settings == settings_of(params),
            fit_tree(
                *model,
                tree@,
                group_views(groups@),
                hot as int,
                params,
                body_budget,
                source,
            ) == fit_tree(
                *model,
                first@,
                group_views(groups@),
                hot as int,
                params,
                body_budget,
                source,
            ),
        decreases total_nodes(tree@),
    {
        proof {
            lemma_single_fold_total(tree@, settings);
        }
        let body = match project_prompt_body(
            model,
            &tree,
            groups,
            hot,
            params.summary_group_token_cap,
            params.summary_group_token_cap_max,
        ) {
            Ok(body) => body,
            Err(error) => {
                return Err(error);
            },
        };
        if body.body_tokens <= body_budget {
            return Ok(Fit::Fits { tree, body });
        }
        let folded = match source {
            SummarySource::Synthetic => tree.compact_one_synthetic(settings),
            SummarySource::Required => match tree.try_compact_one_requiring_summary(settings) {
                Ok(folded) => folded,
                Err(missing) => {
                    return Ok(Fit::Needs { tree, missing });
                },
            },
        };
        if !folded {
            return Err(
                RollingPromptError::FrontierExceedsBudget {
                    frontier_tokens: body.body_tokens,
                    body_budget,
                },
            );
        }
    }
}

fn check_exact_groups<M: SessionModel>(
    model: &M,
    groups: &Vec<RollingGroup>,
    hot: usize,
) -> (r: Result<(), RollingPromptError>)
    ensures
        match r {
            Ok(_) => first_group_over(*model, group_views(groups@), hot as int) is None,
            Err(error) => match first_group_over(*model, group_views(groups@), hot as int) {
                Some(group) => error == group_limit_error(*model, group),
                None => false,
            },
        },
{
    let ghost all = group_views(groups@);
    let mut i: usize = hot;
    while i < groups.len()
        invariant
            hot <= i,
            all == group_views(groups@),
            first_group_over(*model, all, i as int) == first_group_over(*model, all, hot as int),
        decreases groups@.len() - i,
    {
        assert(all[i as int] == groups@[i as int]@);
        if groups[i].item_tokens_exceed_limit(model) {
            return Err(groups[i].item_limit_error(model));
        }
        i += 1;
    }
    Ok(())
}

/// What a pairwise prompt starts from, beside the history.
pub struct PairwiseInput {
    pub projected_state: RollingPromptState,
    pub groups: Vec<RollingGroup>,
    pub pinned_tokens: i64,
    pub body_budget: i64,
    pub target: i64,
    pub backoff_applied: bool,
    pub invariant_prefix: Vec<ResponseItem>,
    pub projected_invariant_prefix: Vec<ResponseItem>,
}

pub open spec fn pairwise_input_view(history: History, input: PairwiseInput) -> PairwiseInputView {
    PairwiseInputView {
        raw: item_views(history.raw_items@),
        prefix: item_views(input.invariant_prefix@),
        sent_prefix: item_views(input.projected_invariant_prefix@),
        state: input.projected_state@,
        groups: group_views(input.groups@),
        pinned_tokens: input.pinned_tokens,
        body_budget: input.body_budget,
        target: input.target,
        backoff_applied: input.backoff_applied,
    }
}

/// Builds a prompt in which older groups are summarised pair by pair.
pub fn build_pairwise_rolling_prompt<M: SessionModel>(
    model: &M,
    history: &History,
    input: PairwiseInput,
    params: PairwiseRollingPromptParams,
    source: SummarySource,
) -> (r: Result<RollingPromptBuildOutcome, RollingPromptError>)
    requires
        groups_within(group_views(input.groups@), history.raw_items@.len() as int),
        input.projected_state.raw_history_start_index <= history.raw_items@.len(),
    ensures
        match r {
            Ok(outcome) => pairwise_outcome(
                *model,
                pairwise_input_view(*history, input),
                params,
                source,
            ) == Ok::<OutcomeView, RollingPromptError>(outcome@),
            Err(error) => pairwise_outcome(
                *model,
                pairwise_input_view(*history, input),
                params,
                source,
            ) == Err::<OutcomeView, RollingPromptError>(error),
        },
{
    let ghost view = pairwise_input_view(*history, input);
    let len: usize = history.raw_items.len();
    let mut state = input.projected_state;
    let groups = input.groups;
    let protected: i64 = match params.protected_hot_exact_tokens {
        Some(tokens) => tokens,
        None => default_protected_hot_exact_tokens(input.body_budget),
    };
    let hot: usize = protected_hot_start_index(&groups, protected);
    if let Err(error) = check_exact_groups(model, &groups, hot) {
        return Err(error);
    }
    assert forall|i: int| 0 <= i < groups@.len() implies (#[trigger] groups@[i]).raw_start_index
        < groups@[i].raw_end_exclusive by {
        assert(view.groups[i] == groups@[i]@);
    }
    let cold = raw_nodes(&groups, hot);
    let settings = settings_for(params);
    let summaries = clone_nodes(&state.pairwise_summaries);
    let first = match source {
        SummarySource::Synthetic => {
            proof {
                lemma_synthetic_compaction_completes(
                    spec_levels_from_nodes(node_views(summaries@) + node_views(cold@)),
                    0,
                    settings,
                );
            }
            PairwiseSummaryTree::from_summaries_and_cold_groups(summaries, cold, settings)
        },
        SummarySource::Required => match PairwiseSummaryTree::try_from_summaries_and_cold_groups(
            summaries,
            cold,
            settings,
        ) {
            Ok(tree) => tree,
            Err(missing) => {
                return match pairwise_summary_request(
                    model,
                    missing,
                    &groups,
                    hot,
                    params.summary_group_token_cap,
                    params.summary_group_token_cap_max,
                ) {
                    Ok(request) => Ok(
                        RollingPromptBuildOutcome::NeedsPairSummary {
                            request,
                            projected_state: state,
                        },
                    ),
                    Err(error) => Err(error),
                };
            },
        },
    };
    let ghost start_levels = first@;
    let fit = match fit_under_budget(model, first, &groups, hot, params, input.body_budget, source) {
        Ok(fit) => fit,
        Err(error) => {
            return Err(error);
        },
    };
    match fit {
        Fit::Needs { tree, missing } => {
            state.pairwise_summaries = tree.summary_nodes();
            match pairwise_summary_request(
                model,
                missing,
                &groups,
                hot,
                params.summary_group_token_cap,
                params.summary_group_token_cap_max,
            ) {
                Ok(request) => Ok(
                    RollingPromptBuildOutcome::NeedsPairSummary { request, projected_state: state },
                ),
                Err(error) => Err(error),
            }
        },
        Fit::Fits { tree, body } => {
            proof {
                lemma_fit_body_within(
                    *model,
                    start_levels,
                    view.groups,
                    hot as int,
                    params,
                    input.body_budget,
                    source,
                    len as int,
                );
            }
            let exact: usize = match body.first_exact_raw_start {
                Some(start) => start,
                None => len,
            };
            let old_start: usize = state.raw_history_start_index;
            let start: usize = if old_start >= exact {
                old_start
            } else {
                exact
            };
            let dropped: usize = count_body_items(
                model,
                history.raw_items.as_slice(),
                old_start,
                start,
                &input.invariant_prefix,
            );
            let mut prompt = input.projected_invariant_prefix;
            let mut items = body.items;
            assert(item_views(prompt@ + items@) =~= item_views(prompt@) + item_views(items@));
            prompt.append(&mut items);
            state.raw_history_start_index = start;
            state.pairwise_summaries = tree.summary_nodes();
            Ok(
                RollingPromptBuildOutcome::Ready(
                    RollingPromptResult {
                        prompt_input: prompt,
                        estimated_prompt_tokens: saturating_add(
                            input.pinned_tokens,
                            body.body_tokens,
                        ),
                        dropped_body_items: dropped,
                        raw_history_start_index: start,
                        target_tokens: input.target,
                        backoff_applied: input.backoff_applied,
                        projected_state: state,
                    },
                ),
            )
        },
    }
}

proof fn lemma_fit_body_within<M: SessionModel>(
    model: M,
    levels: Seq<Seq<NodeView>>,
    groups: Seq<GroupView>,
    hot: int,
    params: PairwiseRollingPromptParams,
    budget: i64,
    source: SummarySource,
    len: int,
)
    requires
        groups_within(groups, len),
        0 <= hot <= groups.len(),
    ensures
        match fit_tree(model, levels, groups, hot, params, budget, source) {
            Ok(FitView::Fits { levels: fitted, body }) => exact_within(body, len),
            _ => true,
        },
    decreases total_nodes(levels),
{
    lemma_prompt_body_within(
        model,
        levels,
        groups,
        hot,
        params.summary_group_token_cap as nat,
        params.summary_group_token_cap_max as nat,
        len,
    );
    lemma_single_fold_total(levels, settings_of(params));
    if let Ok(body) = prompt_body(
        model,
        levels,
        groups,
        hot,
        params.summary_group_token_cap as nat,
        params.summary_group_token_cap_max as nat,
    ) {
        if body.tokens > budget {
            let (after, found, missing) = single_fold(levels, settings_of(params), source);
            if missing is None && found && source == SummarySource::Synthetic {
                lemma_fit_body_within(model, after, groups, hot, params, budget, source, len);
            }
        }
    }
}

} // verus!
