//! The pairwise summary tree: cold history is folded, oldest adjacent pair first, into summaries
//! of growing level, and every raw item stays covered by exactly one visible node.

use crate::fragments::{
    summary_group_body, summary_sections, ContextualUserFragment, RollctxSummaryGroupContext,
    RollctxSummaryGroupContextBody, DEFAULT_COVERAGE_TOKEN_CAP,
};
use crate::item::{option_view, text_message, ItemView, ResponseItem};
use crate::text::{decimal, decimal_text};
use vstd::prelude::*;
use vstd::string::*;

verus! {

/// A half-open, non-empty range of raw history indices.
#[derive(Debug, Clone, Copy, PartialEq, Eq, Hash, Structural)]
pub struct CoverageInterval {
    pub raw_start_index: usize,
    pub raw_end_exclusive: usize,
}

impl CoverageInterval {
    /// The range holds at least one index.
    pub open spec fn wf(self) -> bool {
        self.raw_start_index < self.raw_end_exclusive
    }

    pub open spec fn spec_adjacent(self, next: Self) -> bool {
        self.raw_end_exclusive == next.raw_start_index
    }

    pub open spec fn spec_covers(self, other: Self) -> bool {
        self.raw_start_index <= other.raw_start_index && self.raw_end_exclusive
            >= other.raw_end_exclusive
    }

    /// The range from the start of `self` to the end of `next`.
    pub open spec fn through(self, next: Self) -> Self {
        CoverageInterval {
            raw_start_index: self.raw_start_index,
            raw_end_exclusive: next.raw_end_exclusive,
        }
    }

    pub open spec fn contains(self, index: int) -> bool {
        self.raw_start_index <= index < self.raw_end_exclusive
    }

    /// Neither range reaches into the other.
    pub open spec fn disjoint(self, other: Self) -> bool {
        self.raw_end_exclusive <= other.raw_start_index || other.raw_end_exclusive
            <= self.raw_start_index
    }

    pub fn new(raw_start_index: usize, raw_end_exclusive: usize) -> (r: Self)
        requires
            raw_start_index < raw_end_exclusive,
        ensures
            r == (CoverageInterval { raw_start_index, raw_end_exclusive }),
            r.wf(),
    {
        CoverageInterval { raw_start_index, raw_end_exclusive }
    }

    pub fn is_adjacent_to(self, next: Self) -> (r: bool)
        ensures
            r == self.spec_adjacent(next),
    {
        self.raw_end_exclusive == next.raw_start_index
    }

    /// The joined range of two adjacent ranges.
    pub fn union(self, next: Self) -> (r: Option<Self>)
        ensures
            r == if self.spec_adjacent(next) {
                Some(self.through(next))
            } else {
                None
            },
    {
        if self.is_adjacent_to(next) {
            Some(
                CoverageInterval {
                    raw_start_index: self.raw_start_index,
                    raw_end_exclusive: next.raw_end_exclusive,
                },
            )
        } else {
            None
        }
    }

    pub fn covers(self, other: Self) -> (r: bool)
        ensures
            r == self.spec_covers(other),
    {
        self.raw_start_index <= other.raw_start_index && self.raw_end_exclusive
            >= other.raw_end_exclusive
    }
}

#[derive(Debug, Clone, Copy, PartialEq, Eq, Structural)]
pub enum PairwiseNodeKind {
    Raw,
    Summary,
}

/// One node of the tree: a raw cold group, or a summary that stands for several.
#[derive(Debug, PartialEq, Eq)]
pub struct PairwiseNode {
    pub coverage: CoverageInterval,
    pub level: u8,
    pub kind: PairwiseNodeKind,
    pub token_estimate: i64,
    pub summary_text: Option<String>,
}

pub struct NodeView {
    pub coverage: CoverageInterval,
    pub level: u8,
    pub kind: PairwiseNodeKind,
    pub token_estimate: i64,
    pub summary_text: Option<Seq<char>>,
}

impl View for PairwiseNode {
    type V = NodeView;

    open spec fn view(&self) -> NodeView {
        NodeView {
            coverage: self.coverage,
            level: self.level,
            kind: self.kind,
            token_estimate: self.token_estimate,
            summary_text: option_view(self.summary_text),
        }
    }
}

impl Clone for PairwiseNode {
    fn clone(&self) -> (r: Self)
        ensures
            r == *self,
    {
        PairwiseNode {
            coverage: self.coverage,
            level: self.level,
            kind: self.kind,
            token_estimate: self.token_estimate,
            summary_text: match &self.summary_text {
                Some(text) => Some(text.clone()),
                None => None,
            },
        }
    }
}

/// `raw[start..end)`
pub open spec fn coverage_label_text(coverage: CoverageInterval) -> Seq<char> {
    "raw["@ + decimal(coverage.raw_start_index as nat) + ".."@ + decimal(
        coverage.raw_end_exclusive as nat,
    ) + ")"@
}

/// The placeholder summary of a range whose text nobody wrote yet.
pub open spec fn synthetic_summary(coverage: CoverageInterval, level: u8, token_estimate: i64) -> NodeView {
    NodeView {
        coverage,
        level,
        kind: PairwiseNodeKind::Summary,
        token_estimate,
        summary_text: Some("summary for "@ + coverage_label_text(coverage)),
    }
}

fn coverage_label_of(coverage: CoverageInterval) -> (label: String)
    ensures
        label@ == coverage_label_text(coverage),
{
    let mut label = String::from_str("raw[");
    label.append(decimal_text(coverage.raw_start_index as u64).as_str());
    label.append("..");
    label.append(decimal_text(coverage.raw_end_exclusive as u64).as_str());
    label.append(")");
    label
}

impl PairwiseNode {
    pub fn raw(coverage: CoverageInterval, token_estimate: i64) -> (r: Self)
        ensures
            r@ == (NodeView {
                coverage,
                level: 0,
                kind: PairwiseNodeKind::Raw,
                token_estimate,
                summary_text: None,
            }),
    {
        PairwiseNode {
            coverage,
            level: 0,
            kind: PairwiseNodeKind::Raw,
            token_estimate,
            summary_text: None,
        }
    }

    pub fn summary(coverage: CoverageInterval, level: u8, token_estimate: i64) -> (r: Self)
        ensures
            r@ == synthetic_summary(coverage, level, token_estimate),
    {
        let mut text = String::from_str("summary for ");
        text.append(coverage_label_of(coverage).as_str());
        Self::summary_with_text(coverage, level, token_estimate, text)
    }

    pub fn summary_with_text(
        coverage: CoverageInterval,
        level: u8,
        token_estimate: i64,
        summary_text: String,
    ) -> (r: Self)
        ensures
            r@ == (NodeView {
                coverage,
                level,
                kind: PairwiseNodeKind::Summary,
                token_estimate,
                summary_text: Some(summary_text@),
            }),
    {
        PairwiseNode {
            coverage,
            level,
            kind: PairwiseNodeKind::Summary,
            token_estimate,
            summary_text: Some(summary_text),
        }
    }

    pub fn coverage_label(&self) -> (label: String)
        ensures
            label@ == coverage_label_text(self@.coverage),
    {
        coverage_label_of(self.coverage)
    }

    /// The message that shows a summary node to the model; a raw node has none.
    pub fn summary_response_item(
        &self,
        summary_token_cap: usize,
        summary_token_cap_max: usize,
    ) -> (r: Option<ResponseItem>)
        ensures
            match r {
                Some(item) => self.kind == PairwiseNodeKind::Summary && item@ == summary_item(
                    self@,
                    summary_token_cap as nat,
                    summary_token_cap_max as nat,
                ),
                None => self.kind == PairwiseNodeKind::Raw,
            },
    {
        if self.kind != PairwiseNodeKind::Summary {
            return None;
        }
        let text = match &self.summary_text {
            Some(text) => text.clone(),
            None => String::new(),
        };
        let body = RollctxSummaryGroupContextBody::from_summary_text(text);
        let group = RollctxSummaryGroupContext::new(
            self.level,
            self.coverage_label(),
            body,
            summary_token_cap,
            summary_token_cap_max,
        );
        Some(group.to_item())
    }
}

/// The message that shows a summary node.
pub open spec fn summary_item(node: NodeView, cap: nat, cap_max: nat) -> ItemView {
    let text = match node.summary_text {
        Some(text) => text,
        None => Seq::empty(),
    };
    text_message(
        "user"@,
        "<rollctx_summary_group"@ + summary_group_body(
            node.level,
            coverage_label_text(node.coverage),
            summary_sections(text),
            if cap <= cap_max {
                cap
            } else {
                cap_max
            },
            DEFAULT_COVERAGE_TOKEN_CAP as nat,
        ) + "</rollctx_summary_group>"@,
    )
}

/// A pair that would be folded next, and the summary that is missing for it.
#[derive(Debug, PartialEq, Eq)]
pub struct PairwiseMissingSummary {
    pub first: PairwiseNode,
    pub second: PairwiseNode,
    pub coverage: CoverageInterval,
    pub level: u8,
    pub token_estimate: i64,
}

pub struct MissingView {
    pub first: NodeView,
    pub second: NodeView,
    pub coverage: CoverageInterval,
    pub level: u8,
    pub token_estimate: i64,
}

impl View for PairwiseMissingSummary {
    type V = MissingView;

    open spec fn view(&self) -> MissingView {
        MissingView {
            first: self.first@,
            second: self.second@,
            coverage: self.coverage,
            level: self.level,
            token_estimate: self.token_estimate,
        }
    }
}

#[derive(Debug, Clone, Copy, PartialEq, Eq, Structural)]
pub struct PairwiseCompactionSettings {
    pub max_summary_levels: u8,
    pub compact_when_level_group_count_gt: usize,
    pub summary_token_estimate: i64,
}

impl PairwiseCompactionSettings {
    /// A level may hold this many nodes before its pairs are folded.
    pub open spec fn spec_threshold(self) -> nat {
        if self.compact_when_level_group_count_gt < 2 {
            2
        } else {
            self.compact_when_level_group_count_gt as nat
        }
    }

    pub fn threshold(self) -> (r: usize)
        ensures
            r == self.spec_threshold(),
    {
        if self.compact_when_level_group_count_gt < 2 {
            2
        } else {
            self.compact_when_level_group_count_gt
        }
    }
}

/// Where the text of a new summary comes from.
#[derive(Debug, Clone, Copy, PartialEq, Eq, Structural)]
pub enum SummarySource {
    /// A placeholder text is made up.
    Synthetic,
    /// The text must be supplied from outside; until then the fold stops.
    Required,
}

// ---------------------------------------------------------------------------------------------
// Stable sorting.
// ---------------------------------------------------------------------------------------------

/// The orders in which nodes are listed.
#[derive(Debug, Clone, Copy, PartialEq, Eq, Structural)]
pub enum NodeOrder {
    /// By start, then end.
    Chronological,
    /// By start, then end, then level.
    ChronologicalByLevel,
    /// Higher levels first, then by start, longer ranges first, then by end.
    Dominance,
}

/// `a` may stand before `b`.
pub open spec fn in_order(order: NodeOrder, a: NodeView, b: NodeView) -> bool {
    let (a0, a1) = (a.coverage.raw_start_index as int, a.coverage.raw_end_exclusive as int);
    let (b0, b1) = (b.coverage.raw_start_index as int, b.coverage.raw_end_exclusive as int);
    match order {
        NodeOrder::Chronological => a0 < b0 || (a0 == b0 && a1 <= b1),
        NodeOrder::ChronologicalByLevel => a0 < b0 || (a0 == b0 && (a1 < b1 || (a1 == b1 && a.level
            <= b.level))),
        NodeOrder::Dominance => a.level > b.level || (a.level == b.level && (a0 < b0 || (a0 == b0
            && a1 - a0 >= b1 - b0))),
    }
}

fn in_order_exec(order: NodeOrder, a: &PairwiseNode, b: &PairwiseNode) -> (r: bool)
    ensures
        r == in_order(order, a@, b@),
{
    let (a0, a1): (usize, usize) = (a.coverage.raw_start_index, a.coverage.raw_end_exclusive);
    let (b0, b1): (usize, usize) = (b.coverage.raw_start_index, b.coverage.raw_end_exclusive);
    match order {
        NodeOrder::Chronological => a0 < b0 || (a0 == b0 && a1 <= b1),
        NodeOrder::ChronologicalByLevel => a0 < b0 || (a0 == b0 && (a1 < b1 || (a1 == b1 && a.level
            <= b.level))),
        NodeOrder::Dominance => a.level > b.level || (a.level == b.level && (a0 < b0 || (a0 == b0
            && a1 >= b1))),
    }
}

pub open spec fn node_views(nodes: Seq<PairwiseNode>) -> Seq<NodeView> {
    nodes.map_values(|n: PairwiseNode| n@)
}

/// `node` put behind the last entry that may stand before it.
pub open spec fn insert_stable(order: NodeOrder, s: Seq<NodeView>, node: NodeView) -> Seq<NodeView>
    decreases s.len(),
{
    if s.len() == 0 || in_order(order, s.last(), node) {
        s.push(node)
    } else {
        insert_stable(order, s.drop_last(), node).push(s.last())
    }
}

/// The entries in order, equal ones in the order in which they came.
pub open spec fn stable_sort(order: NodeOrder, s: Seq<NodeView>) -> Seq<NodeView>
    decreases s.len(),
{
    if s.len() == 0 {
        s
    } else {
        insert_stable(order, stable_sort(order, s.drop_last()), s.last())
    }
}

proof fn lemma_insert_stable_at(order: NodeOrder, s: Seq<NodeView>, node: NodeView, at: int)
    requires
        0 <= at <= s.len(),
        at == 0 || in_order(order, s[at - 1], node),
        forall|k: int| at <= k < s.len() ==> !in_order(order, #[trigger] s[k], node),
    ensures
        insert_stable(order, s, node) == s.insert(at, node),
    decreases s.len(),
{
    if at == s.len() {
        assert(s.insert(at, node) =~= s.push(node));
    } else {
        lemma_insert_stable_at(order, s.drop_last(), node, at);
        assert(s.insert(at, node) =~= s.drop_last().insert(at, node).push(s.last()));
    }
}

pub proof fn lemma_insert_stable_len(order: NodeOrder, s: Seq<NodeView>, node: NodeView)
    ensures
        insert_stable(order, s, node).len() == s.len() + 1,
    decreases s.len(),
{
    if s.len() > 0 && !in_order(order, s.last(), node) {
        lemma_insert_stable_len(order, s.drop_last(), node);
    }
}

pub proof fn lemma_stable_sort_len(order: NodeOrder, s: Seq<NodeView>)
    ensures
        stable_sort(order, s).len() == s.len(),
    decreases s.len(),
{
    if s.len() > 0 {
        lemma_stable_sort_len(order, s.drop_last());
        lemma_insert_stable_len(order, stable_sort(order, s.drop_last()), s.last());
    }
}

fn sort_nodes(nodes: &mut Vec<PairwiseNode>, order: NodeOrder)
    ensures
        node_views(final(nodes)@) == stable_sort(order, node_views(old(nodes)@)),
{
    let ghost input = node_views(nodes@);
    let n: usize = nodes.len();
    let mut done: usize = 0;
    while done < n
        invariant
            done <= n,
            n == nodes@.len(),
            input.len() == n,
            node_views(nodes@) == stable_sort(order, input.subrange(0, done as int))
                + input.subrange(done as int, n as int),
        decreases n - done,
    {
        let ghost front = stable_sort(order, input.subrange(0, done as int));
        let ghost before = node_views(nodes@);
        proof {
            lemma_stable_sort_len(order, input.subrange(0, done as int));
        }
        assert(forall|k: int| 0 <= k < done ==> front[k] == before[k]);
        assert(before[done as int] == input[done as int]);
        let mut at: usize = done;
        while at > 0 && !in_order_exec(order, &nodes[at - 1], &nodes[done])
            invariant
                at <= done < n,
                n == nodes@.len(),
                before == node_views(nodes@),
                forall|k: int|
                    at <= k < done ==> !in_order(order, #[trigger] before[k], before[done as int]),
            ensures
                at == 0 || in_order(order, before[at - 1], before[done as int]),
            decreases at,
        {
            at -= 1;
        }
        proof {
            lemma_insert_stable_at(order, front, input[done as int], at as int);
            let next = input.subrange(0, done + 1);
            assert(next.drop_last() =~= input.subrange(0, done as int));
            assert(next.last() == input[done as int]);
        }
        if at < done {
            let node = nodes.remove(done);
            nodes.insert(at, node);
        }
        assert(node_views(nodes@) =~= before.remove(done as int).insert(
            at as int,
            before[done as int],
        ));
        assert(before.remove(done as int) =~= front + input.subrange(done + 1, n as int));
        assert(node_views(nodes@) =~= front.insert(at as int, input[done as int]) + input.subrange(
            done + 1,
            n as int,
        ));
        done += 1;
    }
    assert(input.subrange(0, n as int) =~= input);
    assert(node_views(nodes@) =~= stable_sort(order, input));
}

// ---------------------------------------------------------------------------------------------
// Levels.
// ---------------------------------------------------------------------------------------------

pub open spec fn level_views(levels: Seq<Vec<PairwiseNode>>) -> Seq<Seq<NodeView>> {
    levels.map_values(|level: Vec<PairwiseNode>| node_views(level@))
}

pub open spec fn chronological(level: Seq<NodeView>) -> Seq<NodeView> {
    stable_sort(NodeOrder::Chronological, level)
}

/// The first `count` levels in chronological order, the others as they are.
pub open spec fn sorted_prefix(levels: Seq<Seq<NodeView>>, count: int) -> Seq<Seq<NodeView>> {
    Seq::new(
        levels.len(),
        |l: int|
            if l < count {
                chronological(levels[l])
            } else {
                levels[l]
            },
    )
}

/// How many nodes the levels hold together.
pub open spec fn total_nodes(levels: Seq<Seq<NodeView>>) -> nat
    decreases levels.len(),
{
    if levels.len() == 0 {
        0
    } else {
        total_nodes(levels.drop_last()) + levels.last().len()
    }
}

pub proof fn lemma_total_nodes_update(levels: Seq<Seq<NodeView>>, at: int, level: Seq<NodeView>)
    requires
        0 <= at < levels.len(),
    ensures
        total_nodes(levels.update(at, level)) == total_nodes(levels) - levels[at].len() + level.len(),
    decreases levels.len(),
{
    let updated = levels.update(at, level);
    if at == levels.len() - 1 {
        assert(updated.drop_last() =~= levels.drop_last());
    } else {
        lemma_total_nodes_update(levels.drop_last(), at, level);
        assert(updated.drop_last() =~= levels.drop_last().update(at, level));
    }
}

/// The node at `at` ends where the next one starts.
pub open spec fn touches(level: Seq<NodeView>, at: int) -> bool {
    level[at].coverage.spec_adjacent(level[at + 1].coverage)
}

/// The first position, from `from` on, whose node touches the next one.
pub open spec fn oldest_pair(level: Seq<NodeView>, from: int) -> Option<int>
    decreases level.len() - from,
{
    if from < 0 || from + 1 >= level.len() {
        None
    } else if touches(level, from) {
        Some(from)
    } else {
        oldest_pair(level, from + 1)
    }
}

pub proof fn lemma_oldest_pair(level: Seq<NodeView>, from: int)
    requires
        0 <= from,
    ensures
        match oldest_pair(level, from) {
            Some(i) => from <= i && i + 1 < level.len() && touches(level, i) && (forall|k: int|
                from <= k < i ==> !#[trigger] touches(level, k)),
            None => forall|k: int| from <= k && k + 1 < level.len() ==> !#[trigger] touches(level, k),
        },
    decreases level.len() - from,
{
    if from + 1 < level.len() && !touches(level, from) {
        lemma_oldest_pair(level, from + 1);
    }
}

/// The level that a fold at `level` feeds.
pub open spec fn fold_target(level: int, settings: PairwiseCompactionSettings) -> int {
    if level + 1 <= settings.max_summary_levels {
        level + 1
    } else {
        settings.max_summary_levels as int
    }
}

/// `levels` with one empty level more if there is none at `target` yet.
pub open spec fn grown(levels: Seq<Seq<NodeView>>, target: int) -> Seq<Seq<NodeView>> {
    if levels.len() <= target {
        levels.push(Seq::empty())
    } else {
        levels
    }
}

/// What a fold of the pair at `at` asks for.
pub open spec fn missing_summary(
    levels: Seq<Seq<NodeView>>,
    level: int,
    at: int,
    settings: PairwiseCompactionSettings,
) -> MissingView {
    MissingView {
        first: levels[level][at],
        second: levels[level][at + 1],
        coverage: levels[level][at].coverage.through(levels[level][at + 1].coverage),
        level: fold_target(level, settings) as u8,
        token_estimate: settings.summary_token_estimate,
    }
}

/// The levels with the pair at `at` taken out and its placeholder summary put behind the nodes of
/// the target level.
pub open spec fn folded(
    levels: Seq<Seq<NodeView>>,
    level: int,
    at: int,
    settings: PairwiseCompactionSettings,
) -> Seq<Seq<NodeView>> {
    let target = fold_target(level, settings);
    let asked = missing_summary(levels, level, at, settings);
    let all = grown(levels, target);
    let rest = all.update(level, all[level].remove(at + 1).remove(at));
    rest.update(
        target,
        rest[target].push(synthetic_summary(asked.coverage, asked.level, asked.token_estimate)),
    )
}

/// The pair that a level has to fold: none at or under the threshold or above the highest level.
pub open spec fn due_pair(
    level: Seq<NodeView>,
    index: int,
    settings: PairwiseCompactionSettings,
) -> Option<int> {
    if index <= settings.max_summary_levels && level.len() > settings.spec_threshold() {
        oldest_pair(level, 0)
    } else {
        None
    }
}

pub proof fn lemma_folded_shrinks(
    levels: Seq<Seq<NodeView>>,
    level: int,
    at: int,
    settings: PairwiseCompactionSettings,
)
    requires
        0 <= level < levels.len(),
        level <= settings.max_summary_levels,
        0 <= at,
        at + 1 < levels[level].len(),
    ensures
        total_nodes(folded(levels, level, at, settings)) == total_nodes(levels) - 1,
        folded(levels, level, at, settings).len() >= levels.len(),
{
    let target = fold_target(level, settings);
    let all = grown(levels, target);
    assert(levels.push(Seq::empty()).drop_last() =~= levels);
    assert(total_nodes(all) == total_nodes(levels));
    assert(all[level] == levels[level]);
    let fewer = all[level].remove(at + 1).remove(at);
    lemma_total_nodes_update(all, level, fewer);
    let rest = all.update(level, fewer);
    let asked = missing_summary(levels, level, at, settings);
    lemma_total_nodes_update(
        rest,
        target,
        rest[target].push(synthetic_summary(asked.coverage, asked.level, asked.token_estimate)),
    );
}

pub proof fn lemma_sorted_level_total(levels: Seq<Seq<NodeView>>, level: int)
    requires
        0 <= level < levels.len(),
    ensures
        total_nodes(levels.update(level, chronological(levels[level]))) == total_nodes(levels),
        chronological(levels[level]).len() == levels[level].len(),
{
    lemma_stable_sort_len(NodeOrder::Chronological, levels[level]);
    lemma_total_nodes_update(levels, level, chronological(levels[level]));
}

/// What folding comes to from level `level` up: the levels, and the summary that stopped it.
///
/// A level is put in order; while it is over the threshold its oldest adjacent pair is folded;
/// then the next level follows.
pub open spec fn compaction(
    levels: Seq<Seq<NodeView>>,
    level: int,
    settings: PairwiseCompactionSettings,
    source: SummarySource,
) -> (Seq<Seq<NodeView>>, Option<MissingView>)
    decreases total_nodes(levels), levels.len() - level,
    via compaction_decreases
{
    if level < 0 || level >= levels.len() {
        (levels, None)
    } else {
        let sorted = levels.update(level, chronological(levels[level]));
        match due_pair(sorted[level], level, settings) {
            None => compaction(sorted, level + 1, settings, source),
            Some(at) => match source {
                SummarySource::Required => (
                    grown(sorted, fold_target(level, settings)),
                    Some(missing_summary(sorted, level, at, settings)),
                ),
                SummarySource::Synthetic => compaction(
                    folded(sorted, level, at, settings),
                    level,
                    settings,
                    source,
                ),
            },
        }
    }
}

#[via_fn]
proof fn compaction_decreases(
    levels: Seq<Seq<NodeView>>,
    level: int,
    settings: PairwiseCompactionSettings,
    source: SummarySource,
) {
    if 0 <= level < levels.len() {
        lemma_sorted_level_total(levels, level);
        let sorted = levels.update(level, chronological(levels[level]));
        lemma_oldest_pair(sorted[level], 0);
        if let Some(at) = due_pair(sorted[level], level, settings) {
            lemma_folded_shrinks(sorted, level, at, settings);
        }
    }
}

proof fn lemma_level_views_update(
    before: Seq<Vec<PairwiseNode>>,
    after: Seq<Vec<PairwiseNode>>,
    at: int,
)
    requires
        0 <= at < before.len(),
        after == before.update(at, after[at]),
    ensures
        level_views(after) == level_views(before).update(at, node_views(after[at]@)),
        level_views(before)[at] == node_views(before[at]@),
{
    assert(level_views(after) =~= level_views(before).update(at, node_views(after[at]@)));
}

pub fn sort_level(level: &mut Vec<PairwiseNode>)
    ensures
        node_views(final(level)@) == chronological(node_views(old(level)@)),
{
    sort_nodes(level, NodeOrder::Chronological);
}

pub fn sort_levels(levels: &mut Vec<Vec<PairwiseNode>>)
    ensures
        level_views(final(levels)@) == sorted_prefix(
            level_views(old(levels)@),
            old(levels)@.len() as int,
        ),
{
    let ghost input = level_views(levels@);
    let n: usize = levels.len();
    let mut l: usize = 0;
    while l < n
        invariant
            l <= n,
            n == levels@.len(),
            n == input.len(),
            level_views(levels@) == sorted_prefix(input, l as int),
        decreases n - l,
    {
        assert(node_views(levels@[l as int]@) == level_views(levels@)[l as int]);
        let ghost before = levels@;
        sort_level(&mut levels[l]);
        proof {
            lemma_level_views_update(before, levels@, l as int);
        }
        l += 1;
        assert(level_views(levels@) =~= sorted_prefix(input, l as int));
    }
    assert(level_views(levels@) =~= sorted_prefix(input, n as int));
}

pub fn oldest_adjacent_pair_index(nodes: &Vec<PairwiseNode>) -> (r: Option<usize>)
    ensures
        match r {
            Some(i) => oldest_pair(node_views(nodes@), 0) == Some(i as int),
            None => oldest_pair(node_views(nodes@), 0) is None,
        },
{
    let n: usize = nodes.len();
    if n == 0 {
        return None;
    }
    let mut i: usize = 0;
    while i < n - 1
        invariant
            n == nodes@.len(),
            i < n,
            oldest_pair(node_views(nodes@), i as int) == oldest_pair(node_views(nodes@), 0),
        decreases n - i,
    {
        if nodes[i].coverage.is_adjacent_to(nodes[i + 1].coverage) {
            return Some(i);
        }
        i += 1;
    }
    None
}

pub fn saturated_summary_level(level: usize, max_summary_level: usize) -> (r: usize)
    ensures
        r == if level < max_summary_level {
            level + 1
        } else {
            max_summary_level as int
        },
{
    if level < max_summary_level {
        level + 1
    } else {
        max_summary_level
    }
}

fn build_summary(
    source: SummarySource,
    coverage: CoverageInterval,
    level: u8,
    token_estimate: i64,
    first: PairwiseNode,
    second: PairwiseNode,
) -> (r: Result<PairwiseNode, PairwiseMissingSummary>)
    ensures
        source == SummarySource::Synthetic ==> r is Ok && r->Ok_0@ == synthetic_summary(
            coverage,
            level,
            token_estimate,
        ),
        source == SummarySource::Required ==> r is Err && r->Err_0@ == (MissingView {
            first: first@,
            second: second@,
            coverage,
            level,
            token_estimate,
        }),
{
    match source {
        SummarySource::Synthetic => Ok(PairwiseNode::summary(coverage, level, token_estimate)),
        SummarySource::Required => Err(
            PairwiseMissingSummary { first, second, coverage, level, token_estimate },
        ),
    }
}

/// Folds the pair at `at` of level `level`; with no summary at hand only the room for it is made.
fn fold_pair(
    levels: &mut Vec<Vec<PairwiseNode>>,
    level: usize,
    at: usize,
    settings: PairwiseCompactionSettings,
    source: SummarySource,
) -> (r: Result<usize, PairwiseMissingSummary>)
    requires
        level < old(levels)@.len(),
        level <= settings.max_summary_levels,
        at + 1 < old(levels)@[level as int]@.len(),
        touches(level_views(old(levels)@)[level as int], at as int),
    ensures
        match source {
            SummarySource::Synthetic => r is Ok && r->Ok_0 == fold_target(level as int, settings)
                && level_views(final(levels)@) == folded(
                level_views(old(levels)@),
                level as int,
                at as int,
                settings,
            ),
            SummarySource::Required => r is Err && r->Err_0@ == missing_summary(
                level_views(old(levels)@),
                level as int,
                at as int,
                settings,
            ) && level_views(final(levels)@) == grown(
                level_views(old(levels)@),
                fold_target(level as int, settings),
            ),
        },
{
    let ghost input = level_views(levels@);
    assert(node_views(levels@[level as int]@) == input[level as int]);
    assert(levels@[level as int]@.len() <= usize::MAX) by {
        let n: usize = levels@[level as int].len();
    }
    let first = levels[level][at].clone();
    let second = levels[level][at + 1].clone();
    assert(first@ == input[level as int][at as int]);
    assert(second@ == input[level as int][at + 1]);
    let coverage = CoverageInterval {
        raw_start_index: first.coverage.raw_start_index,
        raw_end_exclusive: second.coverage.raw_end_exclusive,
    };
    let target: usize = saturated_summary_level(level, settings.max_summary_levels as usize);
    if levels.len() <= target {
        levels.push(Vec::new());
        assert(node_views(levels@.last()@) =~= Seq::<NodeView>::empty());
    }
    assert(level_views(levels@) =~= grown(input, target as int));
    let ghost all = level_views(levels@);
    match build_summary(
        source,
        coverage,
        target as u8,
        settings.summary_token_estimate,
        first,
        second,
    ) {
        Err(missing) => Err(missing),
        Ok(summary) => {
            assert(node_views(levels@[level as int]@) == all[level as int]);
            levels[level].remove(at + 1);
            levels[level].remove(at);
            let ghost rest = all.update(level as int, all[level as int].remove(at + 1).remove(at as int));
            assert(node_views(levels@[level as int]@) =~= rest[level as int]);
            assert(level_views(levels@) =~= rest);
            assert(node_views(levels@[target as int]@) == rest[target as int]);
            levels[target].push(summary);
            assert(node_views(levels@[target as int]@) =~= rest[target as int].push(summary@));
            assert(level_views(levels@) =~= folded(input, level as int, at as int, settings));
            Ok(target)
        },
    }
}

pub fn compact_levels_with(
    levels: &mut Vec<Vec<PairwiseNode>>,
    settings: PairwiseCompactionSettings,
    source: SummarySource,
) -> (r: Result<(), PairwiseMissingSummary>)
    ensures
        level_views(final(levels)@) == compaction(level_views(old(levels)@), 0, settings, source).0,
        match r {
            Ok(_) => compaction(level_views(old(levels)@), 0, settings, source).1 is None,
            Err(missing) => compaction(level_views(old(levels)@), 0, settings, source).1 == Some(
                missing@,
            ),
        },
{
    let ghost input = level_views(levels@);
    let threshold: usize = settings.threshold();
    let mut level: usize = 0;
    while level < levels.len()
        invariant
            input == level_views(old(levels)@),
            threshold == settings.spec_threshold(),
            level <= levels@.len(),
            compaction(level_views(levels@), level as int, settings, source) == compaction(
                input,
                0,
                settings,
                source,
            ),
        decreases total_nodes(level_views(levels@)), levels@.len() - level,
    {
        let ghost before = level_views(levels@);
        assert(node_views(levels@[level as int]@) == before[level as int]);
        sort_level(&mut levels[level]);
        let ghost sorted = before.update(level as int, chronological(before[level as int]));
        assert(level_views(levels@) =~= sorted);
        proof {
            lemma_sorted_level_total(before, level as int);
            lemma_oldest_pair(sorted[level as int], 0);
        }
        assert(node_views(levels@[level as int]@) == sorted[level as int]);
        let pair: Option<usize> = if level <= settings.max_summary_levels as usize
            && levels[level].len() > threshold {
            oldest_adjacent_pair_index(&levels[level])
        } else {
            None
        };
        match pair {
            None => {
                level += 1;
            },
            Some(at) => {
                proof {
                    lemma_folded_shrinks(sorted, level as int, at as int, settings);
                }
                match fold_pair(levels, level, at, settings, source) {
                    Err(missing) => {
                        return Err(missing);
                    },
                    Ok(_) => {},
                }
            },
        }
    }
    Ok(())
}

pub fn compact_levels(levels: &mut Vec<Vec<PairwiseNode>>, settings: PairwiseCompactionSettings)
    ensures
        level_views(final(levels)@) == compaction(
            level_views(old(levels)@),
            0,
            settings,
            SummarySource::Synthetic,
        ).0,
{
    let _ = compact_levels_with(levels, settings, SummarySource::Synthetic);
}

pub fn compact_levels_requiring_summaries(
    levels: &mut Vec<Vec<PairwiseNode>>,
    settings: PairwiseCompactionSettings,
) -> (r: Result<(), PairwiseMissingSummary>)
    ensures
        level_views(final(levels)@) == compaction(
            level_views(old(levels)@),
            0,
            settings,
            SummarySource::Required,
        ).0,
        match r {
            Ok(_) => compaction(
                level_views(old(levels)@),
                0,
                settings,
                SummarySource::Required,
            ).1 is None,
            Err(missing) => compaction(
                level_views(old(levels)@),
                0,
                settings,
                SummarySource::Required,
            ).1 == Some(missing@),
        },
{
    compact_levels_with(levels, settings, SummarySource::Required)
}

/// The lowest level, from `level` on, that holds an adjacent pair, and its oldest pair.
pub open spec fn promotable_pair(
    levels: Seq<Seq<NodeView>>,
    level: int,
    settings: PairwiseCompactionSettings,
) -> Option<(int, int)>
    decreases levels.len() - level,
{
    if level < 0 || level >= levels.len() || level > settings.max_summary_levels {
        None
    } else {
        match oldest_pair(chronological(levels[level]), 0) {
            Some(at) => Some((level, at)),
            None => promotable_pair(levels, level + 1, settings),
        }
    }
}

pub fn oldest_promotable_pair(
    levels: &mut Vec<Vec<PairwiseNode>>,
    settings: PairwiseCompactionSettings,
) -> (r: Option<(usize, usize)>)
    ensures
        match r {
            Some((level, at)) => promotable_pair(level_views(old(levels)@), 0, settings) == Some(
                (level as int, at as int),
            ) && level < old(levels)@.len() && level <= settings.max_summary_levels && oldest_pair(
                level_views(final(levels)@)[level as int],
                0,
            ) == Some(at as int) && level_views(final(levels)@) == sorted_prefix(
                level_views(old(levels)@),
                level + 1,
            ),
            None => promotable_pair(level_views(old(levels)@), 0, settings) is None && level_views(
                final(levels)@,
            ) == sorted_prefix(
                level_views(old(levels)@),
                settings.max_summary_levels + 1,
            ),
        },
{
    let ghost input = level_views(levels@);
    let n: usize = levels.len();
    let mut level: usize = 0;
    assert(input =~= sorted_prefix(input, 0));
    while level < n && level <= settings.max_summary_levels as usize
        invariant
            input == level_views(old(levels)@),
            n == levels@.len(),
            n == input.len(),
            level <= n,
            level <= settings.max_summary_levels + 1,
            level_views(levels@) == sorted_prefix(input, level as int),
            promotable_pair(input, level as int, settings) == promotable_pair(input, 0, settings),
        decreases n - level,
    {
        assert(node_views(levels@[level as int]@) == level_views(levels@)[level as int]);
        let ghost before = levels@;
        sort_level(&mut levels[level]);
        proof {
            lemma_level_views_update(before, levels@, level as int);
        }
        assert(level_views(levels@) =~= sorted_prefix(input, level + 1));
        assert(node_views(levels@[level as int]@) == level_views(levels@)[level as int]);
        if let Some(at) = oldest_adjacent_pair_index(&levels[level]) {
            return Some((level, at));
        }
        level += 1;
    }
    assert(level_views(levels@) =~= sorted_prefix(input, settings.max_summary_levels + 1));
    None
}

/// What one fold comes to: the levels afterwards, whether a pair was there, and the summary that
/// was missing for it.
pub open spec fn single_fold(
    levels: Seq<Seq<NodeView>>,
    settings: PairwiseCompactionSettings,
    source: SummarySource,
) -> (Seq<Seq<NodeView>>, bool, Option<MissingView>) {
    match promotable_pair(levels, 0, settings) {
        None => (sorted_prefix(levels, settings.max_summary_levels + 1), false, None),
        Some((level, at)) => {
            let sorted = sorted_prefix(levels, level + 1);
            match source {
                SummarySource::Synthetic => {
                    let after = folded(sorted, level, at, settings);
                    (sorted_prefix(after, after.len() as int), true, None)
                },
                SummarySource::Required => (
                    grown(sorted, fold_target(level, settings)),
                    true,
                    Some(missing_summary(sorted, level, at, settings)),
                ),
            }
        },
    }
}

pub fn compact_one_pair_with(
    levels: &mut Vec<Vec<PairwiseNode>>,
    settings: PairwiseCompactionSettings,
    source: SummarySource,
) -> (r: Result<bool, PairwiseMissingSummary>)
    ensures
        level_views(final(levels)@) == single_fold(level_views(old(levels)@), settings, source).0,
        match r {
            Ok(found) => found == single_fold(level_views(old(levels)@), settings, source).1
                && single_fold(level_views(old(levels)@), settings, source).2 is None,
            Err(missing) => single_fold(level_views(old(levels)@), settings, source).2 == Some(
                missing@,
            ),
        },
{
    match oldest_promotable_pair(levels, settings) {
        None => Ok(false),
        Some((level, at)) => {
            proof {
                lemma_oldest_pair(level_views(levels@)[level as int], 0);
            }
            match fold_pair(levels, level, at, settings, source) {
                Err(missing) => Err(missing),
                Ok(_) => {
                    sort_levels(levels);
                    Ok(true)
                },
            }
        },
    }
}

// ---------------------------------------------------------------------------------------------
// The tree.
// ---------------------------------------------------------------------------------------------

/// `node` adds nothing that the summary `above` does not cover.
pub open spec fn dominates(above: NodeView, node: NodeView) -> bool {
    &&& above.kind == PairwiseNodeKind::Summary
    &&& above.level >= node.level
    &&& above.coverage.spec_covers(node.coverage)
}

pub open spec fn dominated_by_any(nodes: Seq<NodeView>, node: NodeView) -> bool {
    exists|k: int| 0 <= k < nodes.len() && dominates(#[trigger] nodes[k], node)
}

/// The nodes, each dropped if one that was kept before it dominates it.
pub open spec fn undominated(nodes: Seq<NodeView>) -> Seq<NodeView>
    decreases nodes.len(),
{
    if nodes.len() == 0 {
        nodes
    } else {
        let kept = undominated(nodes.drop_last());
        if dominated_by_any(kept, nodes.last()) {
            kept
        } else {
            kept.push(nodes.last())
        }
    }
}

/// The nodes of one level, in the order in which they come.
pub open spec fn at_level(nodes: Seq<NodeView>, level: int) -> Seq<NodeView>
    decreases nodes.len(),
{
    if nodes.len() == 0 {
        nodes
    } else if nodes.last().level == level {
        at_level(nodes.drop_last(), level).push(nodes.last())
    } else {
        at_level(nodes.drop_last(), level)
    }
}

/// How many levels the nodes need: one more than the highest level among them.
pub open spec fn depth(nodes: Seq<NodeView>) -> nat
    decreases nodes.len(),
{
    if nodes.len() == 0 {
        0
    } else {
        let rest = depth(nodes.drop_last());
        if rest <= nodes.last().level {
            nodes.last().level as nat + 1
        } else {
            rest
        }
    }
}

/// The nodes parted by level.
pub open spec fn parted(nodes: Seq<NodeView>) -> Seq<Seq<NodeView>> {
    Seq::new(depth(nodes), |l: int| at_level(nodes, l))
}

/// The levels that a list of summaries and raw groups makes: what a summary of the same or a
/// higher level covers is left out, the rest stands by level and in chronological order.
pub open spec fn spec_levels_from_nodes(nodes: Seq<NodeView>) -> Seq<Seq<NodeView>> {
    let levels = parted(undominated(stable_sort(NodeOrder::Dominance, nodes)));
    sorted_prefix(levels, levels.len() as int)
}

proof fn lemma_at_level_above_depth(nodes: Seq<NodeView>, level: int)
    requires
        level >= depth(nodes),
    ensures
        at_level(nodes, level).len() == 0,
    decreases nodes.len(),
{
    if nodes.len() > 0 {
        lemma_at_level_above_depth(nodes.drop_last(), level);
    }
}

fn undominated_exec(nodes: Vec<PairwiseNode>) -> (kept: Vec<PairwiseNode>)
    ensures
        node_views(kept@) == undominated(node_views(nodes@)),
{
    let ghost input = node_views(nodes@);
    let mut kept: Vec<PairwiseNode> = Vec::new();
    assert(node_views(kept@) =~= undominated(input.subrange(0, 0)));
    let mut i: usize = 0;
    while i < nodes.len()
        invariant
            i <= nodes@.len(),
            input == node_views(nodes@),
            node_views(kept@) == undominated(input.subrange(0, i as int)),
        decreases nodes@.len() - i,
    {
        let node = &nodes[i];
        let mut covered = false;
        let mut k: usize = 0;
        while k < kept.len() && !covered
            invariant
                k <= kept@.len(),
                covered == exists|j: int|
                    0 <= j < k && dominates(#[trigger] node_views(kept@)[j], node@),
            decreases kept@.len() - k,
        {
            let above = &kept[k];
            assert(node_views(kept@)[k as int] == above@);
            if above.kind == PairwiseNodeKind::Summary && above.level >= node.level
                && above.coverage.covers(node.coverage) {
                covered = true;
            }
            k += 1;
        }
        proof {
            let next = input.subrange(0, i + 1);
            assert(next.drop_last() =~= input.subrange(0, i as int));
            assert(next.last() == node@);
            assert(covered == dominated_by_any(node_views(kept@), node@));
        }
        if !covered {
            let ghost before = node_views(kept@);
            kept.push(node.clone());
            assert(node_views(kept@) =~= before.push(node@));
        }
        i += 1;
    }
    assert(input.subrange(0, i as int) =~= input);
    kept
}

pub fn levels_from_nodes(nodes: Vec<PairwiseNode>) -> (levels: Vec<Vec<PairwiseNode>>)
    ensures
        level_views(levels@) == spec_levels_from_nodes(node_views(nodes@)),
{
    let mut sorted = nodes;
    sort_nodes(&mut sorted, NodeOrder::Dominance);
    let visible = undominated_exec(sorted);
    let ghost all = node_views(visible@);
    let mut levels: Vec<Vec<PairwiseNode>> = Vec::new();
    assert(level_views(levels@) =~= parted(all.subrange(0, 0)));
    let mut i: usize = 0;
    while i < visible.len()
        invariant
            i <= visible@.len(),
            all == node_views(visible@),
            level_views(levels@) == parted(all.subrange(0, i as int)),
        decreases visible@.len() - i,
    {
        let ghost part = all.subrange(0, i as int);
        let ghost next = all.subrange(0, i + 1);
        let ghost before = level_views(levels@);
        let node = &visible[i];
        let level: usize = node.level as usize;
        assert(next.drop_last() =~= part);
        assert(next.last() == node@);
        while levels.len() <= level
            invariant
                before.len() <= levels@.len(),
                levels@.len() <= level + 1 || levels@.len() == before.len(),
                forall|l: int|
                    0 <= l < levels@.len() ==> #[trigger] level_views(levels@)[l] == if l
                        < before.len() {
                        before[l]
                    } else {
                        Seq::empty()
                    },
            decreases level + 1 - levels@.len(),
        {
            let ghost shorter = level_views(levels@);
            levels.push(Vec::new());
            assert(node_views(levels@.last()@) =~= Seq::<NodeView>::empty());
            assert forall|l: int| 0 <= l < levels@.len() implies #[trigger] level_views(levels@)[l]
                == if l < before.len() {
                before[l]
            } else {
                Seq::empty()
            } by {
                if l < levels@.len() - 1 {
                    assert(level_views(levels@)[l] == shorter[l]);
                }
            }
        }
        let ghost padded = levels@;
        assert(level_views(padded)[level as int] == node_views(padded[level as int]@));
        levels[level].push(node.clone());
        proof {
            lemma_level_views_update(padded, levels@, level as int);
            assert(node_views(levels@[level as int]@) =~= level_views(padded)[level as int].push(
                node@,
            ));
            assert(levels@.len() == depth(next));
            assert forall|l: int| 0 <= l < levels@.len() implies #[trigger] level_views(levels@)[l]
                == at_level(next, l) by {
                if l >= before.len() {
                    lemma_at_level_above_depth(part, l);
                    assert(at_level(part, l) =~= Seq::empty());
                } else {
                    assert(before[l] == at_level(part, l));
                }
            }
            assert(level_views(levels@) =~= parted(next));
        }
        i += 1;
    }
    assert(all.subrange(0, i as int) =~= all);
    sort_levels(&mut levels);
    levels
}

/// The nodes of all levels, the lowest level first.
pub open spec fn all_nodes(levels: Seq<Seq<NodeView>>) -> Seq<NodeView>
    decreases levels.len(),
{
    if levels.len() == 0 {
        Seq::empty()
    } else {
        all_nodes(levels.drop_last()) + levels.last()
    }
}

/// The nodes of all levels in chronological order.
pub open spec fn visible(levels: Seq<Seq<NodeView>>) -> Seq<NodeView> {
    stable_sort(NodeOrder::ChronologicalByLevel, all_nodes(levels))
}

pub open spec fn summaries_of(nodes: Seq<NodeView>) -> Seq<NodeView>
    decreases nodes.len(),
{
    if nodes.len() == 0 {
        nodes
    } else if nodes.last().kind == PairwiseNodeKind::Summary {
        summaries_of(nodes.drop_last()).push(nodes.last())
    } else {
        summaries_of(nodes.drop_last())
    }
}

pub open spec fn ends_before_next(nodes: Seq<NodeView>, at: int) -> bool {
    nodes[at].coverage.raw_end_exclusive <= nodes[at + 1].coverage.raw_start_index
}

/// Every node ends where the next one starts, or before.
pub open spec fn chained(nodes: Seq<NodeView>) -> bool {
    forall|i: int| 0 <= i && i + 1 < nodes.len() ==> #[trigger] ends_before_next(nodes, i)
}

/// Summaries and raw cold groups by level.
#[derive(Debug, PartialEq, Eq)]
pub struct PairwiseSummaryTree {
    pub levels: Vec<Vec<PairwiseNode>>,
}

impl View for PairwiseSummaryTree {
    type V = Seq<Seq<NodeView>>;

    open spec fn view(&self) -> Seq<Seq<NodeView>> {
        level_views(self.levels@)
    }
}

impl PairwiseSummaryTree {
    pub fn from_summaries_and_cold_groups(
        summaries: Vec<PairwiseNode>,
        cold_groups: Vec<PairwiseNode>,
        settings: PairwiseCompactionSettings,
    ) -> (tree: Self)
        ensures
            tree@ == compaction(
                spec_levels_from_nodes(node_views(summaries@) + node_views(cold_groups@)),
                0,
                settings,
                SummarySource::Synthetic,
            ).0,
    {
        let ghost nodes = node_views(summaries@) + node_views(cold_groups@);
        let mut all = summaries;
        let mut rest = cold_groups;
        all.append(&mut rest);
        assert(node_views(all@) =~= nodes);
        let mut levels = levels_from_nodes(all);
        compact_levels(&mut levels, settings);
        PairwiseSummaryTree { levels }
    }

    /// The tree, if no summary that nobody wrote yet is needed to build it.
    pub fn try_from_summaries_and_cold_groups(
        summaries: Vec<PairwiseNode>,
        cold_groups: Vec<PairwiseNode>,
        settings: PairwiseCompactionSettings,
    ) -> (r: Result<Self, PairwiseMissingSummary>)
        ensures
            ({
                let (levels, missing) = compaction(
                    spec_levels_from_nodes(node_views(summaries@) + node_views(cold_groups@)),
                    0,
                    settings,
                    SummarySource::Required,
                );
                match r {
                    Ok(tree) => missing is None && tree@ == levels,
                    Err(m) => missing == Some(m@),
                }
            }),
    {
        let ghost nodes = node_views(summaries@) + node_views(cold_groups@);
        let mut all = summaries;
        let mut rest = cold_groups;
        all.append(&mut rest);
        assert(node_views(all@) =~= nodes);
        let mut levels = levels_from_nodes(all);
        match compact_levels_requiring_summaries(&mut levels, settings) {
            Ok(_) => Ok(PairwiseSummaryTree { levels }),
            Err(missing) => Err(missing),
        }
    }

    /// Folds one pair into a placeholder summary; false if there is none.
    pub fn compact_one_synthetic(&mut self, settings: PairwiseCompactionSettings) -> (folded: bool)
        ensures
            final(self)@ == single_fold(old(self)@, settings, SummarySource::Synthetic).0,
            folded == single_fold(old(self)@, settings, SummarySource::Synthetic).1,
    {
        match compact_one_pair_with(&mut self.levels, settings, SummarySource::Synthetic) {
            Ok(folded) => folded,
            Err(_) => false,
        }
    }

    /// Names the summary that the next fold needs; `Ok(false)` if there is no pair to fold.
    pub fn try_compact_one_requiring_summary(
        &mut self,
        settings: PairwiseCompactionSettings,
    ) -> (r: Result<bool, PairwiseMissingSummary>)
        ensures
            final(self)@ == single_fold(old(self)@, settings, SummarySource::Required).0,
            match r {
                Ok(found) => !found && single_fold(old(self)@, settings, SummarySource::Required).2
                    is None,
                Err(missing) => single_fold(old(self)@, settings, SummarySource::Required).2
                    == Some(missing@),
            },
    {
        compact_one_pair_with(&mut self.levels, settings, SummarySource::Required)
    }

    pub fn from_cold_groups(
        cold_groups: Vec<PairwiseNode>,
        settings: PairwiseCompactionSettings,
    ) -> (tree: Self)
        ensures
            tree@ == compaction(
                spec_levels_from_nodes(node_views(cold_groups@)),
                0,
                settings,
                SummarySource::Synthetic,
            ).0,
    {
        let summaries: Vec<PairwiseNode> = Vec::new();
        assert(node_views(summaries@) + node_views(cold_groups@) =~= node_views(cold_groups@));
        Self::from_summaries_and_cold_groups(summaries, cold_groups, settings)
    }

    /// Every node of the tree, in chronological order.
    pub fn visible_nodes(&self) -> (nodes: Vec<PairwiseNode>)
        ensures
            node_views(nodes@) == visible(self@),
    {
        let mut nodes: Vec<PairwiseNode> = Vec::new();
        let mut l: usize = 0;
        assert(node_views(nodes@) =~= all_nodes(self@.subrange(0, 0)));
        while l < self.levels.len()
            invariant
                l <= self.levels@.len(),
                node_views(nodes@) == all_nodes(self@.subrange(0, l as int)),
            decreases self.levels@.len() - l,
        {
            let level = &self.levels[l];
            let ghost before = node_views(nodes@);
            let mut i: usize = 0;
            assert(node_views(level@.subrange(0, 0)) =~= Seq::<NodeView>::empty());
            assert(before + node_views(level@.subrange(0, 0)) =~= before);
            while i < level.len()
                invariant
                    i <= level@.len(),
                    node_views(nodes@) == before + node_views(level@.subrange(0, i as int)),
                decreases level@.len() - i,
            {
                let ghost so_far = node_views(nodes@);
                nodes.push(level[i].clone());
                assert(node_views(nodes@) =~= so_far.push(level@[i as int]@));
                i += 1;
                assert(node_views(level@.subrange(0, i as int)) =~= node_views(
                    level@.subrange(0, i - 1),
                ).push(level@[i - 1]@));
                assert(node_views(nodes@) =~= before + node_views(level@.subrange(0, i as int)));
            }
            assert(level@.subrange(0, i as int) =~= level@);
            proof {
                let next = self@.subrange(0, l + 1);
                assert(next.drop_last() =~= self@.subrange(0, l as int));
                assert(next.last() == node_views(level@));
            }
            l += 1;
        }
        assert(self@.subrange(0, l as int) =~= self@);
        sort_nodes(&mut nodes, NodeOrder::ChronologicalByLevel);
        nodes
    }

    /// No two visible nodes overlap.
    pub fn assert_exact_once_coverage(&self) -> (r: bool)
        ensures
            r == chained(visible(self@)),
    {
        let nodes = self.visible_nodes();
        let n: usize = nodes.len();
        if n == 0 {
            return true;
        }
        let mut i: usize = 0;
        while i < n - 1
            invariant
                n == nodes@.len(),
                i < n,
                node_views(nodes@) == visible(self@),
                forall|k: int| 0 <= k < i ==> #[trigger] ends_before_next(visible(self@), k),
            decreases n - i,
        {
            assert(visible(self@)[i as int] == nodes@[i as int]@);
            assert(visible(self@)[i + 1] == nodes@[i + 1]@);
            if nodes[i].coverage.raw_end_exclusive > nodes[i + 1].coverage.raw_start_index {
                assert(!ends_before_next(visible(self@), i as int));
                return false;
            }
            i += 1;
        }
        true
    }

    pub fn summary_nodes(&self) -> (summaries: Vec<PairwiseNode>)
        ensures
            node_views(summaries@) == summaries_of(visible(self@)),
    {
        let nodes = self.visible_nodes();
        let ghost all = node_views(nodes@);
        let mut summaries: Vec<PairwiseNode> = Vec::new();
        let mut i: usize = 0;
        assert(node_views(summaries@) =~= summaries_of(all.subrange(0, 0)));
        while i < nodes.len()
            invariant
                i <= nodes@.len(),
                all == node_views(nodes@),
                node_views(summaries@) == summaries_of(all.subrange(0, i as int)),
            decreases nodes@.len() - i,
        {
            proof {
                let next = all.subrange(0, i + 1);
                assert(next.drop_last() =~= all.subrange(0, i as int));
                assert(next.last() == nodes@[i as int]@);
            }
            if nodes[i].kind == PairwiseNodeKind::Summary {
                let ghost before = node_views(summaries@);
                summaries.push(nodes[i].clone());
                assert(node_views(summaries@) =~= before.push(nodes@[i as int]@));
            }
            i += 1;
        }
        assert(all.subrange(0, i as int) =~= all);
        summaries
    }
}

} // verus!
