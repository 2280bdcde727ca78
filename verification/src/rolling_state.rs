//! What a rolling prompt remembers between requests, and the budgets it keeps to.

use crate::item::ResponseItem;
use crate::session_model::{saturating, saturating_sub};
use crate::summary_tree::{node_views, CoverageInterval, NodeView, PairwiseNode};
use vstd::prelude::*;

verus! {

/// The recorded items of a session. The version changes when what is recorded is rewritten.
#[derive(Debug)]
pub struct History {
    pub raw_items: Vec<ResponseItem>,
    pub version: u64,
}

/// How far a prompt has rolled on, and the summaries that stand for what it left behind.
#[derive(Debug, PartialEq, Eq)]
pub struct RollingPromptState {
    pub history_version: u64,
    pub raw_history_start_index: usize,
    pub projection_basis_fingerprint: u64,
    pub pairwise_summaries: Vec<PairwiseNode>,
}

pub struct StateView {
    pub history_version: u64,
    pub raw_history_start_index: usize,
    pub projection_basis_fingerprint: u64,
    pub pairwise_summaries: Seq<NodeView>,
}

impl View for RollingPromptState {
    type V = StateView;

    open spec fn view(&self) -> StateView {
        StateView {
            history_version: self.history_version,
            raw_history_start_index: self.raw_history_start_index,
            projection_basis_fingerprint: self.projection_basis_fingerprint,
            pairwise_summaries: node_views(self.pairwise_summaries@),
        }
    }
}

pub fn clone_nodes(nodes: &Vec<PairwiseNode>) -> (r: Vec<PairwiseNode>)
    ensures
        r@ == nodes@,
{
    let mut r: Vec<PairwiseNode> = Vec::new();
    let mut i: usize = 0;
    while i < nodes.len()
        invariant
            i <= nodes@.len(),
            r@ == nodes@.subrange(0, i as int),
        decreases nodes@.len() - i,
    {
        r.push(nodes[i].clone());
        i += 1;
        assert(nodes@.subrange(0, i as int) =~= nodes@.subrange(0, i - 1).push(nodes@[i - 1]));
    }
    assert(nodes@.subrange(0, i as int) =~= nodes@);
    r
}

impl Clone for RollingPromptState {
    fn clone(&self) -> (r: Self)
        ensures
            r@ == self@,
    {
        RollingPromptState {
            history_version: self.history_version,
            raw_history_start_index: self.raw_history_start_index,
            projection_basis_fingerprint: self.projection_basis_fingerprint,
            pairwise_summaries: clone_nodes(&self.pairwise_summaries),
        }
    }
}

impl Default for RollingPromptState {
    fn default() -> (r: Self)
        ensures
            r@ == (StateView {
                history_version: 0,
                raw_history_start_index: 0,
                projection_basis_fingerprint: 0,
                pairwise_summaries: Seq::empty(),
            }),
    {
        let r = RollingPromptState {
            history_version: 0,
            raw_history_start_index: 0,
            projection_basis_fingerprint: 0,
            pairwise_summaries: Vec::new(),
        };
        assert(node_views(r.pairwise_summaries@) =~= Seq::<NodeView>::empty());
        r
    }
}

/// The larger of the two.
pub open spec fn larger(a: usize, b: usize) -> usize {
    if a >= b {
        a
    } else {
        b
    }
}

/// The state after a projection was sent. Within one version of the history the cursor never goes
/// back, unless it pointed behind the end.
pub open spec fn committed(state: StateView, projected: StateView, raw_history_len: usize) -> StateView {
    if state.history_version != projected.history_version {
        projected
    } else {
        StateView {
            history_version: state.history_version,
            raw_history_start_index: if state.raw_history_start_index > raw_history_len {
                projected.raw_history_start_index
            } else {
                larger(state.raw_history_start_index, projected.raw_history_start_index)
            },
            projection_basis_fingerprint: projected.projection_basis_fingerprint,
            pairwise_summaries: projected.pairwise_summaries,
        }
    }
}

/// The summary stays beside a new one that covers `coverage` at `level`.
pub open spec fn outlasts(existing: NodeView, coverage: CoverageInterval, level: u8) -> bool {
    !coverage.spec_covers(existing.coverage) || existing.level > level
}

pub open spec fn outlasting(
    summaries: Seq<NodeView>,
    coverage: CoverageInterval,
    level: u8,
) -> Seq<NodeView>
    decreases summaries.len(),
{
    if summaries.len() == 0 {
        summaries
    } else if outlasts(summaries.last(), coverage, level) {
        outlasting(summaries.drop_last(), coverage, level).push(summaries.last())
    } else {
        outlasting(summaries.drop_last(), coverage, level)
    }
}

/// A summary that is there already makes a new one superfluous.
pub open spec fn supersedes(existing: NodeView, coverage: CoverageInterval, level: u8) -> bool {
    existing.level >= level && existing.coverage.spec_covers(coverage)
}

/// The summaries with one more: those that it covers go, and it is added unless one of the rest
/// covers it.
pub open spec fn with_summary(summaries: Seq<NodeView>, summary: NodeView) -> Seq<NodeView> {
    let kept = outlasting(summaries, summary.coverage, summary.level);
    if exists|k: int|
        0 <= k < kept.len() && supersedes(#[trigger] kept[k], summary.coverage, summary.level) {
        kept
    } else {
        kept.push(summary)
    }
}

/// The summaries with several more, one after the other.
pub open spec fn with_summaries(summaries: Seq<NodeView>, more: Seq<NodeView>) -> Seq<NodeView>
    decreases more.len(),
{
    if more.len() == 0 {
        summaries
    } else {
        with_summary(with_summaries(summaries, more.drop_last()), more.last())
    }
}

/// The state after summaries of another projection were taken over. A projection of another
/// version of the history gives nothing. One on the same basis gives its summaries; one on
/// another basis gives its cursor too.
pub open spec fn cache_committed(state: StateView, projected: StateView) -> StateView {
    if state.history_version != projected.history_version {
        state
    } else if state.projection_basis_fingerprint == projected.projection_basis_fingerprint {
        StateView {
            pairwise_summaries: with_summaries(
                state.pairwise_summaries,
                projected.pairwise_summaries,
            ),
            ..state
        }
    } else {
        projected
    }
}

impl RollingPromptState {
    /// Takes over what a sent projection came to.
    pub fn commit_projection(&mut self, projected: &Self, raw_history_len: usize)
        ensures
            final(self)@ == committed(old(self)@, projected@, raw_history_len),
    {
        if self.history_version != projected.history_version {
            *self = projected.clone();
            return;
        }
        if self.raw_history_start_index > raw_history_len || self.raw_history_start_index
            < projected.raw_history_start_index {
            self.raw_history_start_index = projected.raw_history_start_index;
        }
        self.projection_basis_fingerprint = projected.projection_basis_fingerprint;
        self.pairwise_summaries = clone_nodes(&projected.pairwise_summaries);
    }

    /// Adds a summary to those that stand for the history.
    pub fn add_pairwise_summary(&mut self, summary: PairwiseNode)
        ensures
            final(self)@ == (StateView {
                pairwise_summaries: with_summary(old(self)@.pairwise_summaries, summary@),
                ..old(self)@
            }),
    {
        let ghost before = self@;
        let ghost all = before.pairwise_summaries;
        let coverage = summary.coverage;
        let level = summary.level;
        let mut kept: Vec<PairwiseNode> = Vec::new();
        let mut superseded = false;
        let mut i: usize = 0;
        assert(node_views(kept@) =~= outlasting(all.subrange(0, 0), coverage, level));
        while i < self.pairwise_summaries.len()
            invariant
                self@ == before,
                all == before.pairwise_summaries,
                i <= self.pairwise_summaries@.len(),
                node_views(kept@) == outlasting(all.subrange(0, i as int), coverage, level),
                superseded == exists|k: int|
                    0 <= k < node_views(kept@).len() && supersedes(
                        #[trigger] node_views(kept@)[k],
                        coverage,
                        level,
                    ),
            decreases self.pairwise_summaries@.len() - i,
        {
            let existing = &self.pairwise_summaries[i];
            proof {
                let next = all.subrange(0, i + 1);
                assert(next.drop_last() =~= all.subrange(0, i as int));
                assert(next.last() == existing@);
            }
            if !coverage.covers(existing.coverage) || existing.level > level {
                let ghost shorter = node_views(kept@);
                let ghost was = superseded;
                kept.push(existing.clone());
                if existing.level >= level && existing.coverage.covers(coverage) {
                    superseded = true;
                }
                proof {
                    assert(node_views(kept@) =~= shorter.push(existing@));
                    if superseded {
                        if was {
                            let k = choose|k: int|
                                0 <= k < shorter.len() && supersedes(
                                    #[trigger] shorter[k],
                                    coverage,
                                    level,
                                );
                            assert(supersedes(node_views(kept@)[k], coverage, level));
                        } else {
                            assert(supersedes(
                                node_views(kept@)[shorter.len() as int],
                                coverage,
                                level,
                            ));
                        }
                    } else {
                        assert forall|k: int| 0 <= k < node_views(kept@).len() implies !supersedes(
                            #[trigger] node_views(kept@)[k],
                            coverage,
                            level,
                        ) by {
                            if k < shorter.len() {
                                assert(node_views(kept@)[k] == shorter[k]);
                            }
                        }
                    }
                }
            }
            i += 1;
        }
        assert(all.subrange(0, i as int) =~= all);
        if !superseded {
            let ghost shorter = node_views(kept@);
            kept.push(summary);
            assert(node_views(kept@) =~= shorter.push(summary@));
        }
        self.pairwise_summaries = kept;
    }

    /// Takes over the summaries of another projection.
    pub fn commit_pairwise_summary_cache(&mut self, projected: &Self)
        ensures
            final(self)@ == cache_committed(old(self)@, projected@),
    {
        if self.history_version != projected.history_version {
            return;
        }
        if self.projection_basis_fingerprint != projected.projection_basis_fingerprint {
            *self = projected.clone();
            return;
        }
        let ghost before = self@;
        let ghost more = projected@.pairwise_summaries;
        let mut i: usize = 0;
        assert(with_summaries(before.pairwise_summaries, more.subrange(0, 0))
            == before.pairwise_summaries);
        while i < projected.pairwise_summaries.len()
            invariant
                i <= projected.pairwise_summaries@.len(),
                more == projected@.pairwise_summaries,
                self@ == (StateView {
                    pairwise_summaries: with_summaries(
                        before.pairwise_summaries,
                        more.subrange(0, i as int),
                    ),
                    ..before
                }),
            decreases projected.pairwise_summaries@.len() - i,
        {
            proof {
                let next = more.subrange(0, i + 1);
                assert(next.drop_last() =~= more.subrange(0, i as int));
                assert(next.last() == projected.pairwise_summaries@[i as int]@);
            }
            self.add_pairwise_summary(projected.pairwise_summaries[i].clone());
            i += 1;
        }
        assert(more.subrange(0, i as int) =~= more);
    }

    /// This state with the summaries of a projection on the same version and basis.
    pub fn with_pairwise_summaries_from_projection(&self, projected: &Self) -> (r: Self)
        ensures
            r@ == if self.history_version == projected.history_version
                && self.projection_basis_fingerprint == projected.projection_basis_fingerprint {
                StateView { pairwise_summaries: projected@.pairwise_summaries, ..self@ }
            } else {
                self@
            },
    {
        let mut state = self.clone();
        if self.history_version == projected.history_version && self.projection_basis_fingerprint
            == projected.projection_basis_fingerprint {
            state.pairwise_summaries = clone_nodes(&projected.pairwise_summaries);
        }
        state
    }
}

/// The state brought in line with the history: another version starts it anew, the cursor stays
/// within the items, and a cursor at their end needs no summaries.
pub open spec fn aligned(state: StateView, version: u64, raw_len: usize) -> StateView {
    let fresh = if state.history_version != version {
        StateView {
            history_version: version,
            raw_history_start_index: 0,
            pairwise_summaries: Seq::empty(),
            ..state
        }
    } else {
        state
    };
    let start = if fresh.raw_history_start_index <= raw_len {
        fresh.raw_history_start_index
    } else {
        raw_len
    };
    StateView {
        raw_history_start_index: start,
        pairwise_summaries: if start == raw_len {
            Seq::empty()
        } else {
            fresh.pairwise_summaries
        },
        ..fresh
    }
}

pub fn reset_or_clamp_state(history: &History, state: &mut RollingPromptState)
    ensures
        final(state)@ == aligned(old(state)@, history.version, history.raw_items@.len() as usize),
{
    let len: usize = history.raw_items.len();
    if state.history_version != history.version {
        state.history_version = history.version;
        state.raw_history_start_index = 0;
        state.pairwise_summaries = Vec::new();
        assert(state@.pairwise_summaries =~= Seq::<NodeView>::empty());
    }
    if state.raw_history_start_index > len {
        state.raw_history_start_index = len;
    }
    if state.raw_history_start_index == len {
        state.pairwise_summaries = Vec::new();
        assert(state@.pairwise_summaries =~= Seq::<NodeView>::empty());
    }
}

// ---------------------------------------------------------------------------------------------
// Targets.
// ---------------------------------------------------------------------------------------------

/// The share of the context window that is kept free by default, in percent.
pub const DEFAULT_ROLLING_CONTEXT_RESERVE_PERCENT: u8 = 10;

/// At most this share is kept free.
pub const MAX_ROLLING_CONTEXT_RESERVE_PERCENT: u8 = 90;

pub open spec fn reserve_share(reserve_percent: Option<u8>) -> int {
    let percent = match reserve_percent {
        Some(percent) => percent,
        None => DEFAULT_ROLLING_CONTEXT_RESERVE_PERCENT,
    };
    if percent <= MAX_ROLLING_CONTEXT_RESERVE_PERCENT {
        percent as int
    } else {
        MAX_ROLLING_CONTEXT_RESERVE_PERCENT as int
    }
}

/// `n / d`, rounded towards zero.
pub open spec fn truncating_div(n: int, d: int) -> int {
    if n >= 0 {
        n / d
    } else {
        -((-n) / d)
    }
}

/// The window without the reserve.
pub open spec fn window_target(window: i64, reserve_percent: Option<u8>) -> i64 {
    let reserve = truncating_div(saturating(window * reserve_share(reserve_percent)) as int, 100);
    let rest = saturating(window - reserve);
    if rest < 1 {
        1
    } else {
        rest
    }
}

/// The tokens that a prompt aims at: the window without the reserve, or a smaller wish.
pub open spec fn target(window: i64, reserve_percent: Option<u8>, target_tokens: Option<i64>) -> i64 {
    let limit = window_target(window, reserve_percent);
    match target_tokens {
        Some(wish) => if 0 < wish < limit {
            wish
        } else {
            limit
        },
        None => limit,
    }
}

/// `a * b`, held within the range of `i64`.
pub fn saturating_mul(a: i64, b: i64) -> (r: i64)
    ensures
        r == saturating(a * b),
{
    match a.checked_mul(b) {
        Some(product) => product,
        None => {
            proof {
                assert((a > 0 && b > 0) || (a < 0 && b < 0) ==> a * b > 0) by (nonlinear_arith);
                assert((a > 0 && b < 0) || (a < 0 && b > 0) ==> a * b < 0) by (nonlinear_arith);
                assert(a == 0 || b == 0 ==> a * b == 0) by (nonlinear_arith);
            }
            if (a > 0) == (b > 0) {
                i64::MAX
            } else {
                i64::MIN
            }
        },
    }
}

/// `n / d`, rounded towards zero.
pub fn divided(n: i64, d: i64) -> (r: i64)
    requires
        d > 1,
    ensures
        r == truncating_div(n as int, d as int),
{
    proof {
        let magnitude = -(n as int);
        assert(n < 0 ==> 0 <= magnitude / (d as int) < magnitude || magnitude / (d as int) == 0)
            by (nonlinear_arith)
            requires
                d > 1,
                magnitude == -(n as int),
        ;
    }
    match n.checked_div(d) {
        Some(quotient) => quotient,
        None => 0,
    }
}

pub fn rolling_target_tokens(
    effective_context_window: i64,
    reserve_percent: Option<u8>,
    target_tokens: Option<i64>,
) -> (r: i64)
    ensures
        r == target(effective_context_window, reserve_percent, target_tokens),
{
    let percent: u8 = match reserve_percent {
        Some(percent) => percent,
        None => DEFAULT_ROLLING_CONTEXT_RESERVE_PERCENT,
    };
    let percent: u8 = if percent <= MAX_ROLLING_CONTEXT_RESERVE_PERCENT {
        percent
    } else {
        MAX_ROLLING_CONTEXT_RESERVE_PERCENT
    };
    let reserve: i64 = divided(saturating_mul(effective_context_window, percent as i64), 100);
    let rest: i64 = saturating_sub(effective_context_window, reserve);
    let limit: i64 = if rest < 1 {
        1
    } else {
        rest
    };
    match target_tokens {
        Some(wish) => if 0 < wish && wish < limit {
            wish
        } else {
            limit
        },
        None => limit,
    }
}

/// The target after a back-off to a share of it; at least one token.
pub open spec fn scaled_target(target: i64, target_scale_percent: Option<u8>) -> i64 {
    match target_scale_percent {
        Some(percent) => if percent >= 100 {
            target
        } else {
            let scaled = truncating_div(saturating(target * percent) as int, 100);
            if scaled < 1 {
                1
            } else {
                scaled as i64
            }
        },
        None => target,
    }
}

pub fn apply_target_scale(target: i64, target_scale_percent: Option<u8>) -> (r: i64)
    ensures
        r == scaled_target(target, target_scale_percent),
{
    match target_scale_percent {
        None => target,
        Some(percent) => if percent >= 100 {
            target
        } else {
            let scaled: i64 = divided(saturating_mul(target, percent as i64), 100);
            if scaled < 1 {
                1
            } else {
                scaled
            }
        },
    }
}

// -- laws -------------------------------------------------------------------------------------

/// A prompt always aims at one token or more, and within a positive window at no more than the
/// window.
pub proof fn law_target_lies_within_the_window(
    window: i64,
    reserve_percent: Option<u8>,
    target_tokens: Option<i64>,
    target_scale_percent: Option<u8>,
)
    requires
        window > 0,
    ensures
        1 <= scaled_target(target(window, reserve_percent, target_tokens), target_scale_percent)
            <= window,
{
    let share = reserve_share(reserve_percent);
    assert(0 <= window * share) by (nonlinear_arith)
        requires
            window > 0,
            share >= 0,
    ;
    let aim = target(window, reserve_percent, target_tokens);
    assert(1 <= aim <= window);
    if let Some(percent) = target_scale_percent {
        if percent < 100 {
            assert(0 <= aim * percent <= aim * 100) by (nonlinear_arith)
                requires
                    aim > 0,
                    0 <= percent < 100,
            ;
        }
    }
}

/// Within one version of the history, a committed projection never moves a valid cursor back.
pub proof fn law_cursor_never_goes_back(
    state: StateView,
    projected: StateView,
    raw_history_len: usize,
)
    requires
        state.history_version == projected.history_version,
        state.raw_history_start_index <= raw_history_len,
    ensures
        committed(state, projected, raw_history_len).raw_history_start_index
            >= state.raw_history_start_index,
        committed(state, projected, raw_history_len).raw_history_start_index
            >= projected.raw_history_start_index,
{
}

/// A state that is in line with its history stays as it is.
pub proof fn law_alignment_is_stable(state: StateView, version: u64, raw_len: usize)
    ensures
        aligned(aligned(state, version, raw_len), version, raw_len) == aligned(
            state,
            version,
            raw_len,
        ),
{
}

proof fn lemma_outlasting(summaries: Seq<NodeView>, coverage: CoverageInterval, level: u8)
    ensures
        forall|k: int|
            0 <= k < outlasting(summaries, coverage, level).len() ==> outlasts(
                #[trigger] outlasting(summaries, coverage, level)[k],
                coverage,
                level,
            ),
    decreases summaries.len(),
{
    if summaries.len() > 0 {
        let rest = outlasting(summaries.drop_last(), coverage, level);
        let all = outlasting(summaries, coverage, level);
        lemma_outlasting(summaries.drop_last(), coverage, level);
        assert forall|k: int| 0 <= k < all.len() implies outlasts(
            #[trigger] all[k],
            coverage,
            level,
        ) by {
            if k < rest.len() {
                assert(all[k] == rest[k]);
            }
        }
    }
}

/// After a summary was added, its range is covered at its level or above, and no other summary of
/// its level or below lies within its range.
pub proof fn law_added_summary_stands(summaries: Seq<NodeView>, summary: NodeView)
    ensures
        ({
            let after = with_summary(summaries, summary);
            &&& exists|k: int|
                0 <= k < after.len() && supersedes(
                    #[trigger] after[k],
                    summary.coverage,
                    summary.level,
                )
            &&& forall|k: int|
                0 <= k < after.len() ==> #[trigger] after[k] == summary || outlasts(
                    after[k],
                    summary.coverage,
                    summary.level,
                )
        }),
{
    let kept = outlasting(summaries, summary.coverage, summary.level);
    lemma_outlasting(summaries, summary.coverage, summary.level);
    let after = with_summary(summaries, summary);
    if !(exists|k: int|
        0 <= k < kept.len() && supersedes(#[trigger] kept[k], summary.coverage, summary.level)) {
        assert(supersedes(after[kept.len() as int], summary.coverage, summary.level));
        assert forall|k: int| 0 <= k < after.len() implies #[trigger] after[k] == summary
            || outlasts(after[k], summary.coverage, summary.level) by {
            if k < kept.len() {
                assert(after[k] == kept[k]);
            }
        }
    }
}

} // verus!
