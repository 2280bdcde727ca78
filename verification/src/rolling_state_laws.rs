//! How the state of a rolling prompt goes on.

use crate::fragments::{
    bounded_sections, bounded_value, escaped, section_text, summary_group_body, summary_sections,
};
use crate::item::{BodyView, ContentView, ItemView};
use crate::exact_tail_replacement_laws::text_cut;
use crate::rolling_pairwise::{answered, RequestView};
use crate::rolling_prompt::starting_state;
use crate::rolling_state::{
    aligned, cache_committed, committed, outlasting, reserve_share, scaled_target, supersedes,
    target, with_summaries, with_summary, StateView,
};
use crate::summary_tree::{
    coverage_label_text, summary_item, CoverageInterval, NodeView, PairwiseNodeKind,
};
use crate::text::{decimal, joined};
use crate::tokens::{law_truncation_shows_both_ends, truncated};
use vstd::prelude::*;
use vstd::string::*;

verus! {

// -- summaries --------------------------------------------------------------------------------

/// A summary lies within a range at or below a level.
pub open spec fn lies_within(node: NodeView, range: CoverageInterval, level: u8) -> bool {
    &&& range.raw_start_index <= node.coverage.raw_start_index
    &&& node.coverage.raw_end_exclusive <= range.raw_end_exclusive
    &&& node.level <= level
}

/// A new summary takes the place of those that lie within its range at or below its level. All
/// others stay, in their order, and the new one comes last, unless one that stays covers its range
/// at its level or above.
pub proof fn law_new_summary_replaces_what_it_covers(
    summaries: Seq<NodeView>,
    summary: NodeView,
)
    ensures
        ({
            let others = summaries.filter(
                |n: NodeView| !lies_within(n, summary.coverage, summary.level),
            );
            let known = exists|k: int|
                {
                    &&& 0 <= k < others.len()
                    &&& (#[trigger] others[k]).level >= summary.level
                    &&& others[k].coverage.raw_start_index <= summary.coverage.raw_start_index
                    &&& others[k].coverage.raw_end_exclusive >= summary.coverage.raw_end_exclusive
                };
            with_summary(summaries, summary) == if known {
                others
            } else {
                others.push(summary)
            }
        }),
{
    lemma_outlasting_is_filter(summaries, summary.coverage, summary.level);
    let others = outlasting(summaries, summary.coverage, summary.level);
    if exists|k: int|
        0 <= k < others.len() && supersedes(#[trigger] others[k], summary.coverage, summary.level) {
        let k = choose|k: int|
            0 <= k < others.len() && supersedes(
                #[trigger] others[k],
                summary.coverage,
                summary.level,
            );
        assert(others[k].level >= summary.level);
    }
    if exists|k: int|
        {
            &&& 0 <= k < others.len()
            &&& (#[trigger] others[k]).level >= summary.level
            &&& others[k].coverage.raw_start_index <= summary.coverage.raw_start_index
            &&& others[k].coverage.raw_end_exclusive >= summary.coverage.raw_end_exclusive
        } {
        let k = choose|k: int|
            {
                &&& 0 <= k < others.len()
                &&& (#[trigger] others[k]).level >= summary.level
                &&& others[k].coverage.raw_start_index <= summary.coverage.raw_start_index
                &&& others[k].coverage.raw_end_exclusive >= summary.coverage.raw_end_exclusive
            };
        assert(supersedes(others[k], summary.coverage, summary.level));
    }
}

proof fn lemma_outlasting_is_filter(
    summaries: Seq<NodeView>,
    coverage: CoverageInterval,
    level: u8,
)
    ensures
        outlasting(summaries, coverage, level) == summaries.filter(
            |n: NodeView| !lies_within(n, coverage, level),
        ),
    decreases summaries.len(),
{
    reveal(Seq::filter);
    if summaries.len() > 0 {
        lemma_outlasting_is_filter(summaries.drop_last(), coverage, level);
    }
}

/// The summary that an answer makes covers the range that was asked for, at the level and with the
/// estimate of the request, and its text is the answer.
pub proof fn law_answer_becomes_a_summary(request: RequestView, text: Seq<char>)
    ensures
        ({
            let node = answered(request, text);
            &&& node.coverage.raw_start_index == request.raw_start_index
            &&& node.coverage.raw_end_exclusive == request.raw_end_exclusive
            &&& node.level == request.level
            &&& node.token_estimate == request.token_estimate
            &&& node.kind == PairwiseNodeKind::Summary
            &&& node.summary_text == Some(text)
        }),
{
}

/// Summaries are taken over one after the other.
pub proof fn law_summaries_are_added_in_order(
    summaries: Seq<NodeView>,
    more: Seq<NodeView>,
    last: NodeView,
)
    ensures
        with_summaries(summaries, Seq::empty()) == summaries,
        with_summaries(summaries, more.push(last)) == with_summary(
            with_summaries(summaries, more),
            last,
        ),
{
    assert(more.push(last).drop_last() =~= more);
}

// -- commits ----------------------------------------------------------------------------------

/// A projection that was sent is taken over: its summaries and its basis, and the later of the two
/// cursors. A cursor behind the end of the history, or one of another version, counts for nothing.
pub proof fn law_sent_projection_is_taken_over(
    state: StateView,
    projected: StateView,
    raw_len: usize,
)
    ensures
        ({
            let after = committed(state, projected, raw_len);
            &&& after.pairwise_summaries == projected.pairwise_summaries
            &&& after.projection_basis_fingerprint == projected.projection_basis_fingerprint
            &&& after.history_version == projected.history_version
            &&& if state.history_version == projected.history_version
                && state.raw_history_start_index <= raw_len && state.raw_history_start_index
                > projected.raw_history_start_index {
                after.raw_history_start_index == state.raw_history_start_index
            } else {
                after.raw_history_start_index == projected.raw_history_start_index
            }
        }),
{
}

/// Taking over summaries never moves the cursor of a state on the same basis, and takes nothing
/// from another version of the history. From another basis the projection is taken over whole.
pub proof fn law_cached_summaries_are_taken_over(state: StateView, projected: StateView)
    ensures
        ({
            let after = cache_committed(state, projected);
            let same = state.projection_basis_fingerprint == projected.projection_basis_fingerprint;
            &&& state.history_version != projected.history_version ==> after == state
            &&& state.history_version == projected.history_version && !same ==> after == projected
            &&& state.history_version == projected.history_version && same ==> {
                &&& after.raw_history_start_index == state.raw_history_start_index
                &&& after.history_version == state.history_version
                &&& after.projection_basis_fingerprint == state.projection_basis_fingerprint
                &&& after.pairwise_summaries == with_summaries(
                    state.pairwise_summaries,
                    projected.pairwise_summaries,
                )
            }
        }),
{
}

/// A state of another version of the history starts over: no cursor, no summaries. Else the cursor
/// stays, but not behind the end, and at the end no summary is left.
pub proof fn law_state_follows_its_history(state: StateView, version: u64, raw_len: usize)
    ensures
        ({
            let after = aligned(state, version, raw_len);
            &&& after.history_version == version
            &&& after.projection_basis_fingerprint == state.projection_basis_fingerprint
            &&& after.raw_history_start_index <= raw_len
            &&& state.history_version != version ==> after.raw_history_start_index == 0
                && after.pairwise_summaries.len() == 0
            &&& state.history_version == version && state.raw_history_start_index < raw_len
                ==> after == state
            &&& state.history_version == version && state.raw_history_start_index >= raw_len
                ==> after.raw_history_start_index == raw_len && after.pairwise_summaries.len() == 0
        }),
{
}

/// A prompt on another basis than the last starts without summaries, and with pairwise summaries
/// from the beginning of the history; on the same basis it goes on where it was.
pub proof fn law_another_basis_starts_over(
    state: StateView,
    version: u64,
    raw_len: usize,
    fingerprint: u64,
    pairwise: bool,
)
    ensures
        ({
            let start = starting_state(state, version, raw_len, fingerprint, pairwise);
            let before = aligned(state, version, raw_len);
            &&& start.projection_basis_fingerprint == fingerprint
            &&& start.history_version == version
            &&& state.projection_basis_fingerprint == fingerprint ==> start == before
            &&& state.projection_basis_fingerprint != fingerprint ==> {
                &&& start.pairwise_summaries.len() == 0
                &&& start.raw_history_start_index == if pairwise {
                    0
                } else {
                    before.raw_history_start_index
                }
            }
        }),
{
}

// -- the target -------------------------------------------------------------------------------

/// The target is the window without a reserve, of ten percent where nothing else is said and of
/// ninety at most; a smaller positive wish takes its place. Scaled down by a percentage it is that
/// share of it, and at least one.
pub proof fn law_target_leaves_the_reserve(
    window: i64,
    reserve: Option<u8>,
    wish: Option<i64>,
    scale: Option<u8>,
)
    requires
        0 < window <= 0x00ff_ffff_ffff_ffff,
    ensures
        ({
            let percent = match reserve {
                Some(p) => if p <= 90 {
                    p as int
                } else {
                    90
                },
                None => 10,
            };
            let free = window - window * percent / 100;
            let aim = target(window, reserve, wish);
            let scaled = scaled_target(aim, scale);
            &&& free >= 1
            &&& aim == if wish is Some && 0 < wish->Some_0 && wish->Some_0 < free {
                wish->Some_0 as int
            } else {
                free
            }
            &&& scaled == match scale {
                Some(s) => if s >= 100 {
                    aim as int
                } else if aim * s / 100 < 1 {
                    1
                } else {
                    aim * s / 100
                },
                None => aim as int,
            }
        }),
{
    let percent = reserve_share(reserve);
    assert(0 <= window * percent <= window * 90) by (nonlinear_arith)
        requires
            window > 0,
            0 <= percent <= 90,
    ;
    assert(window * percent / 100 < window) by (nonlinear_arith)
        requires
            0 <= window * percent <= window * 90,
            window > 0,
    ;
    let aim = target(window, reserve, wish);
    if let Some(s) = scale {
        if s < 100 {
            assert(0 <= aim * s <= aim * 100) by (nonlinear_arith)
                requires
                    aim >= 0,
                    0 <= s < 100,
            ;
        }
    }
}

// -- how a summary is shown -------------------------------------------------------------------

/// A summary is shown to the model as a message of the user between its marks. It names its level
/// and its range, says that it is no authority, and holds its text in the section on the state of
/// the work, escaped and cut to the smaller of the two caps.
pub proof fn law_summary_is_shown(node: NodeView, cap: nat, cap_max: nat, shown: Seq<char>)
    requires
        cap * 4 <= usize::MAX,
        node.summary_text matches Some(text) && text.len() > 0,
        cap > 0,
        cap_max > 0,
        shown == truncated(
            node.summary_text->Some_0,
            if cap < cap_max {
                cap
            } else {
                cap_max
            },
        ),
    ensures
        ({
            let tokens = if cap < cap_max {
                cap
            } else {
                cap_max
            };
            let label = "raw["@ + decimal(node.coverage.raw_start_index as nat) + ".."@ + decimal(
                node.coverage.raw_end_exclusive as nat,
            ) + ")"@;
            let head = "<rollctx_summary_group level=\""@ + decimal(node.level as nat)
                + "\" covers=\""@ + escaped(truncated(label, 128))
                + "\" authority=\"non_authoritative_context_cache\">\n"@;
            let before = "<standing_facts></standing_facts>\n"@ + "<decisions></decisions>\n"@
                + "<open_threads></open_threads>\n"@ + "<implementation_state>"@;
            let after = "</implementation_state>\n"@ + "<warnings_and_constraints></warnings_and_constraints>\n"@
                + "<user_preferences></user_preferences>\n"@
                + "<discarded_low_value_material></discarded_low_value_material>\n"@
                + "</rollctx_summary_group>"@;
            &&& text_cut(shown, node.summary_text->Some_0, tokens)
            &&& summary_item(node, cap, cap_max) == ItemView {
                id: None,
                metadata: None,
                body: BodyView::Message {
                    role: "user"@,
                    content: seq![
                        ContentView::InputText {
                            text: head + before + escaped(shown) + after,
                        },
                    ],
                    phase: None,
                },
            }
        }),
{
    let text = node.summary_text->Some_0;
    let tokens = if cap < cap_max {
        cap
    } else {
        cap_max
    };
    let none = Seq::<char>::empty();
    law_truncation_shows_both_ends(text, tokens);
    let sections = summary_sections(text);
    let label = coverage_label_text(node.coverage);
    let parts = bounded_sections(sections, tokens).0;
    let rendered = seq![
        section_text("standing_facts"@, none),
        section_text("decisions"@, none),
        section_text("open_threads"@, none),
        section_text("implementation_state"@, shown),
        section_text("warnings_and_constraints"@, none),
        section_text("user_preferences"@, none),
        section_text("discarded_low_value_material"@, none),
    ];
    lemma_sections(text, tokens);
    assert(parts =~= rendered);
    lemma_rendered(shown);
    let head = "<rollctx_summary_group"@ + (" level=\""@ + decimal(node.level as nat)
        + "\" covers=\""@ + escaped(truncated(label, 128))
        + "\" authority=\"non_authoritative_context_cache\">\n"@);
    reveal_strlit("<rollctx_summary_group");
    reveal_strlit(" level=\"");
    reveal_strlit("<rollctx_summary_group level=\"");
    assert("<rollctx_summary_group"@ + " level=\""@ =~= "<rollctx_summary_group level=\""@);
    let wanted_head = "<rollctx_summary_group level=\""@ + decimal(node.level as nat)
        + "\" covers=\""@ + escaped(truncated(label, 128))
        + "\" authority=\"non_authoritative_context_cache\">\n"@;
    assert(head =~= ("<rollctx_summary_group"@ + " level=\""@) + decimal(node.level as nat)
        + "\" covers=\""@ + escaped(truncated(label, 128))
        + "\" authority=\"non_authoritative_context_cache\">\n"@);
    let before = "<standing_facts></standing_facts>\n"@ + "<decisions></decisions>\n"@
                + "<open_threads></open_threads>\n"@ + "<implementation_state>"@;
    let after = "</implementation_state>\n"@ + "<warnings_and_constraints></warnings_and_constraints>\n"@
                + "<user_preferences></user_preferences>\n"@
                + "<discarded_low_value_material></discarded_low_value_material>\n"@
                + "</rollctx_summary_group>"@;
    let body = joined(rendered, "\n"@);
    let whole = "<rollctx_summary_group"@ + summary_group_body(
        node.level,
        label,
        sections,
        tokens,
        128,
    ) + "</rollctx_summary_group>"@;
    assert(whole =~= head + (body + "\n"@ + "</rollctx_summary_group>"@));
    assert(whole =~= wanted_head + before + escaped(shown) + after);
    let item = summary_item(node, cap, cap_max);
    assert(item.body->Message_content =~= seq![ContentView::InputText { text: whole }]);
}

proof fn lemma_sections(text: Seq<char>, tokens: nat)
    requires
        tokens > 0,
        text.len() > 0,
    ensures
        ({
            let none = Seq::<char>::empty();
            bounded_sections(summary_sections(text), tokens).0 =~= seq![
                section_text("standing_facts"@, none),
                section_text("decisions"@, none),
                section_text("open_threads"@, none),
                section_text("implementation_state"@, truncated(text, tokens)),
                section_text("warnings_and_constraints"@, none),
                section_text("user_preferences"@, none),
                section_text("discarded_low_value_material"@, none),
            ]
        }),
{
    let none = Seq::<char>::empty();
    let s = summary_sections(text);
    let s0 = s.subrange(0, 0);
    let s1 = s.subrange(0, 1);
    let s2 = s.subrange(0, 2);
    let s3 = s.subrange(0, 3);
    let s4 = s.subrange(0, 4);
    let s5 = s.subrange(0, 5);
    let s6 = s.subrange(0, 6);
    assert(s.drop_last() =~= s6);
    assert(s6.drop_last() =~= s5);
    assert(s5.drop_last() =~= s4);
    assert(s4.drop_last() =~= s3);
    assert(s3.drop_last() =~= s2);
    assert(s2.drop_last() =~= s1);
    assert(s1.drop_last() =~= s0);
    assert(bounded_sections(s0, tokens) == (Seq::<Seq<char>>::empty(), tokens));
    assert(bounded_value(none, tokens) == (none, tokens));
    assert(bounded_sections(s1, tokens).1 == tokens);
    assert(bounded_sections(s2, tokens).1 == tokens);
    assert(bounded_sections(s3, tokens).1 == tokens);
    let left = bounded_sections(s4, tokens).1;
    assert(bounded_value(none, left) == (none, left));
    assert(bounded_sections(s5, tokens).1 == left);
    assert(bounded_sections(s6, tokens).1 == left);
}

proof fn lemma_empty_sections()
    ensures
        section_text("standing_facts"@, Seq::empty()) + "\n"@ == "<standing_facts></standing_facts>\n"@,
        section_text("decisions"@, Seq::empty()) + "\n"@ == "<decisions></decisions>\n"@,
        section_text("open_threads"@, Seq::empty()) + "\n"@ == "<open_threads></open_threads>\n"@,
{
    let none = Seq::<char>::empty();
    assert(escaped(none) =~= none);
    reveal_strlit("<");
    reveal_strlit(">");
    reveal_strlit("</");
    reveal_strlit("\n");
    assert(section_text("standing_facts"@, none) + "\n"@ =~= "<standing_facts></standing_facts>\n"@)
        by {
        reveal_strlit("standing_facts");
        reveal_strlit("<standing_facts></standing_facts>\n");
    }
    assert(section_text("decisions"@, none) + "\n"@ =~= "<decisions></decisions>\n"@) by {
        reveal_strlit("decisions");
        reveal_strlit("<decisions></decisions>\n");
    }
    assert(section_text("open_threads"@, none) + "\n"@ =~= "<open_threads></open_threads>\n"@) by {
        reveal_strlit("open_threads");
        reveal_strlit("<open_threads></open_threads>\n");
    }
}

proof fn lemma_later_empty_sections()
    ensures
        section_text("warnings_and_constraints"@, Seq::empty()) + "\n"@
            == "<warnings_and_constraints></warnings_and_constraints>\n"@,
        section_text("user_preferences"@, Seq::empty()) + "\n"@
            == "<user_preferences></user_preferences>\n"@,
        section_text("discarded_low_value_material"@, Seq::empty()) + "\n"@
            == "<discarded_low_value_material></discarded_low_value_material>\n"@,
{
    let none = Seq::<char>::empty();
    assert(escaped(none) =~= none);
    reveal_strlit("<");
    reveal_strlit(">");
    reveal_strlit("</");
    reveal_strlit("\n");
    assert(section_text("warnings_and_constraints"@, none) + "\n"@
        =~= "<warnings_and_constraints></warnings_and_constraints>\n"@) by {
        reveal_strlit("warnings_and_constraints");
        reveal_strlit("<warnings_and_constraints></warnings_and_constraints>\n");
    }
    assert(section_text("user_preferences"@, none) + "\n"@
        =~= "<user_preferences></user_preferences>\n"@) by {
        reveal_strlit("user_preferences");
        reveal_strlit("<user_preferences></user_preferences>\n");
    }
    assert(section_text("discarded_low_value_material"@, none) + "\n"@
        =~= "<discarded_low_value_material></discarded_low_value_material>\n"@) by {
        reveal_strlit("discarded_low_value_material");
        reveal_strlit("<discarded_low_value_material></discarded_low_value_material>\n");
    }
}

proof fn lemma_state_section(shown: Seq<char>)
    ensures
        section_text("implementation_state"@, shown) + "\n"@ == "<implementation_state>"@ + escaped(
            shown,
        ) + "</implementation_state>\n"@,
{
    reveal_strlit("<");
    reveal_strlit(">");
    reveal_strlit("</");
    reveal_strlit("\n");
    reveal_strlit("implementation_state");
    reveal_strlit("<implementation_state>");
    reveal_strlit("</implementation_state>\n");
    let open = "<"@ + "implementation_state"@ + ">"@;
    let close = "</"@ + "implementation_state"@ + ">"@ + "\n"@;
    assert(open =~= "<implementation_state>"@);
    assert(close =~= "</implementation_state>\n"@);
    assert(section_text("implementation_state"@, shown) + "\n"@ =~= open + escaped(shown) + close);
}

/// The sections of a summary that came as one text, one per line, with the end mark behind them.
proof fn lemma_rendered(shown: Seq<char>)
    ensures
        ({
            let none = Seq::<char>::empty();
            joined(
                seq![
                    section_text("standing_facts"@, none),
                    section_text("decisions"@, none),
                    section_text("open_threads"@, none),
                    section_text("implementation_state"@, shown),
                    section_text("warnings_and_constraints"@, none),
                    section_text("user_preferences"@, none),
                    section_text("discarded_low_value_material"@, none),
                ],
                "\n"@,
            ) + "\n"@ + "</rollctx_summary_group>"@ == ("<standing_facts></standing_facts>\n"@ + "<decisions></decisions>\n"@
                + "<open_threads></open_threads>\n"@ + "<implementation_state>"@)
                + escaped(shown) + ("</implementation_state>\n"@ + "<warnings_and_constraints></warnings_and_constraints>\n"@
                + "<user_preferences></user_preferences>\n"@
                + "<discarded_low_value_material></discarded_low_value_material>\n"@
                + "</rollctx_summary_group>"@)
        }),
{
    let none = Seq::<char>::empty();
    let a = section_text("standing_facts"@, none);
    let b = section_text("decisions"@, none);
    let c = section_text("open_threads"@, none);
    let d = section_text("implementation_state"@, shown);
    let e = section_text("warnings_and_constraints"@, none);
    let f = section_text("user_preferences"@, none);
    let g = section_text("discarded_low_value_material"@, none);
    lemma_joined_seven(a, b, c, d, e, f, g);
    lemma_empty_sections();
    lemma_later_empty_sections();
    lemma_state_section(shown);
    lemma_lines(a, b, c, d, e, f, g, "\n"@, "</rollctx_summary_group>"@);
    lemma_regroup(
        a + "\n"@,
        b + "\n"@,
        c + "\n"@,
        "<implementation_state>"@,
        escaped(shown),
        "</implementation_state>\n"@,
        e + "\n"@,
        f + "\n"@,
        g + "\n"@,
        "</rollctx_summary_group>"@,
    );
}

proof fn lemma_lines(
    a: Seq<char>,
    b: Seq<char>,
    c: Seq<char>,
    d: Seq<char>,
    e: Seq<char>,
    f: Seq<char>,
    g: Seq<char>,
    n: Seq<char>,
    end: Seq<char>,
)
    ensures
        a + n + b + n + c + n + d + n + e + n + f + n + g + n + end == (a + n) + (b + n) + (c + n)
            + (d + n) + (e + n) + (f + n) + (g + n) + end,
{
    assert(a + n + b + n =~= (a + n) + (b + n));
    assert((a + n) + (b + n) + c + n =~= (a + n) + (b + n) + (c + n));
    let abc = (a + n) + (b + n) + (c + n);
    assert(abc + d + n =~= abc + (d + n));
    let abcd = abc + (d + n);
    assert(abcd + e + n =~= abcd + (e + n));
    let abcde = abcd + (e + n);
    assert(abcde + f + n =~= abcde + (f + n));
    let most = abcde + (f + n);
    assert(most + g + n =~= most + (g + n));
}

proof fn lemma_regroup(
    a: Seq<char>,
    b: Seq<char>,
    c: Seq<char>,
    open: Seq<char>,
    shown: Seq<char>,
    close: Seq<char>,
    e: Seq<char>,
    f: Seq<char>,
    g: Seq<char>,
    end: Seq<char>,
)
    ensures
        a + b + c + (open + shown + close) + e + f + g + end == (a + b + c + open) + shown + (close
            + e + f + g + end),
{
    let front = a + b + c;
    assert(front + (open + shown + close) =~= front + open + shown + close);
    let head = front + open + shown;
    assert(head + close + e + f + g + end =~= head + (close + e + f + g + end));
}

proof fn lemma_joined_seven(
    a: Seq<char>,
    b: Seq<char>,
    c: Seq<char>,
    d: Seq<char>,
    e: Seq<char>,
    f: Seq<char>,
    g: Seq<char>,
)
    ensures
        joined(seq![a, b, c, d, e, f, g], "\n"@) == a + "\n"@ + b + "\n"@ + c + "\n"@ + d + "\n"@
            + e + "\n"@ + f + "\n"@ + g,
{
    let s = seq![a, b, c, d, e, f, g];
    assert(s.drop_last() =~= seq![a, b, c, d, e, f]);
    assert(seq![a, b, c, d, e, f].drop_last() =~= seq![a, b, c, d, e]);
    assert(seq![a, b, c, d, e].drop_last() =~= seq![a, b, c, d]);
    assert(seq![a, b, c, d].drop_last() =~= seq![a, b, c]);
    assert(seq![a, b, c].drop_last() =~= seq![a, b]);
    assert(seq![a, b].drop_last() =~= seq![a]);
    assert(joined(seq![a], "\n"@) == a);
    assert(joined(seq![a, b], "\n"@) == a + "\n"@ + b);
    assert(joined(seq![a, b, c], "\n"@) == a + "\n"@ + b + "\n"@ + c);
    assert(joined(seq![a, b, c, d], "\n"@) == a + "\n"@ + b + "\n"@ + c + "\n"@ + d);
    assert(joined(seq![a, b, c, d, e], "\n"@) == a + "\n"@ + b + "\n"@ + c + "\n"@ + d + "\n"@ + e);
    assert(joined(seq![a, b, c, d, e, f], "\n"@) == a + "\n"@ + b + "\n"@ + c + "\n"@ + d + "\n"@ + e
        + "\n"@ + f);
}

} // verus!
