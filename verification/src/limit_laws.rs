//! What limits leave, and which groups are named.

use crate::exact_tail_groups::TailGroupView;
use crate::exact_tail_plan::ids_of;
use crate::fragments::{bounded_sections, bounded_value, escaped};
use crate::rolling::{over_limit, GroupView};
use crate::rolling_pairwise::first_group_over;
use crate::rolling_prompt::output_limit;
use crate::session_model::SessionModel;
use crate::text::text_bytes;
use crate::tokens::{text_tokens, truncated};
use vstd::prelude::*;

verus! {

/// A tool output may take what is configured, but one token at least and ten thousand at most.
pub proof fn law_output_limit(configured: i64)
    ensures
        1 <= output_limit(configured) <= 10_000,
        1 <= configured <= 10_000 ==> output_limit(configured) == configured,
        configured <= 0 ==> output_limit(configured) == 1,
        configured >= 10_000 ==> output_limit(configured) == 10_000,
{
}

/// The first of some groups that is over the limit is found: no earlier one is, and none is found
/// exactly where none is over it.
pub proof fn law_first_group_over_the_limit<M: SessionModel>(
    model: M,
    groups: Seq<GroupView>,
    from: int,
    at: int,
)
    requires
        0 <= from <= at <= groups.len(),
        forall|k: int| from <= k < at ==> !over_limit(model, (#[trigger] groups[k]).items),
    ensures
        at == groups.len() ==> first_group_over(model, groups, from) is None,
        at < groups.len() && over_limit(model, groups[at].items) ==> first_group_over(
            model,
            groups,
            from,
        ) == Some(groups[at]),
    decreases at - from,
{
    if from < at {
        assert(!over_limit(model, groups[from].items));
        law_first_group_over_the_limit(model, groups, from + 1, at);
    }
}

/// The groups of a range are named one for one, in order.
pub proof fn law_groups_are_named_in_order(groups: Seq<TailGroupView>, from: int, to: int)
    requires
        0 <= from <= to <= groups.len(),
    ensures
        ids_of(groups, from, to).len() == to - from,
        forall|k: int|
            0 <= k < to - from ==> #[trigger] ids_of(groups, from, to)[k] == groups[from
                + k].id as usize,
    decreases to - from,
{
    if from < to {
        law_groups_are_named_in_order(groups, from, to - 1);
    }
}

/// A section takes from the budget what it shows; one that is empty, or for which nothing is left,
/// shows nothing and takes nothing. The budget never grows.
pub proof fn law_section_takes_what_it_shows(value: Seq<char>, remaining: nat)
    ensures
        ({
            let (shown, left) = bounded_value(value, remaining);
            &&& left <= remaining
            &&& text_tokens(shown) <= remaining ==> left + text_tokens(shown) == remaining
            &&& text_tokens(shown) > remaining ==> left == 0
            &&& remaining == 0 || value.len() == 0 ==> shown.len() == 0
            &&& remaining > 0 && value.len() > 0 ==> shown == truncated(value, remaining)
        }),
{
    assert(Seq::<char>::empty().len() == 0);
    if remaining == 0 || value.len() == 0 {
        assert(text_bytes(Seq::<char>::empty()) == 0);
    }
}

/// Sections are shown in order, one for one, each under its name with its value escaped, and the
/// earlier ones are served first.
pub proof fn law_sections_are_shown_in_order(
    sections: Seq<(Seq<char>, Seq<char>)>,
    name: Seq<char>,
    value: Seq<char>,
    budget: nat,
)
    ensures
        ({
            let (before, left) = bounded_sections(sections, budget);
            let (all, rest) = bounded_sections(sections.push((name, value)), budget);
            let shown = if left == 0 || value.len() == 0 {
                ""@
            } else {
                truncated(value, left)
            };
            &&& all.len() == sections.len() + 1
            &&& all.drop_last() == before
            &&& all.last() == "<"@ + name + ">"@ + escaped(shown) + "</"@ + name + ">"@
            &&& rest <= left
        }),
    decreases sections.len(),
{
    reveal_strlit("");
    assert(""@ =~= Seq::<char>::empty());
    let more = sections.push((name, value));
    assert(more.drop_last() =~= sections);
    lemma_section_count(sections, budget);
    let (before, left) = bounded_sections(sections, budget);
    assert(bounded_sections(more, budget).0.drop_last() =~= before);
}

proof fn lemma_section_count(sections: Seq<(Seq<char>, Seq<char>)>, budget: nat)
    ensures
        bounded_sections(sections, budget).0.len() == sections.len(),
    decreases sections.len(),
{
    if sections.len() > 0 {
        lemma_section_count(sections.drop_last(), budget);
    }
}

} // verus!
