//! What the groups of a rolling prompt hold.

use crate::fragments::{
    ContextualUserFragment, ExtensionContextualUserFragment, RollingInvariantDeveloperContext,
};
use crate::item::{BodyView, ContentView, ItemView};
use crate::rolling::{sent_groups, sent_item, sent_items, sent_prefix};
use crate::rolling_context_filter::{
    current_invariant_content, developer_sections, group_start, historical_at, historical_item, legacy_preamble,
    message_of, static_content, static_part,
};
use crate::rolling_groups::{
    call_output, group_step, groups_from, lemma_turn_group_end,
    span_takes_turn_input, takes_turn_input, turn_group_end, kept_items, last_output, lemma_group_step,
    lemma_last_output, lemma_span_end, lemma_turn_input_run, next_index, span_end, spec_call_key,
    spec_output_key, RawGroupView,
};
use crate::rolling_projection::{projected_item, projected_message};
use crate::rolling_prompt_laws::law_groups_keep_calls_with_outputs;
use crate::session_model::{InputModality, SessionModel};
use crate::text::between_markers;
use vstd::prelude::*;
use vstd::string::*;

verus! {

// -- what every request carries anew ----------------------------------------------------------

/// The part is standing context: a description of the environment, what an extension put in, or
/// the user's standing instructions in their present or their former marks.
pub open spec fn standing_part<M: SessionModel>(model: M, part: ContentView) -> bool {
    match part {
        ContentView::InputText { text } => {
            ||| model.spec_environment_context(text)
            ||| model.spec_user_instructions(text)
            ||| ExtensionContextualUserFragment::spec_matches_text(text)
            ||| between_markers(text, "<user_instructions>"@, "</user_instructions>"@)
        },
        _ => false,
    }
}

/// The item says nothing of its own: it stands in the prefix and is not the user's, or it is a
/// developer message that is generated, or a message of the user with standing context alone.
pub open spec fn standing_item<M: SessionModel>(
    model: M,
    item: ItemView,
    prefix: Seq<ItemView>,
) -> bool {
    let user = item.body is Message && item.body->Message_role == "user"@;
    let developer = item.body is Message && item.body->Message_role == "developer"@;
    let content = item.body->Message_content;
    ||| !user && exists|i: int| 0 <= i < prefix.len() && #[trigger] prefix[i] == item
    ||| user && content.len() > 0 && forall|k: int|
        0 <= k < content.len() ==> standing_part(model, #[trigger] content[k])
    ||| developer && (model.spec_rolling_invariant_developer(content)
        || model.spec_contextual_developer(content) || current_invariant_content(content, prefix))
}

/// Only standing context is left to be carried anew, all of it; and beside it a developer message
/// that opens the history before any conversation, where the prefix has developer messages.
pub proof fn law_only_standing_context_is_left_out<M: SessionModel>(
    model: M,
    raw: Seq<ItemView>,
    at: int,
    prefix: Seq<ItemView>,
)
    requires
        0 <= at < raw.len(),
    ensures
        standing_item(model, raw[at], prefix) ==> historical_at(model, raw, at, prefix),
        historical_at(model, raw, at, prefix) && !standing_item(model, raw[at], prefix) ==> {
            &&& raw[at].body is Message
            &&& raw[at].body->Message_role == "developer"@
            &&& exists|i: int|
                0 <= i < prefix.len() && #[trigger] prefix[i].body is Message
                    && prefix[i].body->Message_role == "developer"@
            &&& forall|i: int|
                0 <= i < at && #[trigger] raw[i].body is Message ==> raw[i].body->Message_role
                    != "assistant"@
            &&& forall|i: int|
                0 <= i < at ==> !standing_item(model, #[trigger] raw[i], prefix)
        },
{
    lemma_standing_item(model, raw[at], prefix);
    assert forall|i: int| 0 <= i < at implies standing_item(model, #[trigger] raw[i], prefix)
        == historical_item(model, raw[i], prefix) by {
        lemma_standing_item(model, raw[i], prefix);
    }
    if legacy_preamble(model, raw, at, prefix) {
        let i = choose|i: int| 0 <= i < prefix.len() && message_of(#[trigger] prefix[i], "developer"@);
        assert(prefix[i].body is Message);
        assert forall|i: int| 0 <= i < at && #[trigger] raw[i].body is Message implies
            raw[i].body->Message_role != "assistant"@ by {
            assert(!crate::rolling_context_filter::conversation_anchor(model, raw[i]));
        }
        assert forall|i: int| 0 <= i < at implies !standing_item(
            model,
            #[trigger] raw[i],
            prefix,
        ) by {
            assert(!historical_item(model, raw[i], prefix));
        }
    }
}

proof fn lemma_standing_item<M: SessionModel>(model: M, item: ItemView, prefix: Seq<ItemView>)
    ensures
        standing_item(model, item, prefix) == historical_item(model, item, prefix),
{
    reveal_strlit("user");
    reveal_strlit("developer");
    assert("user"@.len() != "developer"@.len());
    if let BodyView::Message { role, content, phase } = item.body {
        assert forall|k: int| 0 <= k < content.len() implies standing_part(
            model,
            #[trigger] content[k],
        ) == static_part(model, content[k]) by {}
        if static_content(model, content) {
            assert forall|k: int| 0 <= k < content.len() implies standing_part(
                model,
                #[trigger] content[k],
            ) by {
                assert(static_part(model, content[k]));
            }
        }
    }
    if prefix.contains(item) {
        let i = choose|i: int| 0 <= i < prefix.len() && prefix[i] == item;
        assert(prefix[i] == item);
    }
}

/// The sections of a developer message are its texts but for the mark of an invariant message; two
/// messages that say the same, marked or not, have the same sections.
pub proof fn law_sections_are_the_texts(content: Seq<ContentView>, part: ContentView)
    ensures
        match part {
            ContentView::InputText { text } => developer_sections(content.push(part)) == match developer_sections(
            content) {
                Some(sections) => if RollingInvariantDeveloperContext::spec_matches_text(text) {
                    Some(sections)
                } else {
                    Some(sections.push(text))
                },
                None => None,
            },
            _ => developer_sections(content.push(part)) is None,
        },
{
    assert(content.push(part).drop_last() =~= content);
}

// -- what the groups hold ---------------------------------------------------------------------

/// The items between two indices that are not context which every request carries anew.
pub open spec fn items_between<M: SessionModel>(
    model: M,
    raw: Seq<ItemView>,
    from: int,
    to: int,
    prefix: Seq<ItemView>,
) -> Seq<ItemView> {
    crate::rolling_body_laws::body_indices(model, raw, from, to, prefix).map_values(
        |i: int| raw[i],
    )
}

proof fn lemma_kept_items<M: SessionModel>(
    model: M,
    raw: Seq<ItemView>,
    from: int,
    to: int,
    prefix: Seq<ItemView>,
)
    ensures
        kept_items(model, raw, from, to, prefix) == items_between(model, raw, from, to, prefix),
    decreases to - from,
{
    reveal(Seq::filter);
    if from < to {
        lemma_kept_items(model, raw, from, to - 1, prefix);
        let all = Seq::new((to - from) as nat, |k: int| from + k);
        assert(all.drop_last() =~= Seq::new((to - 1 - from) as nat, |k: int| from + k));
        assert(all.last() == to - 1);
        assert(kept_items(model, raw, from, to, prefix) =~= items_between(
            model,
            raw,
            from,
            to,
            prefix,
        ));
    } else {
        assert(kept_items(model, raw, from, to, prefix) =~= items_between(
            model,
            raw,
            from,
            to,
            prefix,
        ));
    }
}

proof fn lemma_kept_has<M: SessionModel>(
    model: M,
    raw: Seq<ItemView>,
    from: int,
    to: int,
    prefix: Seq<ItemView>,
    i: int,
)
    requires
        from <= i < to,
        !historical_at(model, raw, i, prefix),
    ensures
        kept_items(model, raw, from, to, prefix).contains(raw[i]),
    decreases to - from,
{
    let all = kept_items(model, raw, from, to, prefix);
    if i == to - 1 {
        assert(all[all.len() - 1] == raw[i]);
    } else {
        lemma_kept_has(model, raw, from, to - 1, prefix, i);
        let rest = kept_items(model, raw, from, to - 1, prefix);
        let k = choose|k: int| 0 <= k < rest.len() && rest[k] == raw[i];
        assert(all[k] == raw[i]);
    }
}

/// The item is a tool call or the output of one.
pub open spec fn tool_item(item: ItemView) -> bool {
    ||| item.body is FunctionCall
    ||| item.body is FunctionCallOutput
    ||| item.body is CustomToolCall
    ||| item.body is CustomToolCallOutput
    ||| item.body is ToolSearchCall
    ||| item.body is ToolSearchOutput
    ||| item.body is LocalShellCall
}

/// Some group holds the item at `i`: it lies in its range and is one of its items.
pub open spec fn held_by(groups: Seq<RawGroupView>, raw: Seq<ItemView>, i: int, k: int) -> bool {
    &&& 0 <= k < groups.len()
    &&& groups[k].start <= i < groups[k].end
    &&& groups[k].items.contains(raw[i])
}

/// Everything said from the cursor on is in a group: every item that is neither a tool call nor an
/// output, nor context which every request carries anew.
pub proof fn law_groups_hold_what_was_said<M: SessionModel>(
    model: M,
    raw: Seq<ItemView>,
    index: int,
    cursor: int,
    prefix: Seq<ItemView>,
    i: int,
)
    requires
        0 <= cursor <= index <= i < raw.len(),
        !tool_item(raw[i]),
        !historical_at(model, raw, i, prefix),
    ensures
        exists|k: int| #[trigger]
            held_by(groups_from(model, raw, index, cursor, prefix), raw, i, k),
    decreases raw.len() - index,
{
    lemma_group_step(model, raw, index, cursor, prefix);
    let next = next_index(model, raw, index, cursor, prefix);
    let all = groups_from(model, raw, index, cursor, prefix);
    let rest = groups_from(model, raw, next, cursor, prefix);
    match group_step(model, raw, index, prefix).0 {
        Some(group) => {
            assert(all == seq![group] + rest);
            if i < group.end {
                assert(group.items.contains(raw[i])) by {
                    match span_end(raw, index) {
                        Some(end) => {
                            lemma_kept_has(model, raw, index, group.end, prefix, i);
                        },
                        None => {
                            assert(group.items[i - index] == raw[i]);
                        },
                    }
                }
                assert(all[0] == group);
                assert(held_by(all, raw, i, 0));
            } else {
                law_groups_hold_what_was_said(model, raw, next, cursor, prefix, i);
                let k = choose|k: int| #[trigger] held_by(rest, raw, i, k);
                assert(all[k + 1] == rest[k]);
                assert(held_by(all, raw, i, k + 1));
            }
        },
        None => {
            assert(all == rest);
            assert(i != index) by {
                if i == index {
                    assert(spec_output_key(raw[i]) is None);
                    assert(spec_call_key(raw[i]) is None);
                }
            }
            law_groups_hold_what_was_said(model, raw, next, cursor, prefix, i);
        },
    }
}

/// A group holds nothing but what stands in its range: its items are those of the range, in order,
/// but for context which every request carries anew.
pub proof fn law_group_items_are_those_of_the_range<M: SessionModel>(
    model: M,
    raw: Seq<ItemView>,
    index: int,
    cursor: int,
    prefix: Seq<ItemView>,
    k: int,
)
    requires
        0 <= index,
        0 <= k < groups_from(model, raw, index, cursor, prefix).len(),
    ensures
        ({
            let group = groups_from(model, raw, index, cursor, prefix)[k];
            ||| group.items == raw.subrange(group.start, group.end)
            ||| group.items == items_between(model, raw, group.start, group.end, prefix)
        }),
    decreases raw.len() - index,
{
    if index < raw.len() {
        lemma_group_step(model, raw, index, cursor, prefix);
        let next = next_index(model, raw, index, cursor, prefix);
        let all = groups_from(model, raw, index, cursor, prefix);
        let rest = groups_from(model, raw, next, cursor, prefix);
        let step = group_step(model, raw, index, prefix);
        if step.0 is Some && index >= cursor {
            let group = step.0->Some_0;
            assert(all == seq![group] + rest);
            if k == 0 {
                match span_end(raw, index) {
                    Some(_) => {
                        lemma_kept_items(model, raw, index, group.end, prefix);
                    },
                    None => {
                        assert(group.items =~= raw.subrange(group.start, group.end));
                    },
                }
            } else {
                assert(all[k] == rest[k - 1]);
                law_group_items_are_those_of_the_range(model, raw, next, cursor, prefix, k - 1);
            }
        } else {
            assert(all == rest);
            law_group_items_are_those_of_the_range(model, raw, next, cursor, prefix, k);
        }
    }
}

/// The second item is an output for the first.
pub open spec fn answers(call: ItemView, output: ItemView) -> bool {
    match (call.body, output.body) {
        (
            BodyView::FunctionCall { name, namespace, arguments, call_id },
            BodyView::FunctionCallOutput { call_id: other, output: _ },
        ) => call_id == other,
        (
            BodyView::LocalShellCall { call_id, status, action },
            BodyView::FunctionCallOutput { call_id: other, output: _ },
        ) => call_id == Some(other),
        (
            BodyView::CustomToolCall { status, call_id, name, input },
            BodyView::CustomToolCallOutput { call_id: other, name: _, output: _ },
        ) => call_id == other,
        (
            BodyView::ToolSearchCall { call_id, status, execution, arguments },
            BodyView::ToolSearchOutput { call_id: other, status: _, execution: _, tools: _ },
        ) => call_id is Some && call_id == other,
        _ => false,
    }
}

/// A call and the last output for it are in the same group or in none.
pub proof fn law_call_and_output_share_a_group<M: SessionModel>(
    model: M,
    raw: Seq<ItemView>,
    cursor: int,
    prefix: Seq<ItemView>,
    call: int,
    output: int,
    group: int,
)
    requires
        forall|p: int| 0 <= p < prefix.len() ==> (#[trigger] prefix[p]).body is Message,
        0 <= call < output < raw.len(),
        answers(raw[call], raw[output]),
        forall|k: int| output < k < raw.len() ==> !answers(raw[call], #[trigger] raw[k]),
        0 <= group < groups_from(model, raw, 0, cursor, prefix).len(),
    ensures
        ({
            let g = groups_from(model, raw, 0, cursor, prefix)[group];
            g.start <= call < g.end <==> g.start <= output < g.end
        }),
{
    let key = spec_call_key(raw[call])->Some_0;
    lemma_last_output(raw, key);
    assert(spec_output_key(raw[output]) == Some(key));
    let last = last_output(raw, key)->Some_0;
    if last > output {
        assert(spec_output_key(raw[last]) == Some(key));
        assert(answers(raw[call], raw[last])) by {
            assert(spec_call_key(raw[call]) == Some(key));
        }
    }
    assert(last == output);
    assert(call_output(raw, call, output));
    law_groups_keep_calls_with_outputs(model, raw, cursor, prefix, call, output, group);
}

/// A call at which a span starts has a group of its own span: all that lies between it and the
/// last output in the span.
pub proof fn law_span_is_in_one_group<M: SessionModel>(
    model: M,
    raw: Seq<ItemView>,
    index: int,
    prefix: Seq<ItemView>,
    i: int,
)
    requires
        0 <= index < raw.len(),
        !historical_at(model, raw, index, prefix),
        span_end(raw, index) is Some,
        index <= i <= span_end(raw, index)->Some_0,
        !historical_at(model, raw, i, prefix),
    ensures
        group_step(model, raw, index, prefix).0 matches Some(group) && group.start == index
            && span_end(raw, index)->Some_0 < group.end && group.items.contains(raw[i]),
{
    lemma_span_end(raw, index);
    let end = span_end(raw, index)->Some_0;
    lemma_turn_input_run(model, raw, end + 1, prefix, None);
    let group = group_step(model, raw, index, prefix).0->Some_0;
    lemma_kept_has(model, raw, index, group.end, prefix, i);
}

/// Generated context that stays with a turn: a developer message, or a message of the user with
/// generated parts alone, that not every request carries anew.
pub open spec fn turn_context<M: SessionModel>(
    model: M,
    item: ItemView,
    prefix: Seq<ItemView>,
) -> bool {
    let content = item.body->Message_content;
    &&& item.body is Message
    &&& !standing_item(model, item, prefix)
    &&& item.body->Message_role == "developer"@ || (item.body->Message_role == "user"@
        && content.len() > 0 && (exists|k: int|
        0 <= k < content.len() && !standing_part(model, #[trigger] content[k])) && forall|k: int|
        0 <= k < content.len() ==> model.spec_contextual_fragment(#[trigger] content[k]))
}

proof fn lemma_turn_context<M: SessionModel>(model: M, item: ItemView, prefix: Seq<ItemView>)
    ensures
        turn_context(model, item, prefix) == group_start(model, item, prefix),
{
    lemma_standing_item(model, item, prefix);
    if let BodyView::Message { role, content, phase } = item.body {
        assert forall|k: int| 0 <= k < content.len() implies standing_part(
            model,
            #[trigger] content[k],
        ) == static_part(model, content[k]) by {}
        if !static_content(model, content) && content.len() > 0 {
            let k = choose|k: int| 0 <= k < content.len() && !static_part(model, #[trigger] content[k]);
            assert(!standing_part(model, content[k]));
        }
        if exists|k: int| 0 <= k < content.len() && !standing_part(model, #[trigger] content[k]) {
            let k = choose|k: int| 0 <= k < content.len() && !standing_part(model, #[trigger] content[k]);
            assert(!static_part(model, content[k]));
        }
    }
}

/// What was said with no context of its turn beside it is a group of its own.
pub proof fn law_plain_items_are_groups_of_their_own<M: SessionModel>(
    model: M,
    raw: Seq<ItemView>,
    index: int,
    prefix: Seq<ItemView>,
)
    requires
        0 <= index < raw.len(),
        !tool_item(raw[index]),
        !historical_at(model, raw, index, prefix),
        span_end(raw, index) is None,
        !turn_context(model, raw[index], prefix),
        index + 1 < raw.len() ==> !turn_context(model, raw[index + 1], prefix),
    ensures
        group_step(model, raw, index, prefix) == (
            Some(RawGroupView { start: index, end: index + 1, items: seq![raw[index]] }),
            index + 1,
        ),
{
    lemma_turn_context(model, raw[index], prefix);
    if index + 1 < raw.len() {
        lemma_turn_context(model, raw[index + 1], prefix);
    }
    assert(spec_output_key(raw[index]) is None);
    assert(spec_call_key(raw[index]) is None);
}

/// What the user says right behind a function call and its output stays with them.
pub proof fn law_steering_stays_with_the_call<M: SessionModel>(
    model: M,
    raw: Seq<ItemView>,
    index: int,
    prefix: Seq<ItemView>,
)
    requires
        0 <= index < raw.len(),
        !historical_at(model, raw, index, prefix),
        span_end(raw, index) is Some,
        raw[index].body is FunctionCall,
        span_end(raw, index)->Some_0 + 1 < raw.len(),
        ({
            let next = raw[span_end(raw, index)->Some_0 + 1];
            &&& next.body is Message
            &&& next.body->Message_role == "user"@
            &&& !historical_at(model, raw, span_end(raw, index)->Some_0 + 1, prefix)
        }),
    ensures
        group_step(model, raw, index, prefix).0 matches Some(group) && group.start == index
            && group.end > span_end(raw, index)->Some_0 + 1,
{
    let end = span_end(raw, index)->Some_0;
    lemma_span_end(raw, index);
    lemma_turn_group_end(model, raw, end + 1, prefix);
    assert(takes_turn_input(model, raw[index]));
    assert(span_takes_turn_input(model, raw, index, end));
    match turn_group_end(model, raw, end + 1, prefix) {
        Some(last) => {
            lemma_turn_input_run(model, raw, last + 1, prefix, Some(last));
        },
        None => {
            lemma_turn_input_run(model, raw, end + 2, prefix, Some(end + 1));
        },
    }
}

// -- the form in which they are sent ----------------------------------------------------------

/// Every group of which anything is sent goes on with its range, and with its items in the form in
/// which they are sent.
pub proof fn law_groups_are_sent<M: SessionModel>(
    model: M,
    groups: Seq<RawGroupView>,
    modalities: Seq<InputModality>,
    prefix: Seq<ItemView>,
    limit: nat,
    k: int,
)
    requires
        0 <= k < groups.len(),
    ensures
        ({
            let items = sent_items(
                model,
                model.spec_prompt_items(groups[k].items, modalities),
                prefix,
                limit,
            );
            let sent = sent_groups(model, groups, modalities, prefix, limit);
            items.len() > 0 ==> exists|j: int|
                {
                    &&& 0 <= j < sent.len()
                    &&& (#[trigger] sent[j]).start == groups[k].start
                    &&& sent[j].end == groups[k].end
                    &&& sent[j].items == items
                }
        }),
    decreases groups.len(),
{
    let items = sent_items(
        model,
        model.spec_prompt_items(groups[k].items, modalities),
        prefix,
        limit,
    );
    let sent = sent_groups(model, groups, modalities, prefix, limit);
    let rest = groups.drop_last();
    let before = sent_groups(model, rest, modalities, prefix, limit);
    if items.len() > 0 {
        if k == groups.len() - 1 {
            assert(sent[sent.len() - 1].start == groups[k].start);
        } else {
            law_groups_are_sent(model, rest, modalities, prefix, limit, k);
            assert(rest[k] == groups[k]);
            let j = choose|j: int|
                {
                    &&& 0 <= j < before.len()
                    &&& (#[trigger] before[j]).start == groups[k].start
                    &&& before[j].end == groups[k].end
                    &&& before[j].items == items
                };
            assert(sent[j] == before[j]);
        }
    }
}

proof fn lemma_join(a: Seq<ItemView>, b: Seq<ItemView>, c: Seq<ItemView>)
    ensures
        (a + b) + c == a + (b + c),
{
    assert((a + b) + c =~= a + (b + c));
}

/// Items are sent one by one and in order.
pub proof fn law_items_are_sent_in_order<M: SessionModel>(
    model: M,
    a: Seq<ItemView>,
    b: Seq<ItemView>,
    prefix: Seq<ItemView>,
    limit: nat,
)
    ensures
        sent_items(model, a + b, prefix, limit) == sent_items(model, a, prefix, limit) + sent_items(
            model,
            b,
            prefix,
            limit,
        ),
    decreases b.len(),
{
    let first = sent_items(model, a, prefix, limit);
    if b.len() == 0 {
        assert(a + b =~= a);
        assert(first + sent_items(model, b, prefix, limit) =~= first);
    } else {
        assert((a + b).drop_last() =~= a + b.drop_last());
        law_items_are_sent_in_order(model, a, b.drop_last(), prefix, limit);
        lemma_join(
            first,
            sent_items(model, b.drop_last(), prefix, limit),
            sent_item(model, b.last(), prefix, limit),
        );
    }
}

/// The messages of a prefix are sent one by one and in order.
pub proof fn law_prefix_is_sent_in_order<M: SessionModel>(
    model: M,
    a: Seq<ItemView>,
    b: Seq<ItemView>,
)
    ensures
        sent_prefix(model, a + b) == sent_prefix(model, a) + sent_prefix(model, b),
    decreases b.len(),
{
    let first = sent_prefix(model, a);
    if b.len() == 0 {
        assert(a + b =~= a);
        assert(first + sent_prefix(model, b) =~= first);
    } else {
        assert((a + b).drop_last() =~= a + b.drop_last());
        law_prefix_is_sent_in_order(model, a, b.drop_last());
        lemma_join(
            first,
            sent_prefix(model, b.drop_last()),
            projected_message(model, b.last(), 10_000),
        );
    }
}

/// Each item of a body is sent: one that is no generated message stays one item, and nothing of
/// the body is sent twice.
pub proof fn law_one_item_is_sent<M: SessionModel>(
    model: M,
    item: ItemView,
    prefix: Seq<ItemView>,
    limit: nat,
)
    ensures
        !(item.body is Message) || (item.body->Message_role != "developer"@
            && item.body->Message_role != "user"@) ==> sent_items(model, seq![item], prefix, limit)
            == seq![projected_item(model, item, limit, 10_000)],
        sent_prefix(model, seq![item]) == projected_message(model, item, 10_000),
{
    let none = Seq::<ItemView>::empty();
    assert(seq![item].drop_last() =~= none);
    assert(sent_items(model, none, prefix, limit) =~= none);
    assert(sent_prefix(model, none) =~= none);
    assert(sent_items(model, seq![item], prefix, limit) =~= sent_item(model, item, prefix, limit));
    assert(sent_prefix(model, seq![item]) =~= projected_message(model, item, 10_000));
}

} // verus!
