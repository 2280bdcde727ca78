//! What the marker model tells apart, takes off and counts.

use crate::fragments::{
    lemma_marked_text_matches, ContextualUserFragment, ExactTailToolSurfaceNotice,
    ExtensionContextualUserFragment, RollctxSummaryGroupContext, RollingInvariantDeveloperContext,
};
use crate::item::{AgentContentView, BodyView, ContentView, ItemView, OutputBodyView};
use crate::marker_model::{
    agent_readable, last_said, plus, plus_content, tool_key, without_key, MarkerModel, MarkerPair,
};
use crate::rolling_groups::KeyView;
use crate::session_model::SessionModel;
use crate::stream::whole_text;
use crate::text::{between_markers, blank, white_space};
use crate::tokens::text_tokens;
use vstd::prelude::*;

verus! {

// -- generated context ------------------------------------------------------------------------

/// A pair of markers that can frame text: neither is empty nor has white space at its outer end.
pub open spec fn frames(pair: MarkerPair) -> bool {
    &&& pair.start@.len() > 0
    &&& pair.end@.len() > 0
    &&& !white_space(pair.start@[0])
    &&& !white_space(pair.end@.last())
}

/// Whatever is framed by a pair of markers of the user's context makes a message contextual, so
/// that it is not what the user said. What is framed as a prompt of a hook, alone, is one.
pub proof fn law_framed_text_is_not_said_by_the_user(
    model: MarkerModel,
    item: ItemView,
    content: Seq<ContentView>,
    at: int,
    pair: MarkerPair,
    body: Seq<char>,
)
    requires
        frames(pair),
        0 <= at < content.len(),
        content[at] == (ContentView::InputText { text: pair.start@ + body + pair.end@ }),
        item.body matches BodyView::Message { role, content: c, .. } && role == "user"@ && c == content,
    ensures
        pair == model.environment || pair == model.instructions || model.user_markers@.contains(pair)
            ==> {
            &&& model.spec_contextual_fragment(content[at])
            &&& model.spec_contextual_user(content)
            &&& model.spec_user_text(item) is None
        },
        pair == model.environment ==> model.spec_environment_context(pair.start@ + body + pair.end@),
        pair == model.instructions ==> model.spec_user_instructions(pair.start@ + body + pair.end@),
        pair == model.hook_prompt && content.len() == 1 ==> model.spec_hook_prompt(item.id, content)
            && model.spec_user_text(item) is None && model.spec_keep_compacted(item),
{
    lemma_marked_text_matches(pair.start@, body, pair.end@);
    let text = pair.start@ + body + pair.end@;
    assert(between_markers(text, pair.start@, pair.end@));
    if model.user_markers@.contains(pair) {
        let k = choose|k: int| 0 <= k < model.user_markers@.len() && model.user_markers@[k] == pair;
        assert(between_markers(text, model.user_markers@[k].start@, model.user_markers@[k].end@));
    }
    assert(pair == model.environment || pair == model.instructions || model.user_markers@.contains(
        pair,
    ) ==> model.generated_user_part(content[at]));
}

/// Developer text that is framed by a pair of developer markers makes a message contextual.
/// Another part makes it one that says more than context.
pub proof fn law_framed_developer_text_is_context(
    model: MarkerModel,
    content: Seq<ContentView>,
    at: int,
    pair: MarkerPair,
    body: Seq<char>,
)
    requires
        frames(pair),
        model.developer_markers@.contains(pair),
        0 <= at < content.len(),
        content[at] == (ContentView::InputText { text: pair.start@ + body + pair.end@ }),
    ensures
        model.spec_contextual_developer(content),
        content.len() == 1 ==> !model.spec_non_contextual_developer(content),
        forall|k: int|
            0 <= k < content.len() && !((#[trigger] content[k]) is InputText)
                ==> model.spec_non_contextual_developer(content),
{
    lemma_marked_text_matches(pair.start@, body, pair.end@);
    let text = pair.start@ + body + pair.end@;
    let k = choose|k: int|
        0 <= k < model.developer_markers@.len() && model.developer_markers@[k] == pair;
    assert(between_markers(text, model.developer_markers@[k].start@, model.developer_markers@[k].end@));
    assert(model.generated_developer_part(content[at]));
    assert forall|j: int| 0 <= j < content.len() && !((#[trigger] content[j]) is InputText)
        implies model.spec_non_contextual_developer(content) by {
        assert(!model.generated_developer_part(content[j]));
    }
}

/// What no marker begins is not context: a message whose parts are images or the assistant's texts
/// was said by the user.
pub proof fn law_plain_message_is_said_by_the_user(
    model: MarkerModel,
    item: ItemView,
    content: Seq<ContentView>,
)
    requires
        content.len() > 0,
        item.body matches BodyView::Message { role, content: c, .. } && role == "user"@ && c == content,
        forall|k: int| 0 <= k < content.len() ==> !((#[trigger] content[k]) is InputText),
    ensures
        !model.spec_contextual_user(content),
        !model.spec_hook_prompt(item.id, content),
        model.spec_user_text(item) == Some(whole_text(content)),
        model.spec_user_turn_boundary(item),
        model.spec_keep_compacted(item),
{
    assert(!model.hook_part(content[0]));
}

/// A turn begins with what the user or another agent says, never with a call, an output or
/// reasoning.
pub proof fn law_what_begins_a_turn(model: MarkerModel, item: ItemView)
    ensures
        item.body is AgentMessage ==> model.spec_user_turn_boundary(item),
        model.spec_user_text(item) is Some ==> model.spec_user_turn_boundary(item),
        model.spec_user_turn_boundary(item) ==> item.body is Message || item.body is AgentMessage,
        (item.body matches BodyView::Message { role, .. } && role == "developer"@)
            ==> !model.spec_user_turn_boundary(item),
{
    reveal_strlit("user");
    reveal_strlit("assistant");
    reveal_strlit("developer");
    assert("user"@.len() == 4 && "assistant"@.len() == 9 && "developer"@.len() == 9);
    assert("assistant"@[0] != "developer"@[0]);
}

/// A compaction keeps what the assistant and other agents said, what the user said, and summaries.
/// Developer messages, calls, outputs and reasoning leave.
pub proof fn law_what_a_compaction_keeps(model: MarkerModel, item: ItemView)
    ensures
        model.spec_user_text(item) is Some ==> model.spec_keep_compacted(item),
        item.body is AgentMessage || item.body is Compaction || item.body is ContextCompaction
            ==> model.spec_keep_compacted(item),
        (item.body matches BodyView::Message { role, .. } && role == "assistant"@)
            ==> model.spec_keep_compacted(item),
        (item.body matches BodyView::Message { role, .. } && role == "developer"@)
            ==> !model.spec_keep_compacted(item),
        !(item.body is Message) && !(item.body is AgentMessage) && !(item.body is Compaction)
            && !(item.body is ContextCompaction) ==> !model.spec_keep_compacted(item),
{
    reveal_strlit("user");
    reveal_strlit("assistant");
    reveal_strlit("developer");
    assert("user"@.len() == 4 && "assistant"@.len() == 9 && "developer"@.len() == 9);
    assert("assistant"@[0] != "developer"@[0]);
}

/// The roles in which generated context is sent.
pub proof fn law_roles_of_generated_context(
    extension: ExtensionContextualUserFragment,
    developer: RollingInvariantDeveloperContext,
    notice: ExactTailToolSurfaceNotice,
    group: RollctxSummaryGroupContext,
)
    ensures
        extension.spec_role() == "user"@,
        developer.spec_role() == "developer"@,
        notice.spec_role() == "user"@,
        group.spec_role() == "user"@,
{
}

// -- runs of items ----------------------------------------------------------------------------

proof fn lemma_without_key(items: Seq<ItemView>, key: KeyView)
    ensures
        without_key(items, key) == items.filter(|item: ItemView| tool_key(item) != Some(key)),
    decreases items.len(),
{
    reveal(Seq::filter);
    if items.len() > 0 {
        lemma_without_key(items.drop_last(), key);
    } else {
        assert(without_key(items, key) =~= items.filter(
            |item: ItemView| tool_key(item) != Some(key),
        ));
    }
}

/// Taking off the oldest item takes the rest of its call with it, and nothing else: what is left
/// are the other items, in order, without those of the same call.
pub proof fn law_oldest_call_is_taken_off_whole(model: MarkerModel, items: Seq<ItemView>)
    requires
        items.len() > 0,
    ensures
        tool_key(items[0]) is None ==> model.spec_without_first(items) == items.drop_first(),
        tool_key(items[0]) matches Some(key) ==> model.spec_without_first(items)
            == items.drop_first().filter(|item: ItemView| tool_key(item) != Some(key)),
{
    assert(items.subrange(1, items.len() as int) =~= items.drop_first());
    if let Some(key) = tool_key(items[0]) {
        lemma_without_key(items.drop_first(), key);
    }
}

/// The item is a message of the assistant that shows text.
pub open spec fn assistant_says(item: ItemView, text: Seq<char>) -> bool {
    &&& item.body matches BodyView::Message { role, content, .. } && role == "assistant"@
        && whole_text(content) == text
    &&& !blank(text)
}

/// What the assistant said last is the text of its newest message that shows any.
pub proof fn law_last_said_is_the_newest(model: MarkerModel, items: Seq<ItemView>, at: int)
    ensures
        0 <= at < items.len() ==> forall|text: Seq<char>|
            #![trigger assistant_says(items[at], text)]
            assistant_says(items[at], text) && (forall|later: int, other: Seq<char>|
                at < later < items.len() ==> !#[trigger] assistant_says(items[later], other))
                ==> model.spec_last_assistant_text(items) == Some(text),
        (forall|k: int, text: Seq<char>|
            0 <= k < items.len() ==> !#[trigger] assistant_says(items[k], text))
            ==> model.spec_last_assistant_text(items) is None,
    decreases items.len(),
{
    if items.len() > 0 {
        let rest = items.drop_last();
        let n = items.len() - 1;
        law_last_said_is_the_newest(model, rest, at);
        assert(forall|k: int| 0 <= k < n ==> rest[k] == items[k]);
        if items[n].body is Message {
            let said = whole_text(items[n].body->Message_content);
            assert(assistant_says(items[n], said) == assistant_says(items.last(), said));
        }
        assert forall|text: Seq<char>| #![trigger assistant_says(items[at], text)]
            0 <= at < items.len() && assistant_says(items[at], text) && (forall|
            later: int,
            other: Seq<char>,
        |
            at < later < items.len() ==> !#[trigger] assistant_says(
                items[later],
                other,
            )) implies model.spec_last_assistant_text(items) == Some(text) by {
            if at < n {
                if items[n].body is Message {
                    assert(!assistant_says(items[n], whole_text(items[n].body->Message_content)));
                }
                assert(last_said(items) == last_said(rest));
                assert(assistant_says(rest[at], text));
                assert forall|later: int, other: Seq<char>| at < later < rest.len() implies
                    !#[trigger] assistant_says(rest[later], other) by {
                    assert(!assistant_says(items[later], other));
                }
            }
        }
        if forall|k: int, text: Seq<char>|
            0 <= k < items.len() ==> !#[trigger] assistant_says(items[k], text) {
            if items[n].body is Message {
                assert(!assistant_says(items[n], whole_text(items[n].body->Message_content)));
            }
            assert forall|k: int, text: Seq<char>| 0 <= k < rest.len() implies
                !#[trigger] assistant_says(rest[k], text) by {
                assert(!assistant_says(items[k], text));
            }
        }
    }
}

/// The text of a part of a message.
pub open spec fn text_in(part: ContentView) -> Seq<char> {
    match part {
        ContentView::InputText { text } => text,
        ContentView::OutputText { text } => text,
        ContentView::InputImage { .. } => ""@,
    }
}

/// The text of a message is that of its parts, in order.
pub proof fn law_text_of_a_message_is_that_of_its_parts(content: Seq<ContentView>)
    ensures
        whole_text(content) == content.map_values(|part: ContentView| text_in(part)).flatten_alt(),
    decreases content.len(),
{
    reveal_strlit("");
    assert(""@ =~= Seq::<char>::empty());
    let parts = content.map_values(|part: ContentView| text_in(part));
    if content.len() > 0 {
        law_text_of_a_message_is_that_of_its_parts(content.drop_last());
        assert(parts.drop_last() =~= content.drop_last().map_values(
            |part: ContentView| text_in(part),
        ));
        assert(parts.last() == text_in(content.last()));
    } else {
        assert(parts =~= Seq::<Seq<char>>::empty());
    }
}

/// The text that a message between agents shows.
pub open spec fn agent_part_shown(part: AgentContentView) -> Seq<char> {
    if part is InputText {
        part->InputText_text
    } else {
        ""@
    }
}

/// A message between agents says the texts of its parts, in order, and nothing where those are
/// blank; what is encrypted is not read.
pub proof fn law_what_an_agent_says(model: MarkerModel, content: Seq<AgentContentView>)
    ensures
        ({
            let shown = content.map_values(|part: AgentContentView| agent_part_shown(part));
            model.spec_agent_text(content) == if blank(shown.flatten_alt()) {
                None
            } else {
                Some(shown.flatten_alt())
            }
        }),
{
    lemma_agent_readable(content);
}

proof fn lemma_agent_readable(content: Seq<AgentContentView>)
    ensures
        agent_readable(content) == content.map_values(
            |part: AgentContentView| agent_part_shown(part),
        ).flatten_alt(),
    decreases content.len(),
{
    reveal_strlit("");
    assert(""@ =~= Seq::<char>::empty());
    let parts = content.map_values(|part: AgentContentView| agent_part_shown(part));
    if content.len() > 0 {
        lemma_agent_readable(content.drop_last());
        assert(parts.drop_last() =~= content.drop_last().map_values(
            |part: AgentContentView| agent_part_shown(part),
        ));
        assert(parts.last() == agent_part_shown(content.last()));
    } else {
        assert(parts =~= Seq::<Seq<char>>::empty());
    }
}

// -- sizes ------------------------------------------------------------------------------------

/// An item takes the tokens of each text that it holds, on top of what every item takes.
pub proof fn law_item_takes_its_texts(
    model: MarkerModel,
    item: ItemView,
    name: Seq<char>,
    id: Seq<char>,
    said: Seq<char>,
)
    requires
        text_tokens(name) <= 0x0fff_ffff_ffff_ffff,
        text_tokens(id) <= 0x0fff_ffff_ffff_ffff,
        text_tokens(said) <= 0x0fff_ffff_ffff_ffff,
    ensures
        ({
            let tokens = model.spec_item_tokens(item);
            let own = model.item_overhead_tokens as int;
            &&& (item.body matches BodyView::Message { role, content, .. } && role == name && (
            content == seq![ContentView::InputText { text: said }] || content
                == seq![ContentView::OutputText { text: said }])) ==> tokens == own + text_tokens(
                name,
            ) + text_tokens(said)
            &&& (item.body matches BodyView::FunctionCall { name: n, namespace, arguments, call_id }
                && n == name && namespace is None && arguments == said && call_id == id)
                ==> tokens == own + text_tokens(name) + text_tokens(said) + text_tokens(id)
            &&& (item.body matches BodyView::FunctionCallOutput { call_id, output } && call_id == id
                && output.body == OutputBodyView::Text(said)) ==> tokens == own + text_tokens(id)
                + text_tokens(said)
            &&& (item.body matches BodyView::CustomToolCall { status, call_id, name: n, input }
                && status is None && call_id == id && n == name && input == said) ==> tokens == own
                + text_tokens(id) + text_tokens(name) + text_tokens(said)
            &&& (item.body matches BodyView::CustomToolCallOutput { call_id, name: n, output }
                && call_id == id && n == Some(name) && output.body == OutputBodyView::Text(said))
                ==> tokens == own + text_tokens(id) + text_tokens(name) + text_tokens(said)
            &&& (item.body matches BodyView::Compaction { encrypted_content } && encrypted_content
                == said) ==> tokens == own + text_tokens(said)
        }),
{
    if let BodyView::Message { role, content, phase } = item.body {
        if content.len() == 1 {
            assert(content.drop_last() =~= Seq::<ContentView>::empty());
            let before = plus(model.item_overhead_tokens as i64, role);
            assert(plus_content(before, content.drop_last()) == before);
        }
    }
}

} // verus!
