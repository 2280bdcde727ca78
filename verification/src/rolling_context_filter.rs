//! Which items of a history are generated context: what every request carries anew is left out of
//! the body, what belongs to one turn stays with it.

use crate::fragments::{
    ContextualUserFragment, ExtensionContextualUserFragment, RollingInvariantDeveloperContext,
};
use crate::item::{
    contains_item, content_views, item_views, list_view, BodyView, ContentItem, ContentView,
    ItemBody, ItemView, ResponseItem,
};
use crate::session_model::SessionModel;
use crate::text::{between_markers, matches_markers};
use vstd::prelude::*;
use vstd::string::*;

verus! {

/// The item is a message with the given role.
pub open spec fn message_of(item: ItemView, role: Seq<char>) -> bool {
    match item.body {
        BodyView::Message { role: r, content, phase } => r == role,
        _ => false,
    }
}

pub fn is_message_of(item: &ResponseItem, role: &str) -> (r: bool)
    ensures
        r == message_of(item@, role@),
{
    match &item.body {
        ItemBody::Message { role: given, content: _, phase: _ } => same_text(given.as_str(), role),
        _ => false,
    }
}

/// Whether the two texts are the same.
pub fn same_text(a: &str, b: &str) -> (r: bool)
    ensures
        r == (a@ == b@),
{
    let x = a.to_owned();
    let y = b.to_owned();
    x == y
}

/// The legacy form of the user's standing instructions.
pub open spec fn legacy_user_instructions(text: Seq<char>) -> bool {
    between_markers(text, "<user_instructions>"@, "</user_instructions>"@)
}

fn is_legacy_user_instructions_context(text: &str) -> (r: bool)
    ensures
        r == legacy_user_instructions(text@),
{
    matches_markers(text, "<user_instructions>", "</user_instructions>")
}

/// The part is context that every request carries anew.
pub open spec fn static_part<M: SessionModel>(model: M, part: ContentView) -> bool {
    match part {
        ContentView::InputText { text } => model.spec_environment_context(text)
            || ExtensionContextualUserFragment::spec_matches_text(text)
            || model.spec_user_instructions(text) || legacy_user_instructions(text),
        _ => false,
    }
}

pub open spec fn static_content<M: SessionModel>(model: M, content: Seq<ContentView>) -> bool {
    content.len() > 0 && forall|i: int|
        0 <= i < content.len() ==> static_part(model, #[trigger] content[i])
}

fn is_static_contextual_user_content<M: SessionModel>(
    model: &M,
    content: &Vec<ContentItem>,
) -> (r: bool)
    ensures
        r == static_content(*model, content_views(content@)),
{
    let ghost parts = content_views(content@);
    let mut i: usize = 0;
    while i < content.len()
        invariant
            i <= content@.len(),
            parts == content_views(content@),
            forall|k: int| 0 <= k < i ==> static_part(*model, #[trigger] parts[k]),
        decreases content@.len() - i,
    {
        let is_static = match &content[i] {
            ContentItem::InputText { text } => model.environment_context(text.as_str())
                || ExtensionContextualUserFragment::matches_text(text.as_str())
                || model.user_instructions(text.as_str()) || is_legacy_user_instructions_context(
                text.as_str(),
            ),
            _ => false,
        };
        assert(parts[i as int] == content@[i as int]@);
        if !is_static {
            return false;
        }
        i += 1;
    }
    content.len() > 0
}

/// Generated context of one turn.
pub open spec fn turn_scoped_content<M: SessionModel>(model: M, content: Seq<ContentView>) -> bool {
    !static_content(model, content) && content.len() > 0 && forall|i: int|
        0 <= i < content.len() ==> model.spec_contextual_fragment(#[trigger] content[i])
}

fn is_turn_scoped_contextual_user_content<M: SessionModel>(
    model: &M,
    content: &Vec<ContentItem>,
) -> (r: bool)
    ensures
        r == turn_scoped_content(*model, content_views(content@)),
{
    if is_static_contextual_user_content(model, content) || content.len() == 0 {
        return false;
    }
    let ghost parts = content_views(content@);
    let mut i: usize = 0;
    while i < content.len()
        invariant
            i <= content@.len(),
            parts == content_views(content@),
            forall|k: int| 0 <= k < i ==> model.spec_contextual_fragment(#[trigger] parts[k]),
        decreases content@.len() - i,
    {
        assert(parts[i as int] == content@[i as int]@);
        if !model.contextual_fragment(&content[i]) {
            return false;
        }
        i += 1;
    }
    true
}

/// The sections of a developer message without the mark of an invariant message; none if it holds
/// anything but input text.
pub open spec fn developer_sections(content: Seq<ContentView>) -> Option<Seq<Seq<char>>>
    decreases content.len(),
{
    if content.len() == 0 {
        Some(Seq::empty())
    } else {
        match (developer_sections(content.drop_last()), content.last()) {
            (Some(sections), ContentView::InputText { text }) => if RollingInvariantDeveloperContext::spec_matches_text(
            text) {
                Some(sections)
            } else {
                Some(sections.push(text))
            },
            _ => None,
        }
    }
}

proof fn lemma_sections_stay_none(content: Seq<ContentView>, upto: int)
    requires
        0 <= upto <= content.len(),
        developer_sections(content.subrange(0, upto)) is None,
    ensures
        developer_sections(content) is None,
    decreases content.len(),
{
    if upto == content.len() {
        assert(content.subrange(0, upto) =~= content);
    } else {
        assert(content.drop_last().subrange(0, upto) =~= content.subrange(0, upto));
        lemma_sections_stay_none(content.drop_last(), upto);
    }
}

fn developer_sections_without_rolling_marker(content: &Vec<ContentItem>) -> (r: Option<Vec<String>>)
    ensures
        match r {
            Some(sections) => developer_sections(content_views(content@)) == Some(
                list_view(sections@),
            ),
            None => developer_sections(content_views(content@)) is None,
        },
{
    let ghost parts = content_views(content@);
    let mut sections: Vec<String> = Vec::new();
    let mut i: usize = 0;
    assert(list_view(sections@) =~= Seq::<Seq<char>>::empty());
    assert(parts.subrange(0, 0) =~= Seq::<ContentView>::empty());
    while i < content.len()
        invariant
            i <= content@.len(),
            parts == content_views(content@),
            developer_sections(parts.subrange(0, i as int)) == Some(list_view(sections@)),
        decreases content@.len() - i,
    {
        proof {
            let next = parts.subrange(0, i + 1);
            assert(next.drop_last() =~= parts.subrange(0, i as int));
            assert(next.last() == content@[i as int]@);
        }
        match &content[i] {
            ContentItem::InputText { text } => {
                if !RollingInvariantDeveloperContext::matches_text(text.as_str()) {
                    let ghost before = list_view(sections@);
                    sections.push(text.clone());
                    assert(list_view(sections@) =~= before.push(text@));
                }
            },
            _ => {
                proof {
                    lemma_sections_stay_none(parts, i + 1);
                }
                return None;
            },
        }
        i += 1;
    }
    assert(parts.subrange(0, i as int) =~= parts);
    Some(sections)
}

/// The item is a developer message with exactly these sections.
pub open spec fn has_sections(item: ItemView, sections: Seq<Seq<char>>) -> bool {
    match item.body {
        BodyView::Message { role, content, phase } => role == "developer"@ && developer_sections(
            content,
        ) == Some(sections),
        _ => false,
    }
}

/// The content has the same sections as a developer message of the current prefix.
pub open spec fn current_invariant_content(
    content: Seq<ContentView>,
    prefix: Seq<ItemView>,
) -> bool {
    match developer_sections(content) {
        Some(sections) => sections.len() > 0 && exists|i: int|
            0 <= i < prefix.len() && has_sections(#[trigger] prefix[i], sections),
        None => false,
    }
}

fn is_current_invariant_developer_content(
    content: &Vec<ContentItem>,
    invariant_prefix: &Vec<ResponseItem>,
) -> (r: bool)
    ensures
        r == current_invariant_content(
            content_views(content@),
            item_views(invariant_prefix@),
        ),
{
    let ghost prefix = item_views(invariant_prefix@);
    let sections = match developer_sections_without_rolling_marker(content) {
        Some(sections) => sections,
        None => {
            return false;
        },
    };
    if sections.len() == 0 {
        return false;
    }
    let ghost wanted = list_view(sections@);
    let mut i: usize = 0;
    while i < invariant_prefix.len()
        invariant
            i <= invariant_prefix@.len(),
            prefix == item_views(invariant_prefix@),
            wanted == list_view(sections@),
            wanted.len() > 0,
            developer_sections(content_views(content@)) == Some(wanted),
            forall|k: int| 0 <= k < i ==> !has_sections(#[trigger] prefix[k], wanted),
        decreases invariant_prefix@.len() - i,
    {
        assert(prefix[i as int] == invariant_prefix@[i as int]@);
        match &invariant_prefix[i].body {
            ItemBody::Message { role, content: current, phase: _ } => {
                if same_text(role.as_str(), "developer") {
                    if let Some(found) = developer_sections_without_rolling_marker(current) {
                        if crate::item::same_list(&found, &sections) {
                            assert(has_sections(prefix[i as int], wanted));
                            return true;
                        }
                    }
                }
            },
            _ => {},
        }
        i += 1;
    }
    false
}

/// The item itself shows that every request carries it anew.
pub open spec fn historical_item<M: SessionModel>(
    model: M,
    item: ItemView,
    prefix: Seq<ItemView>,
) -> bool {
    ||| prefix.contains(item) && !message_of(item, "user"@)
    ||| match item.body {
        BodyView::Message { role, content, phase } => if role == "developer"@ {
            model.spec_rolling_invariant_developer(content) || model.spec_contextual_developer(
                content,
            ) || current_invariant_content(content, prefix)
        } else if role == "user"@ {
            static_content(model, content)
        } else {
            false
        },
        _ => false,
    }
}

fn is_historical_context_item<M: SessionModel>(
    model: &M,
    item: &ResponseItem,
    invariant_prefix: &Vec<ResponseItem>,
) -> (r: bool)
    ensures
        r == historical_item(*model, item@, item_views(invariant_prefix@)),
{
    if contains_item(invariant_prefix.as_slice(), item) && !is_message_of(item, "user") {
        return true;
    }
    match &item.body {
        ItemBody::Message { role, content, phase: _ } => if same_text(role.as_str(), "developer") {
            model.rolling_invariant_developer(content) || model.contextual_developer(content)
                || is_current_invariant_developer_content(content, invariant_prefix)
        } else if same_text(role.as_str(), "user") {
            is_static_contextual_user_content(model, content)
        } else {
            false
        },
        _ => false,
    }
}

/// The conversation proper has begun with this item.
pub open spec fn conversation_anchor<M: SessionModel>(model: M, item: ItemView) -> bool {
    match item.body {
        BodyView::Message { role, content, phase } => (role == "user"@ && !static_content(
            model,
            content,
        )) || role == "assistant"@,
        _ => false,
    }
}

fn is_conversation_anchor_item<M: SessionModel>(model: &M, item: &ResponseItem) -> (r: bool)
    ensures
        r == conversation_anchor(*model, item@),
{
    proof {
        reveal_strlit("user");
        reveal_strlit("assistant");
        assert("user"@.len() != "assistant"@.len());
    }
    match &item.body {
        ItemBody::Message { role, content, phase: _ } => if same_text(role.as_str(), "user") {
            !is_static_contextual_user_content(model, content)
        } else {
            same_text(role.as_str(), "assistant")
        },
        _ => false,
    }
}

/// A developer message that opens the history unmarked: the current prefix has developer messages
/// of its own, and neither conversation nor recognised context comes before.
pub open spec fn legacy_preamble<M: SessionModel>(
    model: M,
    raw: Seq<ItemView>,
    index: int,
    prefix: Seq<ItemView>,
) -> bool {
    &&& message_of(raw[index], "developer"@)
    &&& exists|i: int| 0 <= i < prefix.len() && message_of(#[trigger] prefix[i], "developer"@)
    &&& forall|i: int| 0 <= i < index ==> !conversation_anchor(model, #[trigger] raw[i])
    &&& forall|i: int| 0 <= i < index ==> !historical_item(model, #[trigger] raw[i], prefix)
}

fn is_legacy_developer_preamble_context_item<M: SessionModel>(
    model: &M,
    raw_items: &[ResponseItem],
    index: usize,
    invariant_prefix: &Vec<ResponseItem>,
) -> (r: bool)
    requires
        index < raw_items@.len(),
    ensures
        r == legacy_preamble(
            *model,
            item_views(raw_items@),
            index as int,
            item_views(invariant_prefix@),
        ),
{
    let ghost raw = item_views(raw_items@);
    let ghost prefix = item_views(invariant_prefix@);
    if !is_message_of(&raw_items[index], "developer") {
        return false;
    }
    let mut has_developer = false;
    let mut p: usize = 0;
    while p < invariant_prefix.len() && !has_developer
        invariant
            p <= invariant_prefix@.len(),
            prefix == item_views(invariant_prefix@),
            has_developer == exists|i: int|
                0 <= i < p && message_of(#[trigger] prefix[i], "developer"@),
        decreases invariant_prefix@.len() - p,
    {
        assert(prefix[p as int] == invariant_prefix@[p as int]@);
        if is_message_of(&invariant_prefix[p], "developer") {
            has_developer = true;
        }
        p += 1;
    }
    if !has_developer {
        return false;
    }
    let mut i: usize = 0;
    while i < index
        invariant
            i <= index < raw_items@.len(),
            raw == item_views(raw_items@),
            prefix == item_views(invariant_prefix@),
            forall|k: int| 0 <= k < i ==> !conversation_anchor(*model, #[trigger] raw[k]),
            forall|k: int| 0 <= k < i ==> !historical_item(*model, #[trigger] raw[k], prefix),
        decreases index - i,
    {
        assert(raw[i as int] == raw_items@[i as int]@);
        if is_conversation_anchor_item(model, &raw_items[i]) || is_historical_context_item(
            model,
            &raw_items[i],
            invariant_prefix,
        ) {
            return false;
        }
        i += 1;
    }
    true
}

/// The item at `index` is context that every request carries anew.
pub open spec fn historical_at<M: SessionModel>(
    model: M,
    raw: Seq<ItemView>,
    index: int,
    prefix: Seq<ItemView>,
) -> bool {
    historical_item(model, raw[index], prefix) || legacy_preamble(model, raw, index, prefix)
}

pub fn is_historical_context_item_at<M: SessionModel>(
    model: &M,
    raw_items: &[ResponseItem],
    index: usize,
    invariant_prefix: &Vec<ResponseItem>,
) -> (r: bool)
    requires
        index < raw_items@.len(),
    ensures
        r == historical_at(
            *model,
            item_views(raw_items@),
            index as int,
            item_views(invariant_prefix@),
        ),
{
    is_historical_context_item(model, &raw_items[index], invariant_prefix)
        || is_legacy_developer_preamble_context_item(model, raw_items, index, invariant_prefix)
}

/// Generated context that stays with the turn it was made for.
pub open spec fn group_start<M: SessionModel>(
    model: M,
    item: ItemView,
    prefix: Seq<ItemView>,
) -> bool {
    !historical_item(model, item, prefix) && match item.body {
        BodyView::Message { role, content, phase } => role == "developer"@ || (role == "user"@
            && turn_scoped_content(model, content)),
        _ => false,
    }
}

pub fn is_turn_context_group_start<M: SessionModel>(
    model: &M,
    item: &ResponseItem,
    invariant_prefix: &Vec<ResponseItem>,
) -> (r: bool)
    ensures
        r == group_start(*model, item@, item_views(invariant_prefix@)),
{
    if is_historical_context_item(model, item, invariant_prefix) {
        return false;
    }
    match &item.body {
        ItemBody::Message { role, content, phase: _ } => same_text(role.as_str(), "developer") || (
        same_text(role.as_str(), "user") && is_turn_scoped_contextual_user_content(model, content)),
        _ => false,
    }
}

/// A message that the context of a turn attaches to.
pub open spec fn group_anchor<M: SessionModel>(
    model: M,
    item: ItemView,
    prefix: Seq<ItemView>,
) -> bool {
    !historical_item(model, item, prefix) && (message_of(item, "user"@) || message_of(
        item,
        "assistant"@,
    ))
}

pub fn is_turn_context_group_anchor<M: SessionModel>(
    model: &M,
    item: &ResponseItem,
    invariant_prefix: &Vec<ResponseItem>,
) -> (r: bool)
    ensures
        r == group_anchor(*model, item@, item_views(invariant_prefix@)),
{
    !is_historical_context_item(model, item, invariant_prefix) && (is_message_of(item, "user")
        || is_message_of(item, "assistant"))
}

} // verus!
