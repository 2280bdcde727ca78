//! Replacing a history by its compacted form: the newest user messages that fit a budget, and a
//! summary of the rest.

use crate::item::{
    clone_option, content_views, item_views, option_view, text_message, BodyView, ContentItem,
    ContentView, ItemBody, ItemView, ResponseItem,
};
use crate::session_model::SessionModel;
use crate::text::{has_prefix, join, joined, starts_with, texts};
use crate::tokens::{approx_token_count, text_tokens, truncate_text, truncated};
use vstd::prelude::*;
use vstd::string::*;

verus! {

/// The tokens of user messages that a compacted history keeps.
pub const COMPACT_USER_MESSAGE_MAX_TOKENS: usize = 20_000;

/// Whether a replacement history must carry the initial context.
///
/// Compaction before a turn leaves it out, and the next turn brings it in. Compaction in the
/// middle of a turn puts it above the last real message of the user, so that the summary stays
/// last.
#[derive(Clone, Copy, Debug, Eq, PartialEq, Structural)]
pub enum InitialContextInjection {
    BeforeLastUserMessage,
    DoNotInject,
}

// ---------------------------------------------------------------------------------------------
// Texts of messages.
// ---------------------------------------------------------------------------------------------

/// The text of a part that has one.
pub open spec fn part_text(part: ContentView) -> Option<Seq<char>> {
    match part {
        ContentView::InputText { text } => Some(text),
        ContentView::OutputText { text } => Some(text),
        ContentView::InputImage { .. } => None,
    }
}

/// The texts of the parts, empty ones left out.
pub open spec fn non_empty_texts(content: Seq<ContentView>) -> Seq<Seq<char>>
    decreases content.len(),
{
    if content.len() == 0 {
        Seq::empty()
    } else {
        let rest = non_empty_texts(content.drop_last());
        match part_text(content.last()) {
            Some(text) => if text.len() > 0 {
                rest.push(text)
            } else {
                rest
            },
            None => rest,
        }
    }
}

/// The texts of the parts one per line; nothing if there are none.
pub open spec fn content_text(content: Seq<ContentView>) -> Option<Seq<char>> {
    if non_empty_texts(content).len() == 0 {
        None
    } else {
        Some(joined(non_empty_texts(content), "\n"@))
    }
}

pub fn content_items_to_text(content: &Vec<ContentItem>) -> (r: Option<String>)
    ensures
        option_view(r) == content_text(content_views(content@)),
{
    let ghost parts = content_views(content@);
    let mut pieces: Vec<String> = Vec::new();
    let mut i: usize = 0;
    assert(texts(pieces@) =~= non_empty_texts(parts.subrange(0, 0)));
    while i < content.len()
        invariant
            i <= content@.len(),
            parts == content_views(content@),
            texts(pieces@) == non_empty_texts(parts.subrange(0, i as int)),
        decreases content@.len() - i,
    {
        proof {
            let next = parts.subrange(0, i + 1);
            assert(next.drop_last() =~= parts.subrange(0, i as int));
            assert(next.last() == content@[i as int]@);
        }
        match &content[i] {
            ContentItem::InputText { text } | ContentItem::OutputText { text } => {
                if !text.as_str().is_empty() {
                    let ghost before = texts(pieces@);
                    pieces.push(text.clone());
                    assert(texts(pieces@) =~= before.push(text@));
                }
            },
            ContentItem::InputImage { .. } => {},
        }
        i += 1;
    }
    assert(parts.subrange(0, i as int) =~= parts);
    if pieces.len() == 0 {
        None
    } else {
        Some(join(&pieces, "\n"))
    }
}

/// A message that stands for a compacted history.
pub open spec fn summary_message<M: SessionModel>(model: M, message: Seq<char>) -> bool {
    has_prefix(message, model.spec_summary_prefix() + "\n"@)
}

pub fn is_summary_message<M: SessionModel>(model: &M, message: &str) -> (r: bool)
    ensures
        r == summary_message(*model, message@),
{
    let mut prefix = String::from_str(model.summary_prefix());
    prefix.append("\n");
    starts_with(message, prefix.as_str())
}

/// A message of the user that a compacted history may keep.
#[derive(Debug, PartialEq)]
pub struct CompactedUserMessage {
    pub message: String,
    pub metadata: Option<String>,
}

pub struct UserMessageView {
    pub message: Seq<char>,
    pub metadata: Option<Seq<char>>,
}

impl View for CompactedUserMessage {
    type V = UserMessageView;

    open spec fn view(&self) -> UserMessageView {
        UserMessageView { message: self.message@, metadata: option_view(self.metadata) }
    }
}

impl Clone for CompactedUserMessage {
    fn clone(&self) -> (r: Self)
        ensures
            r@ == self@,
    {
        CompactedUserMessage {
            message: self.message.clone(),
            metadata: clone_option(&self.metadata),
        }
    }
}

pub open spec fn user_message_views(messages: Seq<CompactedUserMessage>) -> Seq<UserMessageView> {
    messages.map_values(|m: CompactedUserMessage| m@)
}

/// What a compacted history may keep of one item: what the user wrote, summaries left out.
pub open spec fn user_message_of<M: SessionModel>(model: M, item: ItemView) -> Option<
    UserMessageView,
> {
    match model.spec_user_text(item) {
        Some(message) => if summary_message(model, message) {
            None
        } else {
            Some(
                UserMessageView {
                    message,
                    metadata: match item.body {
                        BodyView::Message { .. } => item.metadata,
                        _ => None,
                    },
                },
            )
        },
        None => None,
    }
}

pub open spec fn user_messages<M: SessionModel>(
    model: M,
    items: Seq<ItemView>,
) -> Seq<UserMessageView>
    decreases items.len(),
{
    if items.len() == 0 {
        Seq::empty()
    } else {
        let rest = user_messages(model, items.drop_last());
        match user_message_of(model, items.last()) {
            Some(message) => rest.push(message),
            None => rest,
        }
    }
}

pub fn collect_user_messages<M: SessionModel>(
    model: &M,
    items: &[ResponseItem],
) -> (messages: Vec<CompactedUserMessage>)
    ensures
        user_message_views(messages@) == user_messages(*model, item_views(items@)),
{
    let ghost all = item_views(items@);
    let mut messages: Vec<CompactedUserMessage> = Vec::new();
    let mut i: usize = 0;
    assert(user_message_views(messages@) =~= user_messages(*model, all.subrange(0, 0)));
    while i < items.len()
        invariant
            i <= items@.len(),
            all == item_views(items@),
            user_message_views(messages@) == user_messages(*model, all.subrange(0, i as int)),
        decreases items@.len() - i,
    {
        let item = &items[i];
        proof {
            let next = all.subrange(0, i + 1);
            assert(next.drop_last() =~= all.subrange(0, i as int));
            assert(next.last() == item@);
        }
        if let Some(message) = model.user_text(item) {
            if !is_summary_message(model, message.as_str()) {
                let metadata = match &item.body {
                    ItemBody::Message { .. } => clone_option(&item.metadata),
                    _ => None,
                };
                let found = CompactedUserMessage { message, metadata };
                let ghost before = user_message_views(messages@);
                messages.push(found);
                assert(user_message_views(messages@) =~= before.push(found@));
            }
        }
        i += 1;
    }
    assert(all.subrange(0, i as int) =~= all);
    messages
}

// ---------------------------------------------------------------------------------------------
// The compacted history.
// ---------------------------------------------------------------------------------------------

/// The newest messages that fit the budget, oldest first. The first that does not fit is cut down
/// to what is left, and ends the selection.
pub open spec fn selected_messages(messages: Seq<UserMessageView>, remaining: nat) -> Seq<
    UserMessageView,
>
    decreases messages.len(),
{
    if messages.len() == 0 || remaining == 0 {
        Seq::empty()
    } else {
        let newest = messages.last();
        let tokens = text_tokens(newest.message);
        if tokens <= remaining {
            selected_messages(messages.drop_last(), (remaining - tokens) as nat).push(newest)
        } else {
            seq![
                UserMessageView {
                    message: truncated(newest.message, remaining),
                    metadata: newest.metadata,
                },
            ]
        }
    }
}

/// A kept message of the user as an item.
pub open spec fn user_message_item(message: UserMessageView) -> ItemView {
    ItemView { metadata: message.metadata, ..text_message("user"@, message.message) }
}

pub open spec fn shown_summary(summary: Seq<char>) -> Seq<char> {
    if summary.len() == 0 {
        "(no summary available)"@
    } else {
        summary
    }
}

/// The compacted history: what comes first, the kept messages, the summary.
pub open spec fn compacted_history(
    first: Seq<ItemView>,
    messages: Seq<UserMessageView>,
    summary: Seq<char>,
    max_tokens: nat,
) -> Seq<ItemView> {
    (first + selected_messages(messages, max_tokens).map_values(
        |m: UserMessageView| user_message_item(m),
    )).push(text_message("user"@, shown_summary(summary)))
}

fn select_messages(
    messages: &Vec<CompactedUserMessage>,
    max_tokens: usize,
) -> (selected: Vec<CompactedUserMessage>)
    ensures
        user_message_views(selected@) == selected_messages(
            user_message_views(messages@),
            max_tokens as nat,
        ),
{
    let ghost all = user_message_views(messages@);
    let mut reversed: Vec<CompactedUserMessage> = Vec::new();
    let mut remaining: usize = max_tokens;
    let mut n: usize = messages.len();
    let ghost mut tail: Seq<UserMessageView> = Seq::empty();
    proof {
        assert(all.subrange(0, n as int) =~= all);
        assert(selected_messages(all, max_tokens as nat) + tail =~= selected_messages(
            all,
            max_tokens as nat,
        ));
        assert(user_message_views(reversed@) =~= tail.reverse());
    }
    while n > 0 && remaining > 0
        invariant_except_break
            selected_messages(all.subrange(0, n as int), remaining as nat) + tail
                == selected_messages(all, max_tokens as nat),
        invariant
            n <= messages@.len(),
            all == user_message_views(messages@),
            user_message_views(reversed@) == tail.reverse(),
        ensures
            tail == selected_messages(all, max_tokens as nat),
        decreases n,
    {
        let message = &messages[n - 1];
        let ghost part = all.subrange(0, n as int);
        let ghost before = tail;
        proof {
            assert(part.last() == message@);
            assert(part.drop_last() =~= all.subrange(0, n - 1));
        }
        let tokens: usize = approx_token_count(message.message.as_str());
        if tokens <= remaining {
            reversed.push(message.clone());
            remaining = remaining - tokens;
            n -= 1;
            proof {
                tail = seq![message@] + tail;
                let rest = selected_messages(all.subrange(0, n as int), remaining as nat);
                assert(rest.push(message@) + before =~= rest + tail);
                assert(user_message_views(reversed@) =~= before.reverse().push(message@));
                assert(tail.reverse() =~= before.reverse().push(message@));
            }
        } else {
            let cut = CompactedUserMessage {
                message: truncate_text(message.message.as_str(), remaining),
                metadata: clone_option(&message.metadata),
            };
            reversed.push(cut);
            proof {
                tail = seq![cut@] + tail;
                assert(user_message_views(reversed@) =~= before.reverse().push(cut@));
                assert(tail.reverse() =~= before.reverse().push(cut@));
                assert(selected_messages(part, remaining as nat) =~= seq![cut@]);
            }
            break;
        }
        if n == 0 || remaining == 0 {
            assert(selected_messages(all.subrange(0, n as int), remaining as nat) =~= Seq::<
                UserMessageView,
            >::empty());
            assert(selected_messages(all.subrange(0, n as int), remaining as nat) + tail =~= tail);
        }
    }
    let mut selected: Vec<CompactedUserMessage> = Vec::new();
    let mut i: usize = reversed.len();
    assert(user_message_views(selected@) =~= Seq::<UserMessageView>::empty());
    assert(user_message_views(reversed@).len() == tail.reverse().len());
    while i > 0
        invariant
            i <= reversed@.len() == tail.len(),
            user_message_views(reversed@) == tail.reverse(),
            user_message_views(selected@) == tail.subrange(0, reversed@.len() - i),
        decreases i,
    {
        let ghost before = user_message_views(selected@);
        selected.push(reversed[i - 1].clone());
        proof {
            assert(user_message_views(reversed@)[i - 1] == reversed@[i - 1]@);
            assert(tail.reverse()[i - 1] == tail[tail.len() - i]);
            assert(user_message_views(selected@) =~= before.push(reversed@[i - 1]@));
            assert(tail.subrange(0, reversed@.len() - i + 1) =~= tail.subrange(
                0,
                reversed@.len() - i,
            ).push(tail[tail.len() - i]));
        }
        i -= 1;
    }
    assert(tail.subrange(0, tail.len() as int) =~= tail);
    selected
}

pub fn build_compacted_history_with_limit(
    history: Vec<ResponseItem>,
    user_messages: &Vec<CompactedUserMessage>,
    summary_text: &str,
    max_tokens: usize,
) -> (r: Vec<ResponseItem>)
    ensures
        item_views(r@) == compacted_history(
            item_views(history@),
            user_message_views(user_messages@),
            summary_text@,
            max_tokens as nat,
        ),
{
    let selected = select_messages(user_messages, max_tokens);
    let ghost first = item_views(history@);
    let ghost kept = user_message_views(selected@);
    let ghost as_item = |m: UserMessageView| user_message_item(m);
    let mut items = history;
    let mut i: usize = 0;
    assert(first + kept.subrange(0, 0).map_values(as_item) =~= first);
    while i < selected.len()
        invariant
            i <= selected@.len(),
            kept == user_message_views(selected@),
            as_item == (|m: UserMessageView| user_message_item(m)),
            item_views(items@) == first + kept.subrange(0, i as int).map_values(as_item),
        decreases selected@.len() - i,
    {
        let mut item = ResponseItem::text_message("user", selected[i].message.clone());
        item.metadata = clone_option(&selected[i].metadata);
        let ghost before = item_views(items@);
        assert(item@ == user_message_item(selected@[i as int]@));
        items.push(item);
        proof {
            assert(item_views(items@) =~= before.push(item@));
            assert(kept.subrange(0, i + 1).map_values(as_item) =~= kept.subrange(
                0,
                i as int,
            ).map_values(as_item).push(item@));
            assert(first + kept.subrange(0, i + 1).map_values(as_item) =~= before.push(item@));
        }
        i += 1;
    }
    assert(kept.subrange(0, i as int) =~= kept);
    let summary = if summary_text.is_empty() {
        String::from_str("(no summary available)")
    } else {
        summary_text.to_owned()
    };
    let last = ResponseItem::text_message("user", summary);
    let ghost before = item_views(items@);
    items.push(last);
    assert(item_views(items@) =~= before.push(last@));
    items
}

pub fn build_compacted_history(
    initial_context: Vec<ResponseItem>,
    user_messages: &Vec<CompactedUserMessage>,
    summary_text: &str,
) -> (r: Vec<ResponseItem>)
    ensures
        item_views(r@) == compacted_history(
            item_views(initial_context@),
            user_message_views(user_messages@),
            summary_text@,
            COMPACT_USER_MESSAGE_MAX_TOKENS as nat,
        ),
{
    build_compacted_history_with_limit(
        initial_context,
        user_messages,
        summary_text,
        COMPACT_USER_MESSAGE_MAX_TOKENS,
    )
}

// ---------------------------------------------------------------------------------------------
// Bringing the initial context back in.
// ---------------------------------------------------------------------------------------------

/// An item that stands for compacted history.
pub open spec fn compaction_item(item: ItemView) -> bool {
    item.body is Compaction || item.body is ContextCompaction
}

/// What the user wrote, summaries included.
pub open spec fn user_like<M: SessionModel>(model: M, item: ItemView) -> bool {
    model.spec_user_text(item) is Some
}

/// What the user wrote, summaries left out.
pub open spec fn real_user<M: SessionModel>(model: M, item: ItemView) -> bool {
    match model.spec_user_text(item) {
        Some(message) => !summary_message(model, message),
        None => false,
    }
}

/// The last index whose item satisfies the predicate.
pub open spec fn last_index(items: Seq<ItemView>, wanted: spec_fn(ItemView) -> bool) -> Option<int>
    decreases items.len(),
{
    if items.len() == 0 {
        None
    } else if wanted(items.last()) {
        Some(items.len() - 1)
    } else {
        last_index(items.drop_last(), wanted)
    }
}

pub proof fn lemma_last_index(items: Seq<ItemView>, wanted: spec_fn(ItemView) -> bool)
    ensures
        match last_index(items, wanted) {
            Some(at) => 0 <= at < items.len() && wanted(items[at]) && forall|k: int|
                at < k < items.len() ==> !wanted(#[trigger] items[k]),
            None => forall|k: int| 0 <= k < items.len() ==> !wanted(#[trigger] items[k]),
        },
    decreases items.len(),
{
    if items.len() > 0 && !wanted(items.last()) {
        let rest = items.drop_last();
        lemma_last_index(rest, wanted);
        assert(forall|k: int| 0 <= k < rest.len() ==> rest[k] == items[k]);
    }
}

/// Where the initial context goes: before the last real message of the user, else before the last
/// summary, else before the last compaction item, else at the end.
pub open spec fn insertion_index<M: SessionModel>(model: M, items: Seq<ItemView>) -> int {
    match last_index(items, |i: ItemView| real_user(model, i)) {
        Some(at) => at,
        None => match last_index(items, |i: ItemView| user_like(model, i)) {
            Some(at) => at,
            None => match last_index(items, |i: ItemView| compaction_item(i)) {
                Some(at) => at,
                None => items.len() as int,
            },
        },
    }
}

/// `more` put into `items` at `at`.
pub open spec fn spliced(items: Seq<ItemView>, at: int, more: Seq<ItemView>) -> Seq<ItemView> {
    items.subrange(0, at) + more + items.subrange(at, items.len() as int)
}

/// Puts `more` into `items` at `at`.
pub fn splice_items(items: Vec<ResponseItem>, at: usize, more: Vec<ResponseItem>) -> (r: Vec<
    ResponseItem,
>)
    requires
        at <= items@.len(),
    ensures
        item_views(r@) == spliced(item_views(items@), at as int, item_views(more@)),
{
    let ghost all = item_views(items@);
    let ghost added = item_views(more@);
    let mut front = items;
    let mut middle = more;
    let mut back = front.split_off(at);
    front.append(&mut middle);
    front.append(&mut back);
    assert(item_views(front@) =~= spliced(all, at as int, added));
    front
}

pub fn is_compaction_item(item: &ResponseItem) -> (r: bool)
    ensures
        r == compaction_item(item@),
{
    match &item.body {
        ItemBody::Compaction { .. } | ItemBody::ContextCompaction { .. } => true,
        _ => false,
    }
}

/// The last item that stands for compacted history.
pub fn last_compaction_index(items: &Vec<ResponseItem>) -> (r: Option<usize>)
    ensures
        match r {
            Some(at) => last_index(
                item_views(items@),
                |i: ItemView| compaction_item(i),
            ) == Some(at as int) && at < items@.len(),
            None => last_index(item_views(items@), |i: ItemView| compaction_item(i)) is None,
        },
{
    let ghost all = item_views(items@);
    let ghost wanted = |i: ItemView| compaction_item(i);
    let mut n: usize = items.len();
    assert(all.subrange(0, n as int) =~= all);
    while n > 0
        invariant
            n <= items@.len(),
            all == item_views(items@),
            wanted == (|i: ItemView| compaction_item(i)),
            last_index(all.subrange(0, n as int), wanted) == last_index(all, wanted),
        decreases n,
    {
        proof {
            let part = all.subrange(0, n as int);
            assert(part.last() == items@[n - 1]@);
            assert(part.drop_last() =~= all.subrange(0, n - 1));
        }
        if is_compaction_item(&items[n - 1]) {
            return Some(n - 1);
        }
        n -= 1;
    }
    None
}

/// Puts the initial context where the model expects it in a compacted history.
pub fn insert_initial_context_before_last_real_user_or_summary<M: SessionModel>(
    model: &M,
    compacted_history: Vec<ResponseItem>,
    initial_context: Vec<ResponseItem>,
) -> (r: Vec<ResponseItem>)
    ensures
        item_views(r@) == spliced(
            item_views(compacted_history@),
            insertion_index(*model, item_views(compacted_history@)),
            item_views(initial_context@),
        ),
{
    let ghost all = item_views(compacted_history@);
    let ghost genuine = |i: ItemView| real_user(*model, i);
    let ghost like = |i: ItemView| user_like(*model, i);
    let len: usize = compacted_history.len();
    let mut last_user_like: Option<usize> = None;
    let mut last_real: Option<usize> = None;
    let mut n: usize = len;
    assert(all.subrange(0, n as int) =~= all);
    while n > 0 && last_real.is_none()
        invariant
            n <= len == compacted_history@.len(),
            all == item_views(compacted_history@),
            genuine == (|i: ItemView| real_user(*model, i)),
            like == (|i: ItemView| user_like(*model, i)),
            match last_user_like {
                Some(at) => last_index(all, like) == Some(at as int) && at < len,
                None => last_index(all, like) == last_index(all.subrange(0, n as int), like),
            },
            match last_real {
                Some(at) => last_index(all, genuine) == Some(at as int) && at < len,
                None => last_index(all, genuine) == last_index(all.subrange(0, n as int), genuine),
            },
        decreases n,
    {
        proof {
            let part = all.subrange(0, n as int);
            assert(part.last() == compacted_history@[n - 1]@);
            assert(part.drop_last() =~= all.subrange(0, n - 1));
        }
        if let Some(message) = model.user_text(&compacted_history[n - 1]) {
            if last_user_like.is_none() {
                last_user_like = Some(n - 1);
            }
            if !is_summary_message(model, message.as_str()) {
                last_real = Some(n - 1);
            }
        }
        n -= 1;
    }
    proof {
        if last_real is None {
            assert(last_index(all.subrange(0, 0), genuine) is None);
            assert(last_index(all.subrange(0, 0), like) is None);
        }
    }
    let at: usize = match last_real {
        Some(at) => at,
        None => match last_user_like {
            Some(at) => at,
            None => match last_compaction_index(&compacted_history) {
                Some(at) => at,
                None => len,
            },
        },
    };
    splice_items(compacted_history, at, initial_context)
}

// -- laws -------------------------------------------------------------------------------------

/// The tokens of the messages together.
pub open spec fn message_tokens(messages: Seq<UserMessageView>) -> nat
    decreases messages.len(),
{
    if messages.len() == 0 {
        0
    } else {
        message_tokens(messages.drop_last()) + text_tokens(messages.last().message)
    }
}

/// Where all messages fit the budget, all are kept.
pub proof fn law_messages_that_fit_are_kept(messages: Seq<UserMessageView>, budget: nat)
    requires
        message_tokens(messages) <= budget,
        budget > 0,
        forall|k: int| 0 <= k < messages.len() ==> text_tokens((#[trigger] messages[k]).message) > 0,
    ensures
        selected_messages(messages, budget) == messages,
    decreases messages.len(),
{
    if messages.len() > 0 {
        let rest = messages.drop_last();
        let tokens = text_tokens(messages.last().message);
        assert forall|k: int| 0 <= k < rest.len() implies text_tokens(
            (#[trigger] rest[k]).message,
        ) > 0 by {
            assert(rest[k] == messages[k]);
        }
        assert(tokens <= budget);
        if rest.len() > 0 {
            assert(text_tokens(rest.last().message) > 0) by {
                assert(rest.last() == messages[rest.len() - 1]);
            }
            law_messages_that_fit_are_kept(rest, (budget - tokens) as nat);
        } else {
            assert(selected_messages(rest, (budget - tokens) as nat) =~= rest);
        }
        assert(rest.push(messages.last()) =~= messages);
    } else {
        assert(selected_messages(messages, budget) =~= messages);
    }
}

/// The summary is the last item of a compacted history.
pub proof fn law_summary_stays_last(
    first: Seq<ItemView>,
    messages: Seq<UserMessageView>,
    summary: Seq<char>,
    max_tokens: nat,
)
    ensures
        compacted_history(first, messages, summary, max_tokens).last() == text_message(
            "user"@,
            shown_summary(summary),
        ),
{
}

/// Initial context is put in without changing or reordering anything, and where a message of the
/// user, a summary or a compaction item is there, one of these stays last of what follows it.
pub proof fn law_initial_context_goes_before<M: SessionModel>(
    model: M,
    items: Seq<ItemView>,
    more: Seq<ItemView>,
)
    ensures
        0 <= insertion_index(model, items) <= items.len(),
        spliced(items, insertion_index(model, items), more).len() == items.len() + more.len(),
        insertion_index(model, items) < items.len() ==> {
            let at = insertion_index(model, items);
            &&& user_like(model, items[at]) || compaction_item(items[at])
            &&& spliced(items, at, more).last() == items.last()
            &&& forall|k: int| at < k < items.len() ==> !real_user(model, #[trigger] items[k])
        },
{
    lemma_last_index(items, |i: ItemView| real_user(model, i));
    lemma_last_index(items, |i: ItemView| user_like(model, i));
    lemma_last_index(items, |i: ItemView| compaction_item(i));
}

} // verus!
