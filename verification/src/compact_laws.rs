//! What holds of every locally compacted history.

use crate::compact::{
    compacted_history, compaction_item, insertion_index, lemma_last_index, message_tokens,
    real_user, selected_messages, spliced, summary_message, user_like, user_message_item,
    user_messages, UserMessageView, COMPACT_USER_MESSAGE_MAX_TOKENS,
};
use crate::item::{BodyView, ContentView, ItemView};
use crate::session_model::SessionModel;
use crate::text::text_bytes;
use crate::tokens::{
    bytes_of_tokens, law_truncation_shows_both_ends, shows_both_ends, text_tokens, truncated,
};
use vstd::prelude::*;

verus! {

// -- which messages are kept ------------------------------------------------------------------

/// Newer messages that leave something of the budget are kept, and what is left decides on the
/// rest.
proof fn lemma_newer_are_kept(older: Seq<UserMessageView>, newer: Seq<UserMessageView>, budget: nat)
    requires
        message_tokens(newer) < budget,
    ensures
        selected_messages(older + newer, budget) == selected_messages(
            older,
            (budget - message_tokens(newer)) as nat,
        ) + newer,
    decreases newer.len(),
{
    if newer.len() == 0 {
        assert(older + newer =~= older);
        assert(selected_messages(older, budget) + newer =~= selected_messages(older, budget));
    } else {
        let rest = newer.drop_last();
        let tokens = text_tokens(newer.last().message);
        assert((older + newer).drop_last() =~= older + rest);
        lemma_newer_are_kept(older, rest, (budget - tokens) as nat);
        let front = selected_messages(older, (budget - message_tokens(newer)) as nat);
        assert((front + rest).push(newer.last()) =~= front + newer);
    }
}

/// What is left of a message that does not fit: its two ends, for `left` tokens of four bytes
/// each, and what came with it.
pub open spec fn cut_to(cut: UserMessageView, message: UserMessageView, left: nat) -> bool {
    &&& cut.metadata == message.metadata
    &&& exists|to: int, from: int|
        {
            &&& #[trigger] shows_both_ends(
                cut.message,
                message.message,
                left * 4,
                ((text_bytes(message.message) - left * 4 + 3) / 4) as nat,
                to,
                from,
            )
            &&& text_bytes(message.message.subrange(0, to)) + text_bytes(
                message.message.subrange(from, message.message.len() as int),
            ) + 6 >= left * 4
        }
}

/// The budget is used up, from the newest message on. A message that fits into what the newer ones
/// leave is kept whole and leaves the rest to the older ones. The first that does not fit shows as
/// much of its two ends as what is left allows, and nothing older is kept.
pub proof fn law_budget_is_used(
    older: Seq<UserMessageView>,
    message: UserMessageView,
    newer: Seq<UserMessageView>,
    budget: nat,
)
    requires
        message_tokens(newer) < budget,
        budget * 4 <= usize::MAX,
    ensures
        ({
            let left = (budget - message_tokens(newer)) as nat;
            let tokens = text_tokens(message.message);
            let kept = selected_messages(older.push(message) + newer, budget);
            &&& tokens <= left ==> kept == selected_messages(older, (left - tokens) as nat).push(
                message,
            ) + newer
            &&& tokens > left ==> kept.len() == newer.len() + 1 && kept.drop_first() == newer
                && cut_to(kept[0], message, left)
        }),
{
    let left = (budget - message_tokens(newer)) as nat;
    let all = older.push(message);
    lemma_newer_are_kept(all, newer, budget);
    assert(all.drop_last() =~= older);
    if text_tokens(message.message) > left {
        let kept = selected_messages(all + newer, budget);
        let cut = selected_messages(all, left);
        assert(cut.len() == 1);
        assert(kept =~= cut + newer);
        assert(kept.drop_first() =~= newer);
        law_truncation_shows_both_ends(message.message, left);
        assert(kept[0].message == truncated(message.message, left));
        assert(bytes_of_tokens(left) == left * 4);
    }
}

/// Where the newer messages take the whole budget, they are what is kept.
pub proof fn law_spent_budget_ends_the_selection(
    older: Seq<UserMessageView>,
    newer: Seq<UserMessageView>,
)
    requires
        newer.len() > 0,
        text_tokens(newer[0].message) > 0,
    ensures
        selected_messages(older + newer, message_tokens(newer)) == newer,
    decreases newer.len(),
{
    let budget = message_tokens(newer);
    let rest = newer.drop_last();
    assert((older + newer).drop_last() =~= older + rest);
    assert((older + newer).last() == newer.last());
    lemma_first_counts(newer);
    assert(budget == message_tokens(rest) + text_tokens(newer.last().message));
    if rest.len() > 0 {
        assert(rest[0] == newer[0]);
        law_spent_budget_ends_the_selection(older, rest);
    } else {
        assert(older + rest =~= older);
        assert(selected_messages(older, 0) =~= rest);
    }
    assert(rest.push(newer.last()) =~= newer);
}

proof fn lemma_first_counts(messages: Seq<UserMessageView>)
    requires
        messages.len() > 0,
        text_tokens(messages[0].message) > 0,
    ensures
        message_tokens(messages) > 0,
    decreases messages.len(),
{
    if messages.len() > 1 {
        lemma_first_counts(messages.drop_last());
    }
}

/// Messages of less than twenty thousand tokens together all stay, each as an item of the user
/// with its text, behind what comes first and before the summary, which says so where there is
/// none.
pub proof fn law_local_history_keeps_what_fits(
    first: Seq<ItemView>,
    messages: Seq<UserMessageView>,
    summary: Seq<char>,
)
    requires
        message_tokens(messages) < 20_000,
    ensures
        ({
            let items = compacted_history(
                first,
                messages,
                summary,
                COMPACT_USER_MESSAGE_MAX_TOKENS as nat,
            );
            &&& items.len() == first.len() + messages.len() + 1
            &&& items.subrange(0, first.len() as int) == first
            &&& forall|k: int|
                0 <= k < messages.len() ==> said_by_user(
                    items[first.len() + k],
                    (#[trigger] messages[k]).message,
                    messages[k].metadata,
                )
            &&& said_by_user(
                items.last(),
                if summary.len() == 0 {
                    "(no summary available)"@
                } else {
                    summary
                },
                None,
            )
        }),
{
    let none = Seq::<UserMessageView>::empty();
    lemma_newer_are_kept(none, messages, 20_000);
    assert(none + messages =~= messages);
    assert(selected_messages(none, (20_000 - message_tokens(messages)) as nat) =~= none);
    assert(none + messages =~= messages);
    let items = compacted_history(first, messages, summary, COMPACT_USER_MESSAGE_MAX_TOKENS as nat);
    assert(items.subrange(0, first.len() as int) =~= first);
    assert forall|k: int| 0 <= k < messages.len() implies said_by_user(
        items[first.len() + k],
        (#[trigger] messages[k]).message,
        messages[k].metadata,
    ) by {
        assert(items[first.len() + k] == user_message_item(messages[k]));
    }
}

/// The item is a message of the user with this text alone.
pub open spec fn said_by_user(
    item: ItemView,
    text: Seq<char>,
    metadata: Option<Seq<char>>,
) -> bool {
    &&& item.id is None
    &&& item.metadata == metadata
    &&& item.body == BodyView::Message {
        role: "user"@,
        content: seq![ContentView::InputText { text }],
        phase: None,
    }
}

/// Every kept message is one of the given ones as it is, but for the oldest, and the kept ones are
/// the newest.
pub proof fn law_kept_messages_are_the_newest(messages: Seq<UserMessageView>, budget: nat)
    ensures
        ({
            let kept = selected_messages(messages, budget);
            &&& kept.len() <= messages.len()
            &&& forall|k: int|
                0 < k < kept.len() ==> #[trigger] kept[k] == messages[messages.len() - kept.len()
                    + k]
            &&& kept.len() > 0 ==> kept[0].metadata == messages[messages.len()
                - kept.len()].metadata
        }),
    decreases messages.len(),
{
    if messages.len() > 0 && budget > 0 {
        let tokens = text_tokens(messages.last().message);
        if tokens <= budget {
            let rest = messages.drop_last();
            law_kept_messages_are_the_newest(rest, (budget - tokens) as nat);
        }
    }
}

// -- which messages are there -----------------------------------------------------------------

/// Collecting goes item by item, in order.
pub proof fn law_user_messages_are_collected_in_order<M: SessionModel>(
    model: M,
    a: Seq<ItemView>,
    b: Seq<ItemView>,
)
    ensures
        user_messages(model, a + b) == user_messages(model, a) + user_messages(model, b),
    decreases b.len(),
{
    if b.len() == 0 {
        assert(a + b =~= a);
        assert(user_messages(model, a) + user_messages(model, b) =~= user_messages(model, a));
    } else {
        assert((a + b).drop_last() =~= a + b.drop_last());
        law_user_messages_are_collected_in_order(model, a, b.drop_last());
        assert(user_messages(model, a + b) =~= user_messages(model, a) + user_messages(model, b));
    }
}

/// What the user wrote is collected with its text and, from a message, what came with it; a text
/// that begins with the line that marks a summary is not the user's.
pub proof fn law_what_the_user_wrote_is_collected<M: SessionModel>(model: M, item: ItemView)
    ensures
        model.spec_user_text(item) is None ==> user_messages(model, seq![item]).len() == 0,
        model.spec_user_text(item) matches Some(text) ==> {
            let marker = model.spec_summary_prefix() + "\n"@;
            let marked = text.len() >= marker.len() && text.subrange(0, marker.len() as int)
                == marker;
            let found = user_messages(model, seq![item]);
            &&& marked ==> found.len() == 0
            &&& !marked ==> found.len() == 1 && found[0].message == text && found[0].metadata == if
                item.body is Message {
                item.metadata
            } else {
                None
            }
        },
{
    assert(seq![item].drop_last() =~= Seq::<ItemView>::empty());
    assert(user_messages(model, Seq::<ItemView>::empty()).len() == 0);
    if let Some(text) = model.spec_user_text(item) {
        let marker = model.spec_summary_prefix() + "\n"@;
        if text.len() >= marker.len() {
            assert(summary_message(model, text) == (text.subrange(0, marker.len() as int)
                =~= marker));
        }
    }
}

// -- where the initial context goes -----------------------------------------------------------

/// What the user wrote: its text does not begin with the line that marks a summary.
pub open spec fn written_by_user<M: SessionModel>(model: M, item: ItemView) -> bool {
    let marker = model.spec_summary_prefix() + "\n"@;
    match model.spec_user_text(item) {
        Some(text) => text.len() < marker.len() || text.subrange(0, marker.len() as int) != marker,
        None => false,
    }
}

/// The item at `at` is the last of its kind.
pub open spec fn last_of_kind(
    items: Seq<ItemView>,
    kind: spec_fn(ItemView) -> bool,
    at: int,
) -> bool {
    &&& 0 <= at < items.len()
    &&& kind(items[at])
    &&& forall|k: int| at < k < items.len() ==> !kind(#[trigger] items[k])
}

/// No item is of the kind.
pub open spec fn none_of_kind(items: Seq<ItemView>, kind: spec_fn(ItemView) -> bool) -> bool {
    forall|k: int| 0 <= k < items.len() ==> !kind(#[trigger] items[k])
}

/// The context goes as a whole before the last item that the user really wrote; where there is
/// none, before the last summary that stands as a message of the user; where there is none of
/// these either, before the last compaction item; else behind everything. All else stays where it
/// is.
pub proof fn law_initial_context_has_one_place<M: SessionModel>(
    model: M,
    items: Seq<ItemView>,
    context: Seq<ItemView>,
)
    ensures
        ({
            let at = insertion_index(model, items);
            let wrote = |i: ItemView| written_by_user(model, i);
            let user = |i: ItemView| model.spec_user_text(i) is Some;
            let compacted = |i: ItemView| i.body is Compaction || i.body is ContextCompaction;
            let result = spliced(items, at, context);
            &&& 0 <= at <= items.len()
            &&& result.len() == items.len() + context.len()
            &&& forall|k: int| 0 <= k < at ==> result[k] == items[k]
            &&& forall|k: int| 0 <= k < context.len() ==> result[at + k] == context[k]
            &&& forall|k: int| at <= k < items.len() ==> result[k + context.len()] == items[k]
            &&& !none_of_kind(items, wrote) ==> last_of_kind(items, wrote, at)
            &&& none_of_kind(items, wrote) && !none_of_kind(items, user) ==> last_of_kind(
                items,
                user,
                at,
            )
            &&& none_of_kind(items, user) && !none_of_kind(items, compacted) ==> last_of_kind(
                items,
                compacted,
                at,
            )
            &&& none_of_kind(items, user) && none_of_kind(items, compacted) ==> at == items.len()
        }),
{
    let wrote = |i: ItemView| written_by_user(model, i);
    let genuine = |i: ItemView| real_user(model, i);
    let like = |i: ItemView| user_like(model, i);
    let compaction = |i: ItemView| compaction_item(i);
    let user = |i: ItemView| model.spec_user_text(i) is Some;
    let compacted = |i: ItemView| i.body is Compaction || i.body is ContextCompaction;
    lemma_last_index(items, genuine);
    lemma_last_index(items, like);
    lemma_last_index(items, compaction);
    assert forall|k: int| 0 <= k < items.len() implies user(#[trigger] items[k]) == like(items[k])
        && compacted(items[k]) == compaction(items[k]) && wrote(items[k]) == genuine(items[k]) && (
    wrote(items[k]) ==> user(items[k])) by {
        let marker = model.spec_summary_prefix() + "\n"@;
        if let Some(text) = model.spec_user_text(items[k]) {
            if text.len() >= marker.len() {
                assert(summary_message(model, text) == (text.subrange(0, marker.len() as int)
                    =~= marker));
            }
        }
    }
}

} // verus!
