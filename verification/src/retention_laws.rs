//! What holds of the messages that a remotely compacted history keeps.

use crate::item::{BodyView, ContentView, ItemView};
use crate::retention::{
    at_least_one, content_images, content_tokens, cut_content, cut_message, cut_text, cut_to_item,
    image_count, keep_message, kept_messages, less, message_images, message_tokens,
    retainable_items, v2_history,
};
use crate::session_model::{saturating, SessionModel};
use crate::text::text_bytes;
use crate::tokens::{
    bytes_of_tokens, law_truncation_shows_both_ends, shows_both_ends, text_tokens, truncated,
};
use crate::transcript::smaller_budget;
use vstd::prelude::*;

verus! {

// -- what a message takes of a budget ---------------------------------------------------------

/// The tokens of the texts in a message; images take none.
pub open spec fn texts_take(content: Seq<ContentView>) -> nat
    decreases content.len(),
{
    if content.len() == 0 {
        0
    } else {
        texts_take(content.drop_last()) + match content.last() {
            ContentView::InputText { text } => text_tokens(text),
            ContentView::OutputText { text } => text_tokens(text),
            ContentView::InputImage { .. } => 0,
        }
    }
}

/// What an item takes of the budget: the tokens of its texts, and one where it has none.
pub open spec fn takes(item: ItemView) -> nat {
    let tokens = match item.body {
        BodyView::Message { role, content, phase } => texts_take(content),
        _ => 0,
    };
    if tokens == 0 {
        1
    } else if tokens <= usize::MAX {
        tokens
    } else {
        usize::MAX as nat
    }
}

/// What the items take together.
pub open spec fn take_together(items: Seq<ItemView>) -> nat
    decreases items.len(),
{
    if items.len() == 0 {
        0
    } else {
        take_together(items.drop_last()) + takes(items.last())
    }
}

proof fn lemma_content_tokens(content: Seq<ContentView>)
    ensures
        content_tokens(content) == if texts_take(content) <= usize::MAX {
            texts_take(content)
        } else {
            usize::MAX as nat
        },
    decreases content.len(),
{
    if content.len() > 0 {
        lemma_content_tokens(content.drop_last());
    }
}

proof fn lemma_takes(item: ItemView)
    ensures
        takes(item) == at_least_one(message_tokens(item)),
{
    if let BodyView::Message { role, content, phase } = item.body {
        lemma_content_tokens(content);
    }
}

/// What is left of a budget.
pub open spec fn left_of(budget: nat, taken: nat) -> nat {
    if taken <= budget {
        (budget - taken) as nat
    } else {
        0
    }
}

/// With an item limit, the budget pays for what is kept and for nothing else: older messages find
/// the budget without the tokens of what was kept of the newer ones.
pub proof fn law_budget_pays_for_what_is_kept<M: SessionModel>(
    model: M,
    older: Seq<ItemView>,
    newer: Seq<ItemView>,
    budget: nat,
    item_limit: nat,
)
    requires
        item_limit < usize::MAX,
    ensures
        ({
            let kept = kept_messages(model, newer, budget, item_limit);
            kept_messages(model, older + newer, budget, item_limit) == kept_messages(
                model,
                older,
                left_of(budget, take_together(kept)),
                item_limit,
            ) + kept
        }),
    decreases newer.len(),
{
    let kept = kept_messages(model, newer, budget, item_limit);
    if newer.len() == 0 {
        assert(older + newer =~= older);
        assert(kept_messages(model, older, budget, item_limit) + kept =~= kept_messages(
            model,
            older,
            budget,
            item_limit,
        ));
    } else {
        let rest = newer.drop_last();
        let all = older + newer;
        assert(all.drop_last() =~= older + rest);
        assert(all.last() == newer.last());
        let (one, left) = keep_message(model, newer.last(), budget, item_limit);
        law_budget_pays_for_what_is_kept(model, older, rest, left, item_limit);
        let more = kept_messages(model, rest, left, item_limit);
        let front = kept_messages(model, older, left_of(left, take_together(more)), item_limit);
        lemma_takes(newer.last());
        match one {
            Some(item) => {
                lemma_takes(item);
                assert(kept == more.push(item));
                assert(kept.drop_last() =~= more);
                assert(take_together(kept) == take_together(more) + takes(item));
                assert(left == left_of(budget, takes(item)));
                assert((front + more).push(item) =~= front + kept);
            },
            None => {
                assert(left == budget);
                assert(kept == more);
            },
        }
    }
}

/// With an item limit, a message that keeps to the limit is kept whole wherever it fits into the
/// budget beside what is kept of all newer ones, whether or not these had to be cut.
pub proof fn law_message_beside_cut_ones_stays_whole<M: SessionModel>(
    model: M,
    older: Seq<ItemView>,
    message: ItemView,
    newer: Seq<ItemView>,
    budget: nat,
    item_limit: nat,
)
    requires
        item_limit < usize::MAX,
        takes(message) <= item_limit,
        model.spec_item_tokens(message) <= item_limit,
        take_together(kept_messages(model, newer, budget, item_limit)) + takes(message) <= budget,
    ensures
        ({
            let kept = kept_messages(model, newer, budget, item_limit);
            kept_messages(model, older.push(message) + newer, budget, item_limit) == kept_messages(
                model,
                older,
                (budget - take_together(kept) - takes(message)) as nat,
                item_limit,
            ).push(message) + kept
        }),
{
    law_budget_pays_for_what_is_kept(model, older.push(message), newer, budget, item_limit);
    lemma_takes(message);
    assert(older.push(message).drop_last() =~= older);
}

/// With an item limit, one message is kept as it is where it fits the budget and the limit. Else
/// it is cut to the smaller of the two; with no budget it is dropped.
pub proof fn law_one_message_is_kept_or_cut<M: SessionModel>(
    model: M,
    message: ItemView,
    budget: nat,
    item_limit: nat,
)
    requires
        item_limit < usize::MAX,
        item_limit <= i64::MAX,
    ensures
        ({
            let kept = kept_messages(model, seq![message], budget, item_limit);
            let room = if budget < item_limit {
                budget
            } else {
                item_limit
            };
            if budget == 0 {
                kept.len() == 0
            } else if takes(message) <= room && model.spec_item_tokens(message) <= item_limit {
                kept == seq![message]
            } else {
                match cut_to_item(model, message, room, room) {
                    Some(cut) => kept == seq![cut] && model.spec_item_tokens(cut) <= room,
                    None => kept.len() == 0,
                }
            }
        }),
{
    let none = Seq::<ItemView>::empty();
    let kept = kept_messages(model, seq![message], budget, item_limit);
    let room = if budget < item_limit {
        budget
    } else {
        item_limit
    };
    assert(seq![message].drop_last() =~= none);
    lemma_takes(message);
    let (one, left) = keep_message(model, message, budget, item_limit);
    assert(kept_messages(model, none, left, item_limit) =~= none);
    if let Some(item) = one {
        assert(kept =~= seq![item]);
    }
    crate::retention::lemma_cut_to_item(model, message, room, room);
}

/// Without an item limit, messages that fit are kept whole, from the newest on. The first that
/// does not fit is cut to what the newer ones leave, and nothing older is kept.
pub proof fn law_message_is_cut_to_what_is_left<M: SessionModel>(
    model: M,
    older: Seq<ItemView>,
    message: ItemView,
    newer: Seq<ItemView>,
    budget: nat,
)
    requires
        take_together(newer) < budget <= usize::MAX,
        forall|k: int|
            0 <= k < newer.len() ==> model.spec_item_tokens(#[trigger] newer[k]) <= usize::MAX,
        model.spec_item_tokens(message) <= usize::MAX,
    ensures
        ({
            let left = (budget - take_together(newer)) as nat;
            let kept = kept_messages(model, older.push(message) + newer, budget, usize::MAX as nat);
            &&& takes(message) <= left ==> kept == kept_messages(
                model,
                older,
                (left - takes(message)) as nat,
                usize::MAX as nat,
            ).push(message) + newer
            &&& takes(message) > left ==> match cut_message(message, left) {
                Some(cut) => kept == seq![cut] + newer,
                None => kept == kept_messages(model, older, left, usize::MAX as nat) + newer,
            }
        }),
    decreases newer.len(),
{
    let all = older.push(message) + newer;
    let limit = usize::MAX as nat;
    if newer.len() == 0 {
        lemma_takes(message);
        assert(all =~= older.push(message));
        assert(all.drop_last() =~= older);
        let kept = kept_messages(model, all, budget, limit);
        let front = kept_messages(model, older, less(budget, takes(message)), limit);
        assert(front.push(message) + newer =~= front.push(message));
        if takes(message) > budget {
            crate::retention::law_spent_budget_keeps_nothing(model, older, limit);
            if let Some(cut) = cut_message(message, budget) {
                assert(kept =~= seq![cut] + newer);
            } else {
                assert(kept =~= kept_messages(model, older, budget, limit) + newer);
            }
        }
    } else {
        let rest = newer.drop_last();
        lemma_takes(newer.last());
        assert(newer.last() == newer[newer.len() - 1]);
        assert(model.spec_item_tokens(newer.last()) <= saturating(limit as int));
        assert forall|k: int| 0 <= k < rest.len() implies model.spec_item_tokens(#[trigger] rest[k])
            <= usize::MAX by {
            assert(rest[k] == newer[k]);
        }
        let left = (budget - takes(newer.last())) as nat;
        law_message_is_cut_to_what_is_left(model, older, message, rest, left);
        assert(all.drop_last() =~= older.push(message) + rest);
        assert(all.last() == newer.last());
        let kept = kept_messages(model, all, budget, limit);
        let before = kept_messages(model, older.push(message) + rest, left, limit);
        assert(kept == before.push(newer.last()));
        assert(rest.push(newer.last()) =~= newer);
        let short = (left - take_together(rest)) as nat;
        let front = kept_messages(model, older, less(short, takes(message)), limit).push(message);
        assert((front + rest).push(newer.last()) =~= front + newer);
        if let Some(cut) = cut_message(message, short) {
            assert((seq![cut] + rest).push(newer.last()) =~= seq![cut] + newer);
        }
        let untouched = kept_messages(model, older, short, limit);
        assert((untouched + rest).push(newer.last()) =~= untouched + newer);
    }
}

// -- what is cut ------------------------------------------------------------------------------

/// The parts of a message share a budget in their order: the later ones find what the texts of the
/// earlier ones leave.
pub proof fn law_parts_share_a_budget(a: Seq<ContentView>, b: Seq<ContentView>, budget: nat)
    ensures
        cut_content(a + b, budget).0 == cut_content(a, budget).0 + cut_content(
            b,
            left_of(budget, texts_take(a)),
        ).0,
{
    lemma_cut_content_concat(a, b, budget);
}

proof fn lemma_cut_content_left(content: Seq<ContentView>, budget: nat)
    ensures
        cut_content(content, budget).1 == left_of(budget, texts_take(content)),
    decreases content.len(),
{
    if content.len() > 0 {
        lemma_cut_content_left(content.drop_last(), budget);
    }
}

proof fn lemma_cut_content_concat(a: Seq<ContentView>, b: Seq<ContentView>, budget: nat)
    ensures
        cut_content(a + b, budget).0 == cut_content(a, budget).0 + cut_content(
            b,
            left_of(budget, texts_take(a)),
        ).0,
        cut_content(a + b, budget).1 == cut_content(b, left_of(budget, texts_take(a))).1,
    decreases b.len(),
{
    let left = left_of(budget, texts_take(a));
    lemma_cut_content_left(a, budget);
    if b.len() == 0 {
        assert(a + b =~= a);
        assert(cut_content(a, budget).0 + cut_content(b, left).0 =~= cut_content(a, budget).0);
    } else {
        assert((a + b).drop_last() =~= a + b.drop_last());
        assert((a + b).last() == b.last());
        lemma_cut_content_concat(a, b.drop_last(), budget);
        assert(cut_content(a + b, budget).0 =~= cut_content(a, budget).0 + cut_content(b, left).0);
    }
}

/// `cut` is what a budget of `tokens` leaves of the text: all of it where it fits, else its two
/// ends.
pub open spec fn cut_text_to(cut: Seq<char>, text: Seq<char>, tokens: nat) -> bool {
    if text_tokens(text) <= tokens {
        cut == text
    } else {
        exists|to: int, from: int|
            {
                &&& #[trigger] shows_both_ends(
                    cut,
                    text,
                    tokens * 4,
                    ((text_bytes(text) - tokens * 4 + 3) / 4) as nat,
                    to,
                    from,
                )
                &&& text_bytes(text.subrange(0, to)) + text_bytes(
                    text.subrange(from, text.len() as int),
                ) + 6 >= tokens * 4
            }
    }
}

/// One part alone: an image stays; of a text that is not empty as much stays as the budget allows,
/// as the same kind of text, and without a budget nothing.
pub proof fn law_one_part_is_cut(part: ContentView, budget: nat)
    requires
        budget * 4 <= usize::MAX,
    ensures
        ({
            let kept = cut_content(seq![part], budget).0;
            match part {
                ContentView::InputImage { .. } => kept == seq![part],
                ContentView::InputText { text } => if budget == 0 || text.len() == 0 {
                    kept.len() == 0
                } else {
                    kept.len() == 1 && kept[0] is InputText && cut_text_to(
                        kept[0]->InputText_text,
                        text,
                        budget,
                    )
                },
                ContentView::OutputText { text } => if budget == 0 || text.len() == 0 {
                    kept.len() == 0
                } else {
                    kept.len() == 1 && kept[0] is OutputText && cut_text_to(
                        kept[0]->OutputText_text,
                        text,
                        budget,
                    )
                },
            }
        }),
{
    let none = Seq::<ContentView>::empty();
    assert(seq![part].drop_last() =~= none);
    assert(cut_content(none, budget) == (none, budget));
    match part {
        ContentView::InputImage { .. } => {
            assert(none.push(part) =~= seq![part]);
        },
        ContentView::InputText { text } => lemma_cut_text(text, budget),
        ContentView::OutputText { text } => lemma_cut_text(text, budget),
    }
}

proof fn lemma_cut_text(text: Seq<char>, budget: nat)
    requires
        budget * 4 <= usize::MAX,
    ensures
        cut_text_to(cut_text(text, budget).0, text, budget),
        text.len() > 0 ==> cut_text(text, budget).0.len() > 0,
        text.len() == 0 ==> cut_text(text, budget).0.len() == 0,
{
    assert(bytes_of_tokens(budget) == budget * 4);
    if text_tokens(text) > budget {
        law_truncation_shows_both_ends(text, budget);
        let (to, from) = choose|to: int, from: int|
            {
                &&& #[trigger] shows_both_ends(
                    truncated(text, budget),
                    text,
                    budget * 4,
                    ((text_bytes(text) - budget * 4 + 3) / 4) as nat,
                    to,
                    from,
                )
                &&& text_bytes(text.subrange(0, to)) + text_bytes(
                    text.subrange(from, text.len() as int),
                ) + 6 >= budget * 4
            };
        reveal_strlit("…");
        reveal_strlit(" tokens truncated…");
        assert(cut_text(text, budget).0 == truncated(text, budget));
        assert(truncated(text, budget).len() > 0);
    }
}

/// A message that is cut keeps everything but its parts; nothing is left of it where no part is.
pub proof fn law_cut_message_keeps_the_rest(item: ItemView, budget: nat)
    ensures
        match item.body {
            BodyView::Message { role, content, phase } => {
                let kept = cut_content(content, budget).0;
                if kept.len() == 0 {
                    cut_message(item, budget) is None
                } else {
                    cut_message(item, budget) == Some(
                        ItemView {
                            id: item.id,
                            metadata: item.metadata,
                            body: BodyView::Message { role, content: kept, phase },
                        },
                    )
                }
            },
            _ => cut_message(item, budget) == Some(item),
        },
{
}

/// The message as `tokens` leave it is over the limit.
pub open spec fn too_large_at<M: SessionModel>(
    model: M,
    item: ItemView,
    limit: nat,
    tokens: nat,
) -> bool {
    match cut_message(item, tokens) {
        Some(cut) => model.spec_item_tokens(cut) > saturating(limit as int),
        None => false,
    }
}

/// Cutting to an item limit takes off no more than it must, by steps of a quarter: what is left is
/// the message at some budget, at which it keeps to the limit, and with about a third more it
/// would not. Nothing is left only where even one token is too much, or nothing can be shown.
pub proof fn law_cut_to_item_is_not_too_short<M: SessionModel>(
    model: M,
    item: ItemView,
    limit: nat,
    budget: nat,
)
    requires
        budget * 3 <= usize::MAX,
    ensures
        match cut_to_item(model, item, limit, budget) {
            Some(cut) => exists|at: nat|
                {
                    &&& at <= budget
                    &&& #[trigger] cut_message(item, at) == Some(cut)
                    &&& model.spec_item_tokens(cut) <= saturating(limit as int)
                    &&& at == budget || exists|more: nat|
                        at < more <= budget && 3 * more < 4 * at + 4 && #[trigger] too_large_at(
                            model,
                            item,
                            limit,
                            more,
                        )
                },
            None => exists|at: nat|
                #![trigger cut_message(item, at)]
                at <= budget && (cut_message(item, at) is None || (at <= 1 && too_large_at(
                    model,
                    item,
                    limit,
                    at,
                ))),
        },
    decreases budget,
{
    match cut_message(item, budget) {
        None => {
            assert(cut_message(item, budget) is None);
        },
        Some(cut) => {
            if model.spec_item_tokens(cut) > saturating(limit as int) {
                assert(too_large_at(model, item, limit, budget));
                if budget > 1 {
                    let next = smaller_budget(budget);
                    law_cut_to_item_is_not_too_short(model, item, limit, next);
                    match cut_to_item(model, item, limit, budget) {
                        Some(found) => {
                            let at = choose|at: nat|
                                {
                                    &&& at <= next
                                    &&& #[trigger] cut_message(item, at) == Some(found)
                                    &&& model.spec_item_tokens(found) <= saturating(limit as int)
                                    &&& at == next || exists|more: nat|
                                        at < more <= next && 3 * more < 4 * at + 4
                                            && #[trigger] too_large_at(model, item, limit, more)
                                };
                            assert(cut_message(item, at) == Some(found));
                            if at == next {
                                assert(at < budget && 3 * budget < 4 * at + 4);
                            }
                        },
                        None => {},
                    }
                }
            } else {
                assert(cut_message(item, budget) == Some(cut));
            }
        },
    }
}

// -- which messages are kept ------------------------------------------------------------------

/// Only messages of the user, the developer or the system can be kept.
pub open spec fn kept_role(item: ItemView) -> bool {
    match item.body {
        BodyView::Message { role, content, phase } => role == "user"@ || role == "developer"@
            || role == "system"@,
        _ => false,
    }
}

/// Of a prompt, those messages of the user, the developer and the system take part that the
/// session keeps, all of them and in their order.
pub proof fn law_messages_that_take_part<M: SessionModel>(model: M, items: Seq<ItemView>)
    ensures
        retainable_items(model, items) == items.filter(
            |i: ItemView| kept_role(i) && model.spec_keep_compacted(i),
        ),
    decreases items.len(),
{
    let wanted = |i: ItemView| kept_role(i) && model.spec_keep_compacted(i);
    reveal(Seq::filter);
    if items.len() > 0 {
        law_messages_that_take_part(model, items.drop_last());
    }
}

/// How many images the messages hold.
pub open spec fn images_of(items: Seq<ItemView>) -> nat
    decreases items.len(),
{
    if items.len() == 0 {
        0
    } else {
        images_of(items.drop_last()) + match items.last().body {
            BodyView::Message { role, content, phase } => content.filter(
                |part: ContentView| part is InputImage,
            ).len(),
            _ => 0,
        }
    }
}

/// The count of images is the number of image parts in the messages.
pub proof fn law_images_are_counted(items: Seq<ItemView>)
    ensures
        images_of(items) <= usize::MAX ==> image_count(items) == images_of(items),
    decreases items.len(),
{
    if items.len() > 0 {
        law_images_are_counted(items.drop_last());
        if let BodyView::Message { role, content, phase } = items.last().body {
            lemma_images(content);
            assert(message_images(items.last()) == content_images(content));
        }
    }
}

proof fn lemma_images(content: Seq<ContentView>)
    ensures
        content_images(content) == content.filter(|part: ContentView| part is InputImage).len(),
    decreases content.len(),
{
    reveal(Seq::filter);
    if content.len() > 0 {
        lemma_images(content.drop_last());
    }
}

/// A remotely compacted history ends with what the service returned, and before it come, with a
/// budget of sixty-four thousand tokens, all messages that take part where they need less.
pub proof fn law_remote_history_keeps_what_fits<M: SessionModel>(
    model: M,
    prompt: Seq<ItemView>,
    output: ItemView,
)
    requires
        take_together(retainable_items(model, prompt)) <= 64_000,
        forall|k: int|
            0 <= k < retainable_items(model, prompt).len() ==> model.spec_item_tokens(
                #[trigger] retainable_items(model, prompt)[k],
            ) <= 1_000_000,
    ensures
        v2_history(model, prompt, output) == retainable_items(model, prompt).push(output),
{
    let items = retainable_items(model, prompt);
    lemma_all_fit(model, items, 64_000);
}

proof fn lemma_all_fit<M: SessionModel>(model: M, items: Seq<ItemView>, budget: nat)
    requires
        take_together(items) <= budget <= 64_000,
        forall|k: int|
            0 <= k < items.len() ==> model.spec_item_tokens(#[trigger] items[k]) <= 1_000_000,
    ensures
        kept_messages(model, items, budget, usize::MAX as nat) == items,
    decreases items.len(),
{
    if items.len() > 0 {
        let rest = items.drop_last();
        lemma_takes(items.last());
        assert(items.last() == items[items.len() - 1]);
        assert forall|k: int| 0 <= k < rest.len() implies model.spec_item_tokens(#[trigger] rest[k])
            <= 1_000_000 by {
            assert(rest[k] == items[k]);
        }
        lemma_all_fit(model, rest, (budget - takes(items.last())) as nat);
        assert(rest.push(items.last()) =~= items);
    } else {
        assert(kept_messages(model, items, budget, usize::MAX as nat) =~= items);
    }
}

} // verus!
