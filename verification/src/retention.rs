//! Which messages a remotely compacted history keeps: the newest ones that fit a budget.

use crate::item::{
    clone_option, content_views, item_views, BodyView, ContentItem, ContentView, ItemBody,
    ItemView, ResponseItem,
};
use crate::rolling_context_filter::{is_message_of, message_of};
use crate::rolling_projection::with_content;
use crate::session_model::{saturating, SessionModel};
use crate::tokens::{approx_token_count, text_tokens, truncate_text, truncated};
use crate::transcript::smaller_budget;
use vstd::prelude::*;

verus! {

/// The tokens of kept messages, as the remote service has it.
pub const REMOTE_COMPACTION_V2_RETAINED_MESSAGE_TOKEN_BUDGET: usize = 64_000;

/// A message that a remotely compacted history may keep.
pub open spec fn retainable<M: SessionModel>(model: M, item: ItemView) -> bool {
    (message_of(item, "user"@) || message_of(item, "developer"@) || message_of(item, "system"@))
        && model.spec_keep_compacted(item)
}

pub open spec fn retainable_items<M: SessionModel>(model: M, items: Seq<ItemView>) -> Seq<ItemView>
    decreases items.len(),
{
    if items.len() == 0 {
        items
    } else if retainable(model, items.last()) {
        retainable_items(model, items.drop_last()).push(items.last())
    } else {
        retainable_items(model, items.drop_last())
    }
}

fn is_retained_for_remote_compaction_v2(item: &ResponseItem) -> (r: bool)
    ensures
        r == (message_of(item@, "user"@) || message_of(item@, "developer"@) || message_of(
            item@,
            "system"@,
        )),
{
    is_message_of(item, "user") || is_message_of(item, "developer") || is_message_of(item, "system")
}

/// `a + b`, as far as a `usize` reaches.
pub open spec fn capped_sum(a: nat, b: nat) -> nat {
    if a + b <= usize::MAX {
        a + b
    } else {
        usize::MAX as nat
    }
}

pub open spec fn part_text_tokens(part: ContentView) -> nat {
    match part {
        ContentView::InputText { text } => text_tokens(text),
        ContentView::OutputText { text } => text_tokens(text),
        ContentView::InputImage { .. } => 0,
    }
}

/// The tokens of a message's texts; images count nothing.
pub open spec fn content_tokens(content: Seq<ContentView>) -> nat
    decreases content.len(),
{
    if content.len() == 0 {
        0
    } else {
        capped_sum(content_tokens(content.drop_last()), part_text_tokens(content.last()))
    }
}

pub open spec fn message_tokens(item: ItemView) -> nat {
    match item.body {
        BodyView::Message { role, content, phase } => content_tokens(content),
        _ => 0,
    }
}

fn message_text_token_count(item: &ResponseItem) -> (n: usize)
    ensures
        n == message_tokens(item@),
{
    match &item.body {
        ItemBody::Message { role: _, content, phase: _ } => {
            let ghost all = content_views(content@);
            let mut n: usize = 0;
            let mut i: usize = 0;
            assert(all.subrange(0, 0) =~= Seq::<ContentView>::empty());
            while i < content.len()
                invariant
                    i <= content@.len(),
                    all == content_views(content@),
                    n == content_tokens(all.subrange(0, i as int)),
                decreases content@.len() - i,
            {
                proof {
                    let next = all.subrange(0, i + 1);
                    assert(next.drop_last() =~= all.subrange(0, i as int));
                    assert(next.last() == content@[i as int]@);
                }
                let tokens: usize = match &content[i] {
                    ContentItem::InputText { text } | ContentItem::OutputText { text } => {
                        approx_token_count(text.as_str())
                    },
                    ContentItem::InputImage { .. } => 0,
                };
                n = n.saturating_add(tokens);
                i += 1;
            }
            assert(all.subrange(0, i as int) =~= all);
            n
        },
        _ => 0,
    }
}

pub open spec fn is_image(part: ContentView) -> bool {
    part is InputImage
}

/// How many images a message holds.
pub open spec fn content_images(content: Seq<ContentView>) -> nat
    decreases content.len(),
{
    if content.len() == 0 {
        0
    } else {
        content_images(content.drop_last()) + if is_image(content.last()) {
            1nat
        } else {
            0
        }
    }
}

pub open spec fn message_images(item: ItemView) -> nat {
    match item.body {
        BodyView::Message { role, content, phase } => content_images(content),
        _ => 0,
    }
}

fn retained_input_image_count(item: &ResponseItem) -> (n: usize)
    ensures
        n == message_images(item@),
{
    match &item.body {
        ItemBody::Message { role: _, content, phase: _ } => {
            let ghost all = content_views(content@);
            let mut n: usize = 0;
            let mut i: usize = 0;
            assert(all.subrange(0, 0) =~= Seq::<ContentView>::empty());
            while i < content.len()
                invariant
                    i <= content@.len(),
                    all == content_views(content@),
                    n <= i,
                    n == content_images(all.subrange(0, i as int)),
                decreases content@.len() - i,
            {
                proof {
                    let next = all.subrange(0, i + 1);
                    assert(next.drop_last() =~= all.subrange(0, i as int));
                    assert(next.last() == content@[i as int]@);
                }
                match &content[i] {
                    ContentItem::InputImage { .. } => {
                        n += 1;
                    },
                    _ => {},
                }
                i += 1;
            }
            assert(all.subrange(0, i as int) =~= all);
            n
        },
        _ => 0,
    }
}

/// The images of the messages together.
pub open spec fn image_count(items: Seq<ItemView>) -> nat
    decreases items.len(),
{
    if items.len() == 0 {
        0
    } else {
        capped_sum(image_count(items.drop_last()), message_images(items.last()))
    }
}

fn count_images(items: &Vec<ResponseItem>) -> (n: usize)
    ensures
        n == image_count(item_views(items@)),
{
    let ghost all = item_views(items@);
    let mut n: usize = 0;
    let mut i: usize = 0;
    assert(all.subrange(0, 0) =~= Seq::<ItemView>::empty());
    while i < items.len()
        invariant
            i <= items@.len(),
            all == item_views(items@),
            n == image_count(all.subrange(0, i as int)),
        decreases items@.len() - i,
    {
        proof {
            let next = all.subrange(0, i + 1);
            assert(next.drop_last() =~= all.subrange(0, i as int));
            assert(next.last() == items@[i as int]@);
        }
        n = n.saturating_add(retained_input_image_count(&items[i]));
        i += 1;
    }
    assert(all.subrange(0, i as int) =~= all);
    n
}

// ---------------------------------------------------------------------------------------------
// Cutting a message down.
// ---------------------------------------------------------------------------------------------

/// One text within what is left of a budget: what is shown of it, and what is left then. A text
/// over the budget is cut down and uses all of it.
pub open spec fn cut_text(text: Seq<char>, remaining: nat) -> (Seq<char>, nat) {
    let tokens = text_tokens(text);
    if tokens <= remaining {
        (text, (remaining - tokens) as nat)
    } else {
        (truncated(text, remaining), 0)
    }
}

/// The parts within a budget: texts share it in their order, those left with nothing are dropped,
/// images stay.
pub open spec fn cut_content(content: Seq<ContentView>, budget: nat) -> (Seq<ContentView>, nat)
    decreases content.len(),
{
    if content.len() == 0 {
        (Seq::empty(), budget)
    } else {
        let (kept, remaining) = cut_content(content.drop_last(), budget);
        match content.last() {
            ContentView::InputImage { .. } => (kept.push(content.last()), remaining),
            ContentView::InputText { text } => if remaining == 0 {
                (kept, 0)
            } else {
                let (shown, rest) = cut_text(text, remaining);
                if shown.len() == 0 {
                    (kept, rest)
                } else {
                    (kept.push(ContentView::InputText { text: shown }), rest)
                }
            },
            ContentView::OutputText { text } => if remaining == 0 {
                (kept, 0)
            } else {
                let (shown, rest) = cut_text(text, remaining);
                if shown.len() == 0 {
                    (kept, rest)
                } else {
                    (kept.push(ContentView::OutputText { text: shown }), rest)
                }
            },
        }
    }
}

/// The message within a budget; nothing if none of it is left.
pub open spec fn cut_message(item: ItemView, budget: nat) -> Option<ItemView> {
    match item.body {
        BodyView::Message { role, content, phase } => {
            let kept = cut_content(content, budget).0;
            if kept.len() == 0 {
                None
            } else {
                Some(with_content(item, kept))
            }
        },
        _ => Some(item),
    }
}

fn cut_one(text: &str, remaining: usize) -> (r: (String, usize))
    ensures
        r.0@ == cut_text(text@, remaining as nat).0,
        r.1 == cut_text(text@, remaining as nat).1,
{
    let tokens: usize = approx_token_count(text);
    if tokens <= remaining {
        (text.to_owned(), remaining - tokens)
    } else {
        (truncate_text(text, remaining), 0)
    }
}

pub open spec fn option_item(item: Option<ResponseItem>) -> Option<ItemView> {
    match item {
        Some(i) => Some(i@),
        None => None,
    }
}

fn truncate_message_text_to_token_budget(item: &ResponseItem, max_tokens: usize) -> (r: Option<
    ResponseItem,
>)
    ensures
        option_item(r) == cut_message(item@, max_tokens as nat),
{
    match &item.body {
        ItemBody::Message { role, content, phase } => {
            let ghost all = content_views(content@);
            let mut kept: Vec<ContentItem> = Vec::new();
            let mut remaining: usize = max_tokens;
            let mut i: usize = 0;
            assert(all.subrange(0, 0) =~= Seq::<ContentView>::empty());
            assert(content_views(kept@) =~= Seq::<ContentView>::empty());
            while i < content.len()
                invariant
                    i <= content@.len(),
                    all == content_views(content@),
                    cut_content(all.subrange(0, i as int), max_tokens as nat) == (
                        content_views(kept@),
                        remaining as nat,
                    ),
                decreases content@.len() - i,
            {
                proof {
                    let next = all.subrange(0, i + 1);
                    assert(next.drop_last() =~= all.subrange(0, i as int));
                    assert(next.last() == content@[i as int]@);
                }
                let ghost before = content_views(kept@);
                match &content[i] {
                    ContentItem::InputImage { .. } => {
                        kept.push(content[i].clone());
                        assert(content_views(kept@) =~= before.push(all[i as int]));
                    },
                    ContentItem::InputText { text } => {
                        if remaining > 0 {
                            let (shown, rest): (String, usize) = cut_one(text.as_str(), remaining);
                            remaining = rest;
                            if !shown.as_str().is_empty() {
                                kept.push(ContentItem::InputText { text: shown });
                                assert(content_views(kept@) =~= before.push(
                                    ContentView::InputText { text: shown@ },
                                ));
                            }
                        }
                    },
                    ContentItem::OutputText { text } => {
                        if remaining > 0 {
                            let (shown, rest): (String, usize) = cut_one(text.as_str(), remaining);
                            remaining = rest;
                            if !shown.as_str().is_empty() {
                                kept.push(ContentItem::OutputText { text: shown });
                                assert(content_views(kept@) =~= before.push(
                                    ContentView::OutputText { text: shown@ },
                                ));
                            }
                        }
                    },
                }
                i += 1;
            }
            assert(all.subrange(0, i as int) =~= all);
            if kept.len() == 0 {
                return None;
            }
            Some(
                ResponseItem {
                    id: clone_option(&item.id),
                    metadata: clone_option(&item.metadata),
                    body: ItemBody::Message { role: role.clone(), content: kept, phase: *phase },
                },
            )
        },
        _ => Some(item.clone()),
    }
}

/// The message cut down to the first budget, from `budget` on, at which the item keeps to the
/// limit; nothing where one token is still too much.
pub open spec fn cut_to_item<M: SessionModel>(
    model: M,
    item: ItemView,
    limit: nat,
    budget: nat,
) -> Option<ItemView>
    decreases budget,
{
    match cut_message(item, budget) {
        None => None,
        Some(cut) => if model.spec_item_tokens(cut) <= saturating(limit as int) {
            Some(cut)
        } else if budget <= 1 || budget > usize::MAX {
            None
        } else {
            cut_to_item(model, item, limit, smaller_budget(budget))
        },
    }
}

fn as_tokens(n: usize) -> (r: i64)
    ensures
        r == saturating(n as int),
{
    if n as u64 <= i64::MAX as u64 {
        n as i64
    } else {
        i64::MAX
    }
}

fn truncate_message_to_item_token_budget<M: SessionModel>(
    model: &M,
    item: &ResponseItem,
    max_tokens: usize,
) -> (r: Option<ResponseItem>)
    ensures
        option_item(r) == cut_to_item(*model, item@, max_tokens as nat, max_tokens as nat),
{
    let mut budget: usize = max_tokens;
    loop
        invariant
            cut_to_item(*model, item@, max_tokens as nat, budget as nat) == cut_to_item(
                *model,
                item@,
                max_tokens as nat,
                max_tokens as nat,
            ),
        decreases budget,
    {
        match truncate_message_text_to_token_budget(item, budget) {
            None => {
                return None;
            },
            Some(cut) => {
                if model.item_tokens(&cut) <= as_tokens(max_tokens) {
                    return Some(cut);
                }
            },
        }
        if budget <= 1 {
            return None;
        }
        let product: usize = match budget.checked_mul(3) {
            Some(product) => product,
            None => usize::MAX,
        };
        budget =
        if product / 4 < 1 {
            1
        } else {
            product / 4
        };
    }
}

// ---------------------------------------------------------------------------------------------
// Keeping messages.
// ---------------------------------------------------------------------------------------------

pub open spec fn at_least_one(n: nat) -> nat {
    if n < 1 {
        1
    } else {
        n
    }
}

pub open spec fn less(n: nat, m: nat) -> nat {
    if m <= n {
        (n - m) as nat
    } else {
        0
    }
}

/// What is kept of one message, and what is left of the budget then. Without an item limit a
/// message over the budget is cut down and uses all of it; with one it is cut down to the item.
pub open spec fn keep_message<M: SessionModel>(
    model: M,
    item: ItemView,
    remaining: nat,
    item_limit: nat,
) -> (Option<ItemView>, nat) {
    let tokens = at_least_one(message_tokens(item));
    let item_budget = if remaining <= item_limit {
        remaining
    } else {
        item_limit
    };
    if remaining == 0 {
        (None, 0)
    } else if tokens <= item_budget && model.spec_item_tokens(item) <= saturating(
        item_limit as int,
    ) {
        (Some(item), less(remaining, tokens))
    } else if item_limit == usize::MAX {
        match cut_message(item, remaining) {
            Some(cut) => (Some(cut), 0),
            None => (None, remaining),
        }
    } else {
        match cut_to_item(model, item, item_budget, item_budget) {
            Some(cut) => (Some(cut), less(remaining, at_least_one(message_tokens(cut)))),
            None => (None, remaining),
        }
    }
}

/// The newest messages that fit, oldest first, and what is left of the budget.
pub open spec fn kept_messages<M: SessionModel>(
    model: M,
    items: Seq<ItemView>,
    remaining: nat,
    item_limit: nat,
) -> Seq<ItemView>
    decreases items.len(),
{
    if items.len() == 0 {
        Seq::empty()
    } else {
        let (kept, rest) = keep_message(model, items.last(), remaining, item_limit);
        let older = kept_messages(model, items.drop_last(), rest, item_limit);
        match kept {
            Some(item) => older.push(item),
            None => older,
        }
    }
}

fn keep_one<M: SessionModel>(
    model: &M,
    item: &ResponseItem,
    remaining: usize,
    max_item_tokens: usize,
) -> (r: (Option<ResponseItem>, usize))
    ensures
        option_item(r.0) == keep_message(
            *model,
            item@,
            remaining as nat,
            max_item_tokens as nat,
        ).0,
        r.1 == keep_message(*model, item@, remaining as nat, max_item_tokens as nat).1,
{
    if remaining == 0 {
        return (None, 0);
    }
    let tokens: usize = message_text_token_count(item);
    let tokens: usize = if tokens < 1 {
        1
    } else {
        tokens
    };
    let item_budget: usize = if remaining <= max_item_tokens {
        remaining
    } else {
        max_item_tokens
    };
    if tokens <= item_budget && model.item_tokens(item) <= as_tokens(max_item_tokens) {
        return (Some(item.clone()), remaining - tokens);
    }
    if max_item_tokens == usize::MAX {
        return match truncate_message_text_to_token_budget(item, remaining) {
            Some(cut) => (Some(cut), 0),
            None => (None, remaining),
        };
    }
    match truncate_message_to_item_token_budget(model, item, item_budget) {
        Some(cut) => {
            let used: usize = message_text_token_count(&cut);
            let used: usize = if used < 1 {
                1
            } else {
                used
            };
            let rest: usize = if used <= remaining {
                remaining - used
            } else {
                0
            };
            (Some(cut), rest)
        },
        None => (None, remaining),
    }
}

/// Keeps the newest messages that fit the budget.
pub fn truncate_retained_messages_for_remote_compaction<M: SessionModel>(
    model: &M,
    items: Vec<ResponseItem>,
    max_tokens: usize,
    max_item_tokens: usize,
) -> (kept: Vec<ResponseItem>)
    ensures
        item_views(kept@) == kept_messages(
            *model,
            item_views(items@),
            max_tokens as nat,
            max_item_tokens as nat,
        ),
{
    let ghost all = item_views(items@);
    let ghost limit = max_item_tokens as nat;
    let ghost wanted = kept_messages(*model, all, max_tokens as nat, limit);
    let mut reversed: Vec<ResponseItem> = Vec::new();
    let mut remaining: usize = max_tokens;
    let mut n: usize = items.len();
    let ghost mut newer: Seq<ItemView> = Seq::empty();
    proof {
        assert(all.subrange(0, n as int) =~= all);
        assert(wanted + newer =~= wanted);
        assert(item_views(reversed@) =~= newer.reverse());
    }
    while n > 0
        invariant
            n <= items@.len(),
            all == item_views(items@),
            limit == max_item_tokens,
            item_views(reversed@) == newer.reverse(),
            kept_messages(*model, all.subrange(0, n as int), remaining as nat, limit) + newer
                == wanted,
        decreases n,
    {
        let ghost part = all.subrange(0, n as int);
        let ghost before = newer;
        proof {
            assert(part.last() == items@[n - 1]@);
            assert(part.drop_last() =~= all.subrange(0, n - 1));
        }
        let (kept, rest): (Option<ResponseItem>, usize) = keep_one(
            model,
            &items[n - 1],
            remaining,
            max_item_tokens,
        );
        let ghost older = kept_messages(*model, all.subrange(0, n - 1), rest as nat, limit);
        if let Some(item) = kept {
            reversed.push(item);
            proof {
                newer = seq![item@] + newer;
                assert(older.push(item@) + before =~= older + newer);
                assert(item_views(reversed@) =~= before.reverse().push(item@));
                assert(newer.reverse() =~= before.reverse().push(item@));
            }
        }
        remaining = rest;
        n -= 1;
    }
    proof {
        assert(kept_messages(*model, all.subrange(0, 0), remaining as nat, limit) =~= Seq::<
            ItemView,
        >::empty());
        assert(newer =~= wanted);
        assert(item_views(reversed@).len() == newer.reverse().len());
    }
    let mut kept: Vec<ResponseItem> = Vec::new();
    let mut i: usize = reversed.len();
    assert(item_views(kept@) =~= Seq::<ItemView>::empty());
    while i > 0
        invariant
            i <= reversed@.len() == newer.len(),
            item_views(reversed@) == newer.reverse(),
            item_views(kept@) == newer.subrange(0, reversed@.len() - i),
        decreases i,
    {
        let ghost before = item_views(kept@);
        kept.push(reversed[i - 1].clone());
        proof {
            assert(item_views(reversed@)[i - 1] == reversed@[i - 1]@);
            assert(newer.reverse()[i - 1] == newer[newer.len() - i]);
            assert(item_views(kept@) =~= before.push(reversed@[i - 1]@));
            assert(newer.subrange(0, reversed@.len() - i + 1) =~= newer.subrange(
                0,
                reversed@.len() - i,
            ).push(newer[newer.len() - i]));
        }
        i -= 1;
    }
    assert(newer.subrange(0, newer.len() as int) =~= newer);
    kept
}

/// The messages of a prompt that a compacted history keeps, and how many images they hold.
pub fn retained_messages_for_remote_compaction_v2_with_item_cap<M: SessionModel>(
    model: &M,
    prompt_input: &[ResponseItem],
    max_tokens: usize,
    max_item_tokens: usize,
) -> (r: (Vec<ResponseItem>, usize))
    ensures
        item_views(r.0@) == kept_messages(
            *model,
            retainable_items(*model, item_views(prompt_input@)),
            max_tokens as nat,
            max_item_tokens as nat,
        ),
        r.1 == image_count(item_views(r.0@)),
{
    let ghost all = item_views(prompt_input@);
    let mut retained: Vec<ResponseItem> = Vec::new();
    let mut i: usize = 0;
    assert(item_views(retained@) =~= retainable_items(*model, all.subrange(0, 0)));
    while i < prompt_input.len()
        invariant
            i <= prompt_input@.len(),
            all == item_views(prompt_input@),
            item_views(retained@) == retainable_items(*model, all.subrange(0, i as int)),
        decreases prompt_input@.len() - i,
    {
        let item = &prompt_input[i];
        proof {
            let next = all.subrange(0, i + 1);
            assert(next.drop_last() =~= all.subrange(0, i as int));
            assert(next.last() == item@);
        }
        if is_retained_for_remote_compaction_v2(item) && model.keep_compacted(item) {
            let ghost before = item_views(retained@);
            retained.push(item.clone());
            assert(item_views(retained@) =~= before.push(item@));
        }
        i += 1;
    }
    assert(all.subrange(0, i as int) =~= all);
    let kept = truncate_retained_messages_for_remote_compaction(
        model,
        retained,
        max_tokens,
        max_item_tokens,
    );
    let images: usize = count_images(&kept);
    (kept, images)
}

pub fn retained_messages_for_remote_compaction_v2<M: SessionModel>(
    model: &M,
    prompt_input: &[ResponseItem],
    max_tokens: usize,
) -> (r: (Vec<ResponseItem>, usize))
    ensures
        item_views(r.0@) == kept_messages(
            *model,
            retainable_items(*model, item_views(prompt_input@)),
            max_tokens as nat,
            usize::MAX as nat,
        ),
        r.1 == image_count(item_views(r.0@)),
{
    retained_messages_for_remote_compaction_v2_with_item_cap(
        model,
        prompt_input,
        max_tokens,
        usize::MAX,
    )
}

/// The compacted history: the kept messages and what the remote service returned.
pub open spec fn v2_history<M: SessionModel>(
    model: M,
    prompt_input: Seq<ItemView>,
    output: ItemView,
) -> Seq<ItemView> {
    kept_messages(
        model,
        retainable_items(model, prompt_input),
        REMOTE_COMPACTION_V2_RETAINED_MESSAGE_TOKEN_BUDGET as nat,
        usize::MAX as nat,
    ).push(output)
}

pub fn build_v2_compacted_history<M: SessionModel>(
    model: &M,
    prompt_input: &[ResponseItem],
    compaction_output: ResponseItem,
) -> (r: (Vec<ResponseItem>, usize))
    ensures
        item_views(r.0@) == v2_history(*model, item_views(prompt_input@), compaction_output@),
        r.1 == image_count(item_views(r.0@).drop_last()),
{
    let (retained, images) = retained_messages_for_remote_compaction_v2(
        model,
        prompt_input,
        REMOTE_COMPACTION_V2_RETAINED_MESSAGE_TOKEN_BUDGET,
    );
    let ghost before = item_views(retained@);
    let mut all = retained;
    all.push(compaction_output);
    assert(item_views(all@) =~= before.push(compaction_output@));
    assert(before.push(compaction_output@).drop_last() =~= before);
    (all, images)
}

// -- laws -------------------------------------------------------------------------------------

/// With nothing left of the budget, nothing older is kept.
pub proof fn law_spent_budget_keeps_nothing<M: SessionModel>(
    model: M,
    items: Seq<ItemView>,
    item_limit: nat,
)
    ensures
        kept_messages(model, items, 0, item_limit) == Seq::<ItemView>::empty(),
    decreases items.len(),
{
    if items.len() > 0 {
        law_spent_budget_keeps_nothing(model, items.drop_last(), item_limit);
    }
}

/// What the messages take of a budget: each its texts, and at least one token.
pub open spec fn budget_needed(items: Seq<ItemView>) -> nat
    decreases items.len(),
{
    if items.len() == 0 {
        0
    } else {
        budget_needed(items.drop_last()) + at_least_one(message_tokens(items.last()))
    }
}

/// The message needs no cutting for the sake of the item limit.
pub open spec fn within_item_limit<M: SessionModel>(
    model: M,
    item: ItemView,
    item_limit: nat,
) -> bool {
    &&& at_least_one(message_tokens(item)) <= item_limit
    &&& model.spec_item_tokens(item) <= saturating(item_limit as int)
}

/// Messages that fit together, each within the item limit, are all kept as they are.
pub proof fn law_messages_that_fit_stay_whole<M: SessionModel>(
    model: M,
    items: Seq<ItemView>,
    remaining: nat,
    item_limit: nat,
)
    requires
        budget_needed(items) <= remaining,
        forall|k: int|
            0 <= k < items.len() ==> within_item_limit(model, #[trigger] items[k], item_limit),
    ensures
        kept_messages(model, items, remaining, item_limit) == items,
    decreases items.len(),
{
    if items.len() > 0 {
        let front = items.drop_last();
        assert(within_item_limit(model, items[items.len() - 1], item_limit));
        let rest = less(remaining, at_least_one(message_tokens(items.last())));
        assert forall|k: int| 0 <= k < front.len() implies within_item_limit(
            model,
            #[trigger] front[k],
            item_limit,
        ) by {
            assert(front[k] == items[k]);
        }
        law_messages_that_fit_stay_whole(model, front, rest, item_limit);
        assert(front.push(items.last()) =~= items);
    } else {
        assert(kept_messages(model, items, remaining, item_limit) =~= items);
    }
}

/// With an item limit, every kept message keeps to it.
pub proof fn law_kept_messages_keep_to_the_item_limit<M: SessionModel>(
    model: M,
    items: Seq<ItemView>,
    remaining: nat,
    item_limit: nat,
)
    requires
        item_limit < usize::MAX,
    ensures
        forall|k: int|
            0 <= k < kept_messages(model, items, remaining, item_limit).len()
                ==> model.spec_item_tokens(
                #[trigger] kept_messages(model, items, remaining, item_limit)[k],
            ) <= saturating(item_limit as int),
    decreases items.len(),
{
    if items.len() > 0 {
        let (kept, rest) = keep_message(model, items.last(), remaining, item_limit);
        law_kept_messages_keep_to_the_item_limit(model, items.drop_last(), rest, item_limit);
        let older = kept_messages(model, items.drop_last(), rest, item_limit);
        let all = kept_messages(model, items, remaining, item_limit);
        let item_budget = if remaining <= item_limit {
            remaining
        } else {
            item_limit
        };
        lemma_cut_to_item(model, items.last(), item_budget, item_budget);
        assert forall|k: int| 0 <= k < all.len() implies model.spec_item_tokens(#[trigger] all[k])
            <= saturating(item_limit as int) by {
            if k < older.len() {
                assert(all[k] == older[k]);
            }
        }
    }
}

pub proof fn lemma_cut_to_item<M: SessionModel>(
    model: M,
    item: ItemView,
    limit: nat,
    budget: nat,
)
    ensures
        match cut_to_item(model, item, limit, budget) {
            Some(cut) => model.spec_item_tokens(cut) <= saturating(limit as int),
            None => true,
        },
    decreases budget,
{
    if cut_message(item, budget) is Some && 1 < budget <= usize::MAX {
        lemma_cut_to_item(model, item, limit, smaller_budget(budget));
    }
}

} // verus!
