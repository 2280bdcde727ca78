//! What fitting an item to the limit keeps.

use crate::boundary::{
    boundary, floor_boundary, lemma_floor_boundary, lemma_next_boundary, lemma_slice_whole,
    lemma_slices_meet, next_boundary, slice,
};
use crate::item::{BodyView, ContentView, ItemView, WebSearchView};
use crate::rolling_projection::{
    chunk_bytes, chunk_end, chunks_from, content_pieces, cut_back, first_budget, fitted_budget,
    fitted_item, fitted_prompt, image_with, law_budget_shrinks, limit_budget, packed, part_pieces,
    part_tokens, projected_item, projected_message, shortened, shorter_length, shrunk_budget, stays_whole, text_part,
    text_pieces, with_content,
};
use crate::session_model::SessionModel;
use crate::text::text_bytes;
use crate::tokens::truncated;
use vstd::prelude::*;
use vstd::utf8::encode_utf8;

verus! {

/// The texts one after the other.
pub open spec fn concat(parts: Seq<Seq<char>>) -> Seq<char>
    decreases parts.len(),
{
    if parts.len() == 0 {
        Seq::empty()
    } else {
        parts[0] + concat(parts.drop_first())
    }
}

pub open spec fn part_text(part: ContentView) -> Seq<char> {
    match part {
        ContentView::InputText { text } => text,
        ContentView::OutputText { text } => text,
        ContentView::InputImage { .. } => Seq::empty(),
    }
}

/// All the text of a message's content, in order.
pub open spec fn content_text(content: Seq<ContentView>) -> Seq<char>
    decreases content.len(),
{
    if content.len() == 0 {
        Seq::empty()
    } else {
        content_text(content.drop_last()) + part_text(content.last())
    }
}

pub open spec fn message_text(item: ItemView) -> Seq<char> {
    match item.body {
        BodyView::Message { role, content, phase } => content_text(content),
        _ => Seq::empty(),
    }
}

/// All the text of a list of messages, in order.
pub open spec fn messages_text(items: Seq<ItemView>) -> Seq<char>
    decreases items.len(),
{
    if items.len() == 0 {
        Seq::empty()
    } else {
        messages_text(items.drop_last()) + message_text(items.last())
    }
}

proof fn lemma_cut_back<M: SessionModel>(
    model: M,
    item: ItemView,
    input: bool,
    text: Seq<char>,
    start: int,
    end: int,
    limit: i64,
)
    requires
        0 <= start < end <= encode_utf8(text).len(),
        boundary(text, start),
        boundary(text, end),
    ensures
        start < cut_back(model, item, input, text, start, end, limit) <= encode_utf8(text).len(),
        boundary(text, cut_back(model, item, input, text, start, end, limit)),
    decreases end - start,
{
    if part_tokens(model, item, input, slice(text, start, end)) > limit {
        let next = floor_boundary(text, start + shorter_length(end - start));
        lemma_floor_boundary(text, start + shorter_length(end - start));
        lemma_next_boundary(text, start);
        if start < next < end {
            lemma_cut_back(model, item, input, text, start, next, limit);
        }
    }
}

proof fn lemma_chunk_end<M: SessionModel>(
    model: M,
    item: ItemView,
    input: bool,
    text: Seq<char>,
    start: int,
    limit: i64,
)
    requires
        0 <= start < encode_utf8(text).len(),
        boundary(text, start),
    ensures
        start < chunk_end(model, item, input, text, start, limit) <= encode_utf8(text).len(),
        boundary(text, chunk_end(model, item, input, text, start, limit)),
{
    let far = if start + chunk_bytes(limit) <= usize::MAX {
        start + chunk_bytes(limit)
    } else {
        usize::MAX as int
    };
    lemma_floor_boundary(text, far);
    lemma_next_boundary(text, start);
    let end = floor_boundary(text, far);
    lemma_cut_back(
        model,
        item,
        input,
        text,
        start,
        if end <= start {
            next_boundary(text, start)
        } else {
            end
        },
        limit,
    );
}

proof fn lemma_chunks_join<M: SessionModel>(
    model: M,
    item: ItemView,
    input: bool,
    text: Seq<char>,
    start: int,
    limit: i64,
)
    requires
        0 <= start <= encode_utf8(text).len(),
        boundary(text, start),
    ensures
        concat(chunks_from(model, item, input, text, start, limit)) == slice(
            text,
            start,
            encode_utf8(text).len() as int,
        ),
    decreases encode_utf8(text).len() - start,
{
    let len = encode_utf8(text).len() as int;
    lemma_slice_whole(text);
    if start < len {
        lemma_chunk_end(model, item, input, text, start, limit);
        let end = chunk_end(model, item, input, text, start, limit);
        lemma_chunks_join(model, item, input, text, end, limit);
        lemma_slices_meet(text, start, end, len);
        let rest = chunks_from(model, item, input, text, end, limit);
        assert((seq![slice(text, start, end)] + rest).drop_first() =~= rest);
    }
}

/// The pieces of a text make up the text.
pub proof fn law_pieces_make_up_the_text<M: SessionModel>(
    model: M,
    item: ItemView,
    input: bool,
    text: Seq<char>,
    limit: i64,
)
    ensures
        concat(text_pieces(model, item, input, text, limit)) == text,
{
    lemma_slice_whole(text);
    if text.len() == 0 || part_tokens(model, item, input, text) <= limit {
        assert(seq![text].drop_first() =~= Seq::<Seq<char>>::empty());
        assert(concat(seq![text].drop_first()) =~= Seq::<char>::empty());
        assert(concat(seq![text]) =~= text);
    } else {
        lemma_chunks_join(model, item, input, text, 0, limit);
    }
}

proof fn lemma_content_text_concat(a: Seq<ContentView>, b: Seq<ContentView>)
    ensures
        content_text(a + b) == content_text(a) + content_text(b),
    decreases b.len(),
{
    if b.len() == 0 {
        assert(a + b =~= a);
        assert(content_text(a) + content_text(b) =~= content_text(a));
    } else {
        lemma_content_text_concat(a, b.drop_last());
        assert((a + b).drop_last() =~= a + b.drop_last());
        assert(content_text(a + b) =~= content_text(a) + content_text(b));
    }
}

proof fn lemma_text_parts(input: bool, pieces: Seq<Seq<char>>)
    ensures
        content_text(pieces.map_values(|piece: Seq<char>| text_part(input, piece))) == concat(
            pieces,
        ),
    decreases pieces.len(),
{
    let part = |piece: Seq<char>| text_part(input, piece);
    if pieces.len() > 0 {
        let first = seq![part(pieces[0])];
        let rest = pieces.drop_first();
        lemma_text_parts(input, rest);
        assert(pieces.map_values(part) =~= first + rest.map_values(part));
        lemma_content_text_concat(first, rest.map_values(part));
        assert(first.drop_last() =~= Seq::<ContentView>::empty());
        assert(content_text(first.drop_last()) =~= Seq::<char>::empty());
        assert(content_text(first) =~= pieces[0]);
    } else {
        assert(content_text(pieces.map_values(part)) =~= concat(pieces));
    }
}

proof fn lemma_part_pieces_text<M: SessionModel>(
    model: M,
    item: ItemView,
    part: ContentView,
    limit: i64,
)
    ensures
        content_text(part_pieces(model, item, part, limit)) == part_text(part),
{
    match part {
        ContentView::InputText { text } => {
            law_pieces_make_up_the_text(model, item, true, text, limit);
            lemma_text_parts(true, text_pieces(model, item, true, text, limit));
        },
        ContentView::OutputText { text } => {
            law_pieces_make_up_the_text(model, item, false, text, limit);
            lemma_text_parts(false, text_pieces(model, item, false, text, limit));
        },
        ContentView::InputImage { .. } => {
            assert(seq![part].drop_last() =~= Seq::<ContentView>::empty());
            assert(content_text(seq![part].drop_last()) =~= Seq::<char>::empty());
            assert(content_text(seq![part]) =~= Seq::<char>::empty());
        },
    }
}

proof fn lemma_content_pieces_text<M: SessionModel>(
    model: M,
    item: ItemView,
    content: Seq<ContentView>,
    limit: i64,
)
    ensures
        content_text(content_pieces(model, item, content, limit)) == content_text(content),
    decreases content.len(),
{
    if content.len() > 0 {
        lemma_content_pieces_text(model, item, content.drop_last(), limit);
        lemma_part_pieces_text(model, item, content.last(), limit);
        lemma_content_text_concat(
            content_pieces(model, item, content.drop_last(), limit),
            part_pieces(model, item, content.last(), limit),
        );
    }
}

/// The parts of a list of messages, in order.
pub open spec fn messages_parts(items: Seq<ItemView>) -> Seq<ContentView>
    decreases items.len(),
{
    if items.len() == 0 {
        Seq::empty()
    } else {
        messages_parts(items.drop_last()) + match items.last().body {
            BodyView::Message { role, content, phase } => content,
            _ => Seq::empty(),
        }
    }
}

proof fn lemma_messages_text_is_parts_text(items: Seq<ItemView>)
    ensures
        messages_text(items) == content_text(messages_parts(items)),
    decreases items.len(),
{
    if items.len() > 0 {
        lemma_messages_text_is_parts_text(items.drop_last());
        match items.last().body {
            BodyView::Message { role, content, phase } => {
                lemma_content_text_concat(messages_parts(items.drop_last()), content);
            },
            _ => {
                assert(messages_parts(items) =~= messages_parts(items.drop_last()));
                assert(messages_text(items) =~= messages_text(items.drop_last()));
            },
        }
    }
}

pub proof fn lemma_packed_parts<M: SessionModel>(
    model: M,
    item: ItemView,
    pieces: Seq<ContentView>,
    limit: i64,
)
    requires
        item.body is Message,
    ensures
        messages_parts(packed(model, item, pieces, limit).0) + packed(
            model,
            item,
            pieces,
            limit,
        ).1 == pieces,
    decreases pieces.len(),
{
    if pieces.len() == 0 {
        assert(messages_parts(packed(model, item, pieces, limit).0) + packed(
            model,
            item,
            pieces,
            limit,
        ).1 =~= pieces);
    } else {
        lemma_packed_parts(model, item, pieces.drop_last(), limit);
        let (items, open) = packed(model, item, pieces.drop_last(), limit);
        let (after, last) = packed(model, item, pieces, limit);
        let closed = items.push(with_content(item, open));
        assert(closed.drop_last() =~= items);
        assert(messages_parts(after) + last =~= (messages_parts(items) + open).push(pieces.last()));
        assert(pieces.drop_last().push(pieces.last()) =~= pieces);
    }
}

/// Splitting a message loses none of its text: the messages that come out hold all of it, in
/// order.
pub proof fn law_split_keeps_text<M: SessionModel>(
    model: M,
    item: ItemView,
    limit: i64,
)
    requires
        item.body is Message,
    ensures
        messages_text(projected_message(model, item, limit)) == message_text(item),
{
    let content = item.body->Message_content;
    let result = projected_message(model, item, limit);
    if model.spec_item_tokens(item) <= limit {
        assert(result.drop_last() =~= Seq::<ItemView>::empty());
        assert(messages_text(result.drop_last()) =~= Seq::<char>::empty());
        assert(messages_text(result) =~= content_text(content));
    } else {
        let pieces = content_pieces(model, item, content, limit);
        let (items, open) = packed(model, item, pieces, limit);
        lemma_packed_parts(model, item, pieces, limit);
        lemma_content_pieces_text(model, item, content, limit);
        lemma_messages_text_is_parts_text(result);
        let closed = items.push(with_content(item, open));
        assert(closed.drop_last() =~= items);
        assert(messages_parts(result) =~= pieces);
    }
}

proof fn lemma_packed_fits<M: SessionModel>(
    model: M,
    item: ItemView,
    pieces: Seq<ContentView>,
    limit: i64,
)
    requires
        item.body is Message,
    ensures
        ({
            let (items, open) = packed(model, item, pieces, limit);
            &&& forall|k: int| 0 <= k < items.len() ==> fits_or_single(model, #[trigger] items[k], limit)
            &&& open.len() <= 1 || model.spec_item_tokens(with_content(item, open)) <= limit
        }),
    decreases pieces.len(),
{
    if pieces.len() > 0 {
        lemma_packed_fits(model, item, pieces.drop_last(), limit);
    }
}

/// The item keeps to the limit, or is a message with at most one part.
pub open spec fn fits_or_single<M: SessionModel>(model: M, item: ItemView, limit: i64) -> bool {
    model.spec_item_tokens(item) <= limit || match item.body {
        BodyView::Message { role, content, phase } => content.len() <= 1,
        _ => false,
    }
}

/// A message that comes out of a split keeps to the limit, unless a single piece is over it
/// already.
pub proof fn law_split_messages_fit<M: SessionModel>(model: M, item: ItemView, limit: i64)
    requires
        item.body is Message,
    ensures
        forall|k: int|
            0 <= k < projected_message(model, item, limit).len() ==> fits_or_single(
                model,
                #[trigger] projected_message(model, item, limit)[k],
                limit,
            ),
{
    let pieces = content_pieces(model, item, item.body->Message_content, limit);
    lemma_packed_fits(model, item, pieces, limit);
}

proof fn lemma_fitted_budget(fits: spec_fn(nat) -> bool, budget: nat)
    requires
        budget <= usize::MAX,
    ensures
        fits(fitted_budget(fits, budget)) || fitted_budget(fits, budget) <= 1,
        fitted_budget(fits, budget) <= budget,
    decreases budget,
{
    if !(fits(budget) || budget <= 1) {
        law_budget_shrinks(budget);
        lemma_fitted_budget(fits, shrunk_budget(budget));
    }
}

/// A tool call or output that goes into a prompt keeps to the item limit, unless even a budget of
/// one token does not bring it there.
pub proof fn law_projected_item_fits<M: SessionModel>(
    model: M,
    item: ItemView,
    tool_output_limit_tokens: nat,
    item_limit_tokens: i64,
)
    requires
        tool_output_limit_tokens <= usize::MAX,
        item.body is FunctionCall || item.body is CustomToolCall || item.body is FunctionCallOutput
            || item.body is CustomToolCallOutput || item.body is ToolSearchCall
            || item.body is ToolSearchOutput || item.body is WebSearchCall
            || item.body is LocalShellCall,
    ensures
        ({
            let projected = projected_item(
                model,
                item,
                tool_output_limit_tokens,
                item_limit_tokens,
            );
            ||| model.spec_item_tokens(projected) <= item_limit_tokens
            ||| projected == shortened(model, item, 1)
            ||| projected == shortened(model, item, 0)
        }),
{
    let budget = first_budget(item, tool_output_limit_tokens, item_limit_tokens);
    lemma_fitted_item(model, item, budget, item_limit_tokens);
    let projected = projected_item(model, item, tool_output_limit_tokens, item_limit_tokens);
    if stays_whole(model, item, tool_output_limit_tokens, item_limit_tokens) {
        assert(projected == item);
    } else {
        assert(projected == fitted_item(model, item, budget, item_limit_tokens));
    }
}

proof fn lemma_fitted_item<M: SessionModel>(
    model: M,
    item: ItemView,
    budget: nat,
    item_limit_tokens: i64,
)
    requires
        budget <= usize::MAX,
    ensures
        ({
            let fitted = fitted_item(model, item, budget, item_limit_tokens);
            ||| model.spec_item_tokens(fitted) <= item_limit_tokens
            ||| fitted == shortened(model, item, 1)
            ||| fitted == shortened(model, item, 0)
        }),
{
    let fits = |b: nat| model.spec_item_tokens(shortened(model, item, b)) <= item_limit_tokens;
    lemma_fitted_budget(fits, budget);
    let tokens = fitted_budget(fits, budget);
    assert(fitted_item(model, item, budget, item_limit_tokens) == shortened(model, item, tokens));
}

/// The text cut down as far as cutting goes.
pub open spec fn least(text: Seq<char>, whole: Seq<char>) -> bool {
    text == truncated(whole, 1) || text == truncated(whole, 0)
}

proof fn lemma_nothing_to_cut(tokens: nat)
    ensures
        truncated(Seq::<char>::empty(), tokens) == Seq::<char>::empty(),
{
    let none = Seq::<char>::empty();
    assert(text_bytes(none) == 0);
}

proof fn lemma_fitted_prompt<M: SessionModel>(
    model: M,
    item: ItemView,
    revised_prompt: Option<Seq<char>>,
    result: Seq<char>,
    item_limit_tokens: i64,
)
    ensures
        ({
            let fitted = fitted_prompt(model, item, revised_prompt, result, item_limit_tokens);
            &&& fitted is Some == revised_prompt is Some
            &&& revised_prompt is Some ==> (model.spec_item_tokens(
                image_with(item, fitted, result),
            ) <= item_limit_tokens || least(fitted->Some_0, revised_prompt->Some_0))
        }),
{
    if let Some(prompt) = revised_prompt {
        let fits = |b: nat|
            model.spec_item_tokens(image_with(item, Some(truncated(prompt, b)), result))
                <= item_limit_tokens;
        lemma_fitted_budget(fits, limit_budget(item_limit_tokens));
    }
}

/// An image item that goes into a prompt keeps to the item limit; or its image is dropped and its
/// prompt cut down as far as cutting goes; or the image, which would have fitted whole, is cut down
/// as far as cutting goes.
pub proof fn law_projected_image_fits<M: SessionModel>(
    model: M,
    item: ItemView,
    tool_output_limit_tokens: nat,
    item_limit_tokens: i64,
)
    requires
        tool_output_limit_tokens <= usize::MAX,
        item.body is ImageGenerationCall,
    ensures
        ({
            let projected = projected_item(
                model,
                item,
                tool_output_limit_tokens,
                item_limit_tokens,
            );
            let prompt = item.body->ImageGenerationCall_revised_prompt;
            let shown = projected.body->ImageGenerationCall_revised_prompt;
            &&& projected.body is ImageGenerationCall
            &&& (model.spec_item_tokens(projected) <= item_limit_tokens || (
            projected.body->ImageGenerationCall_result == Seq::<char>::empty() && match (
                shown,
                prompt,
            ) {
                (Some(s), Some(p)) => least(s, p),
                (None, None) => true,
                _ => false,
            }) || (model.spec_item_tokens(
                image_with(item, shown, item.body->ImageGenerationCall_result),
            ) <= item_limit_tokens && least(
                projected.body->ImageGenerationCall_result,
                item.body->ImageGenerationCall_result,
            )))
        }),
{
    let prompt = item.body->ImageGenerationCall_revised_prompt;
    let result = item.body->ImageGenerationCall_result;
    let none = Seq::<char>::empty();
    lemma_fitted_prompt(model, item, prompt, result, item_limit_tokens);
    lemma_fitted_prompt(model, item, prompt, none, item_limit_tokens);
    let with_result = fitted_prompt(model, item, prompt, result, item_limit_tokens);
    let keeps = model.spec_item_tokens(image_with(item, with_result, result)) <= item_limit_tokens;
    let kept = if keeps {
        result
    } else {
        none
    };
    let shown = if keeps {
        with_result
    } else {
        fitted_prompt(model, item, prompt, none, item_limit_tokens)
    };
    let fits = |b: nat|
        model.spec_item_tokens(image_with(item, shown, truncated(kept, b))) <= item_limit_tokens;
    lemma_fitted_budget(fits, tool_output_limit_tokens);
    let budget = fitted_budget(fits, tool_output_limit_tokens);
    lemma_nothing_to_cut(budget);
    assert(projected_item(model, item, tool_output_limit_tokens, item_limit_tokens) == image_with(
        item,
        shown,
        truncated(kept, budget),
    ));
}

/// The items are of one kind and agree on all but what may be cut down: names, ids of calls,
/// states and whether a call succeeded.
pub open spec fn same_frame(a: BodyView, b: BodyView) -> bool {
    match (a, b) {
        (
            BodyView::FunctionCall { name, namespace, arguments, call_id },
            BodyView::FunctionCall { name: n, namespace: s, arguments: _, call_id: c },
        ) => name == n && namespace == s && call_id == c,
        (
            BodyView::FunctionCallOutput { call_id, output },
            BodyView::FunctionCallOutput { call_id: c, output: o },
        ) => call_id == c && output.success == o.success,
        (
            BodyView::CustomToolCall { status, call_id, name, input },
            BodyView::CustomToolCall { status: s, call_id: c, name: n, input: _ },
        ) => status == s && call_id == c && name == n,
        (
            BodyView::CustomToolCallOutput { call_id, name, output },
            BodyView::CustomToolCallOutput { call_id: c, name: n, output: o },
        ) => call_id == c && name == n && output.success == o.success,
        (
            BodyView::ToolSearchCall { call_id, status, execution, arguments },
            BodyView::ToolSearchCall { call_id: c, status: s, execution: e, arguments: _ },
        ) => call_id == c && status == s && execution == e,
        (
            BodyView::ToolSearchOutput { call_id, status, execution, tools },
            BodyView::ToolSearchOutput { call_id: c, status: s, execution: e, tools: _ },
        ) => call_id == c && status == s && execution == e,
        (
            BodyView::LocalShellCall { call_id, status, action },
            BodyView::LocalShellCall { call_id: c, status: s, action: _ },
        ) => call_id == c && status == s,
        (
            BodyView::WebSearchCall { status, action },
            BodyView::WebSearchCall { status: s, action: a2 },
        ) => status == s && match (action, a2) {
            (None, None) => true,
            (Some(WebSearchView::Search { .. }), Some(WebSearchView::Search { .. })) => true,
            (Some(WebSearchView::OpenPage { .. }), Some(WebSearchView::OpenPage { .. })) => true,
            (
                Some(WebSearchView::FindInPage { .. }),
                Some(WebSearchView::FindInPage { .. }),
            ) => true,
            (Some(WebSearchView::Other), Some(WebSearchView::Other)) => true,
            _ => false,
        },
        (
            BodyView::ImageGenerationCall { status, revised_prompt, result },
            BodyView::ImageGenerationCall { status: s, revised_prompt: p, result: _ },
        ) => status == s && revised_prompt is Some == p is Some,
        _ => a == b,
    }
}

/// What goes into a prompt for an item is an item of the same kind, with the same id and transport
/// data, the same call id, name, namespace, status and execution. Only what the item carries is
/// ever cut down.
pub proof fn law_projection_keeps_identity<M: SessionModel>(
    model: M,
    item: ItemView,
    tool_output_limit_tokens: nat,
    item_limit_tokens: i64,
)
    ensures
        ({
            let projected = projected_item(
                model,
                item,
                tool_output_limit_tokens,
                item_limit_tokens,
            );
            &&& projected.id == item.id
            &&& projected.metadata == item.metadata
            &&& same_frame(item.body, projected.body)
        }),
{
    if let BodyView::ImageGenerationCall { status, revised_prompt, result } = item.body {
        lemma_fitted_prompt(model, item, revised_prompt, result, item_limit_tokens);
        lemma_fitted_prompt(model, item, revised_prompt, Seq::empty(), item_limit_tokens);
    }
}

} // verus!
