//! How a message is split: what stays together, and how long the pieces are.

use crate::boundary::{boundary, floor_boundary, lemma_floor_boundary, next_boundary, slice};
use crate::item::{ContentView, ItemView};
use crate::rolling_projection::{
    chunk_bytes, chunk_end, content_pieces, cut_back, packed, part_pieces, part_tokens,
    projected_message, shorter_length, text_pieces, with_content,
};
use crate::rolling_projection_laws::{lemma_packed_parts, messages_parts};
use crate::session_model::SessionModel;
use vstd::prelude::*;
use vstd::utf8::encode_utf8;

verus! {

// -- positions between characters -------------------------------------------------------------

/// Rounding down gives the largest position between characters that is not behind the index.
pub proof fn law_floor_is_the_nearest_boundary(s: Seq<char>, index: int, k: int)
    requires
        floor_boundary(s, index) < k <= index,
        k <= encode_utf8(s).len(),
    ensures
        !boundary(s, k),
    decreases index,
{
    let bytes = encode_utf8(s);
    if index > 0 && index < bytes.len() && !boundary(s, index) && k < index {
        law_floor_is_the_nearest_boundary(s, index - 1, k);
    }
}

/// Rounding up gives the smallest position between characters behind the index.
pub proof fn law_next_is_the_nearest_boundary(s: Seq<char>, index: int, k: int)
    requires
        0 <= index < k < next_boundary(s, index),
    ensures
        !boundary(s, k),
    decreases encode_utf8(s).len() - index,
{
    let bytes = encode_utf8(s);
    if index + 1 < bytes.len() && !boundary(s, index + 1) && k > index + 1 {
        law_next_is_the_nearest_boundary(s, index + 1, k);
    }
}

// -- messages that fit ------------------------------------------------------------------------

/// A message that fits is sent as it is, and so is anything that is no message.
pub proof fn law_message_that_fits_is_not_split<M: SessionModel>(
    model: M,
    item: ItemView,
    limit: i64,
)
    ensures
        model.spec_item_tokens(item) <= limit || !(item.body is Message) ==> projected_message(
            model,
            item,
            limit,
        ) == seq![item],
{
}

/// Every message that comes out of a split has the role, the phase, the id and the transport data
/// of the one that was split.
pub proof fn law_split_keeps_the_frame<M: SessionModel>(
    model: M,
    item: ItemView,
    limit: i64,
    k: int,
)
    requires
        item.body is Message,
        0 <= k < projected_message(model, item, limit).len(),
    ensures
        ({
            let sent = projected_message(model, item, limit)[k];
            &&& sent.id == item.id
            &&& sent.metadata == item.metadata
            &&& sent.body is Message
            &&& sent.body->Message_role == item.body->Message_role
            &&& sent.body->Message_phase == item.body->Message_phase
        }),
{
    if model.spec_item_tokens(item) > limit {
        let pieces = content_pieces(model, item, item.body->Message_content, limit);
        lemma_packed_frame(model, item, pieces, limit);
    }
}

spec fn framed(sent: ItemView, item: ItemView) -> bool {
    &&& sent.id == item.id
    &&& sent.metadata == item.metadata
    &&& sent.body is Message
    &&& sent.body->Message_role == item.body->Message_role
    &&& sent.body->Message_phase == item.body->Message_phase
}

proof fn lemma_packed_frame<M: SessionModel>(
    model: M,
    item: ItemView,
    pieces: Seq<ContentView>,
    limit: i64,
)
    requires
        item.body is Message,
    ensures
        forall|k: int|
            0 <= k < packed(model, item, pieces, limit).0.len() ==> framed(
                #[trigger] packed(model, item, pieces, limit).0[k],
                item,
            ),
    decreases pieces.len(),
{
    if pieces.len() > 0 {
        lemma_packed_frame(model, item, pieces.drop_last(), limit);
        let (items, open) = packed(model, item, pieces.drop_last(), limit);
        let after = packed(model, item, pieces, limit).0;
        assert forall|k: int| 0 <= k < after.len() implies framed(#[trigger] after[k], item) by {
            if k < items.len() {
                assert(after[k] == items[k]);
            }
        }
    }
}

// -- images -----------------------------------------------------------------------------------

/// The images among the parts.
pub open spec fn images(parts: Seq<ContentView>) -> Seq<ContentView> {
    parts.filter(|part: ContentView| part is InputImage)
}

proof fn lemma_images_concat(a: Seq<ContentView>, b: Seq<ContentView>)
    ensures
        images(a + b) == images(a) + images(b),
    decreases b.len(),
{
    reveal(Seq::filter);
    if b.len() == 0 {
        assert(a + b =~= a);
        assert(images(a) + images(b) =~= images(a));
    } else {
        assert((a + b).drop_last() =~= a + b.drop_last());
        lemma_images_concat(a, b.drop_last());
        assert(images(a + b) =~= images(a) + images(b));
    }
}

proof fn lemma_no_images(parts: Seq<ContentView>)
    requires
        forall|k: int| 0 <= k < parts.len() ==> !(#[trigger] parts[k] is InputImage),
    ensures
        images(parts).len() == 0,
    decreases parts.len(),
{
    reveal(Seq::filter);
    if parts.len() > 0 {
        let rest = parts.drop_last();
        assert forall|k: int| 0 <= k < rest.len() implies !(#[trigger] rest[k] is InputImage) by {
            assert(rest[k] == parts[k]);
        }
        lemma_no_images(rest);
        assert(!(parts[parts.len() - 1] is InputImage));
    }
}

proof fn lemma_part_images<M: SessionModel>(
    model: M,
    item: ItemView,
    part: ContentView,
    limit: i64,
)
    ensures
        images(part_pieces(model, item, part, limit)) == images(seq![part]),
{
    reveal(Seq::filter);
    let none = Seq::<ContentView>::empty();
    assert(seq![part].drop_last() =~= none);
    match part {
        ContentView::InputImage { .. } => {},
        _ => {
            let pieces = part_pieces(model, item, part, limit);
            assert forall|k: int| 0 <= k < pieces.len() implies !(
            #[trigger] pieces[k] is InputImage) by {}
            lemma_no_images(pieces);
            assert forall|k: int| 0 <= k < seq![part].len() implies !(
            #[trigger] seq![part][k] is InputImage) by {}
            lemma_no_images(seq![part]);
            assert(images(seq![part]) =~= none);
            assert(images(pieces) =~= none);
        },
    }
}

proof fn lemma_pieces_images<M: SessionModel>(
    model: M,
    item: ItemView,
    content: Seq<ContentView>,
    limit: i64,
)
    ensures
        images(content_pieces(model, item, content, limit)) == images(content),
    decreases content.len(),
{
    reveal(Seq::filter);
    if content.len() > 0 {
        let rest = content.drop_last();
        let last = part_pieces(model, item, content.last(), limit);
        lemma_pieces_images(model, item, rest, limit);
        lemma_part_images(model, item, content.last(), limit);
        lemma_images_concat(content_pieces(model, item, rest, limit), last);
        lemma_images_concat(rest, seq![content.last()]);
        assert(rest + seq![content.last()] =~= content);
    }
}

/// A split loses no image: the messages that come out hold all of them, in order.
pub proof fn law_split_keeps_images<M: SessionModel>(model: M, item: ItemView, limit: i64)
    requires
        item.body is Message,
    ensures
        images(messages_parts(projected_message(model, item, limit))) == images(
            item.body->Message_content,
        ),
{
    let content = item.body->Message_content;
    let result = projected_message(model, item, limit);
    if model.spec_item_tokens(item) <= limit {
        assert(result.drop_last() =~= Seq::<ItemView>::empty());
        assert(messages_parts(result.drop_last()) =~= Seq::<ContentView>::empty());
        assert(messages_parts(result) =~= content);
    } else {
        let pieces = content_pieces(model, item, content, limit);
        let (items, open) = packed(model, item, pieces, limit);
        lemma_packed_parts(model, item, pieces, limit);
        lemma_pieces_images(model, item, content, limit);
        let closed = items.push(with_content(item, open));
        assert(closed.drop_last() =~= items);
        assert(messages_parts(result) =~= pieces);
    }
}

// -- how long the pieces are ------------------------------------------------------------------

/// A text that fits into a message of its own is one piece.
pub proof fn law_text_that_fits_is_one_piece<M: SessionModel>(
    model: M,
    item: ItemView,
    input: bool,
    text: Seq<char>,
    limit: i64,
)
    ensures
        text.len() == 0 || part_tokens(model, item, input, text) <= limit ==> text_pieces(
            model,
            item,
            input,
            text,
            limit,
        ) == seq![text],
{
}

/// The piece up to `to` does not fit into a message of its own.
pub open spec fn piece_too_large<M: SessionModel>(
    model: M,
    item: ItemView,
    input: bool,
    text: Seq<char>,
    start: int,
    to: int,
    limit: i64,
) -> bool {
    part_tokens(model, item, input, slice(text, start, to)) > limit
}

proof fn lemma_cut_back_is_long<M: SessionModel>(
    model: M,
    item: ItemView,
    input: bool,
    text: Seq<char>,
    start: int,
    end: int,
    limit: i64,
)
    requires
        0 <= start < end <= encode_utf8(text).len(),
        encode_utf8(text).len() * 9 <= usize::MAX,
    ensures
        ({
            let to = cut_back(model, item, input, text, start, end, limit);
            ||| to == end
            ||| to == next_boundary(text, start)
            ||| exists|more: int|
                {
                    &&& to < more <= end
                    &&& #[trigger] piece_too_large(model, item, input, text, start, more, limit)
                    &&& floor_boundary(text, start + (more - start) * 9 / 10) <= to
                }
        }),
    decreases end - start,
{
    if part_tokens(model, item, input, slice(text, start, end)) > limit {
        let shorter = shorter_length(end - start);
        let next = floor_boundary(text, start + shorter);
        lemma_floor_boundary(text, start + shorter);
        if start < next < end {
            lemma_cut_back_is_long(model, item, input, text, start, next, limit);
            let to = cut_back(model, item, input, text, start, end, limit);
            if to == next {
                assert(piece_too_large(model, item, input, text, start, end, limit));
                assert(shorter == (end - start) * 9 / 10);
            }
        }
    }
}

/// A piece is as long as it can be. It reaches to the last position between characters for four
/// bytes a token where that fits; else it is cut back, by steps of a tenth, no further than it
/// must, and one character is the least.
pub proof fn law_pieces_are_as_long_as_they_can_be<M: SessionModel>(
    model: M,
    item: ItemView,
    input: bool,
    text: Seq<char>,
    start: int,
    limit: i64,
)
    requires
        0 <= start < encode_utf8(text).len(),
        encode_utf8(text).len() * 9 <= usize::MAX,
        1 <= limit,
        start + limit * 4 <= usize::MAX,
        floor_boundary(text, start + limit * 4) > start,
    ensures
        ({
            let far = floor_boundary(text, start + limit * 4);
            let to = chunk_end(model, item, input, text, start, limit);
            &&& !piece_too_large(model, item, input, text, start, far, limit) ==> to == far
            &&& to == far || to == next_boundary(text, start) || exists|more: int|
                {
                    &&& to < more <= far
                    &&& #[trigger] piece_too_large(model, item, input, text, start, more, limit)
                    &&& floor_boundary(text, start + (more - start) * 9 / 10) <= to
                }
        }),
{
    assert(chunk_bytes(limit) == limit * 4);
    let far = floor_boundary(text, start + limit * 4);
    lemma_floor_boundary(text, start + limit * 4);
    lemma_cut_back_is_long(model, item, input, text, start, far, limit);
}

/// The next part goes into the message at hand wherever that still fits.
pub proof fn law_messages_are_filled<M: SessionModel>(
    model: M,
    item: ItemView,
    pieces: Seq<ContentView>,
    next: ContentView,
    limit: i64,
)
    ensures
        ({
            let (items, open) = packed(model, item, pieces, limit);
            let (after, last) = packed(model, item, pieces.push(next), limit);
            if open.len() == 0 || model.spec_item_tokens(with_content(item, open.push(next)))
                <= limit {
                after == items && last == open.push(next)
            } else {
                after == items.push(with_content(item, open)) && last == seq![next]
            }
        }),
{
    assert(pieces.push(next).drop_last() =~= pieces);
}

} // verus!
