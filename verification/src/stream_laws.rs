//! What the events of a stream come to as a whole.

use crate::compact::content_text;
use crate::item::{ContentView, ItemView};
use crate::session_model::SessionModel;
use crate::stage_one::{answer_with, AnswerView};
use crate::stream::{
    collect_all, collect_summary_all, collected_output, law_nothing_counts_after_the_end,
    summary_text, whole_text, CompactErrorView, EventView, TokenUsage,
};
use crate::text::{blank, decimal};
use vstd::prelude::*;
use vstd::string::*;

verus! {

/// The stream has not ended yet.
pub open spec fn still_open(events: Seq<EventView>) -> bool {
    forall|k: int| 0 <= k < events.len() ==> !(#[trigger] events[k] is Completed)
}

/// The items that were finished, in order.
pub open spec fn finished(events: Seq<EventView>) -> Seq<ItemView> {
    events.filter(|e: EventView| e is OutputItemDone).map_values(
        |e: EventView| e->OutputItemDone_0,
    )
}

/// The compactions among the items.
pub open spec fn compactions(items: Seq<ItemView>) -> Seq<ItemView> {
    items.filter(|i: ItemView| i.body is Compaction)
}

proof fn lemma_finished_push(events: Seq<EventView>, event: EventView)
    ensures
        finished(events.push(event)) == if event is OutputItemDone {
            finished(events).push(event->OutputItemDone_0)
        } else {
            finished(events)
        },
{
    reveal(Seq::filter);
    assert(events.push(event).drop_last() =~= events);
    assert(finished(events.push(event)) =~= if event is OutputItemDone {
        finished(events).push(event->OutputItemDone_0)
    } else {
        finished(events)
    });
}

proof fn lemma_compactions_push(items: Seq<ItemView>, item: ItemView)
    ensures
        compactions(items.push(item)) == if item.body is Compaction {
            compactions(items).push(item)
        } else {
            compactions(items)
        },
{
    reveal(Seq::filter);
    assert(items.push(item).drop_last() =~= items);
}

proof fn lemma_finished_len(events: Seq<EventView>)
    ensures
        finished(events).len() <= events.len(),
        compactions(finished(events)).len() <= finished(events).len(),
    decreases events.len(),
{
    reveal(Seq::filter);
    if events.len() > 0 {
        let rest = events.drop_last();
        lemma_finished_len(rest);
        lemma_finished_push(rest, events.last());
        assert(rest.push(events.last()) =~= events);
        if events.last() is OutputItemDone {
            lemma_compactions_push(finished(rest), events.last()->OutputItemDone_0);
        }
    } else {
        assert(finished(events) =~= Seq::<ItemView>::empty());
    }
}

proof fn lemma_collect_open(events: Seq<EventView>)
    requires
        still_open(events),
        events.len() <= usize::MAX,
    ensures
        ({
            let state = collect_all(events);
            let found = compactions(finished(events));
            &&& state.completed is None
            &&& state.outputs == finished(events).len()
            &&& state.compactions == found.len()
            &&& state.first == if found.len() > 0 {
                Some(found[0])
            } else {
                None
            }
        }),
    decreases events.len(),
{
    reveal(Seq::filter);
    if events.len() > 0 {
        let rest = events.drop_last();
        assert forall|k: int| 0 <= k < rest.len() implies !(#[trigger] rest[k] is Completed) by {
            assert(rest[k] == events[k]);
        }
        lemma_collect_open(rest);
        lemma_finished_len(rest);
        lemma_finished_push(rest, events.last());
        assert(rest.push(events.last()) =~= events);
        assert(!(events[events.len() - 1] is Completed));
        if events.last() is OutputItemDone {
            lemma_compactions_push(finished(rest), events.last()->OutputItemDone_0);
        }
    } else {
        assert(finished(events) =~= Seq::<ItemView>::empty());
    }
}

/// A stream that ends with exactly one compaction among its finished items gives that item and the
/// usage that came with the end, whatever comes behind it. With none or with several it fails, and
/// says how many there were; without an end it fails too.
pub proof fn law_exactly_one_compaction_is_taken(
    events: Seq<EventView>,
    usage: Option<TokenUsage>,
    more: Seq<EventView>,
)
    requires
        still_open(events),
        events.len() <= usize::MAX,
    ensures
        ({
            let ended = events.push(EventView::Completed { token_usage: usage }) + more;
            let items = finished(events);
            let found = compactions(items);
            &&& collected_output(collect_all(events)) == Err::<
                (ItemView, Option<TokenUsage>),
                CompactErrorView,
            >(
                CompactErrorView::Stream(
                    "remote compaction v2 stream closed before response.completed"@,
                ),
            )
            &&& found.len() == 1 ==> collected_output(collect_all(ended)) == Ok::<
                (ItemView, Option<TokenUsage>),
                CompactErrorView,
            >((found[0], usage))
            &&& found.len() != 1 ==> collected_output(collect_all(ended)) == Err::<
                (ItemView, Option<TokenUsage>),
                CompactErrorView,
            >(
                CompactErrorView::Fatal(
                    "remote compaction v2 expected exactly one compaction output item, got "@
                        + decimal(found.len()) + " from "@ + decimal(items.len())
                        + " output items"@,
                ),
            )
        }),
{
    lemma_collect_open(events);
    let closed = events.push(EventView::Completed { token_usage: usage });
    assert(closed.drop_last() =~= events);
    law_nothing_counts_after_the_end(closed, more);
}

// -- pair summaries ---------------------------------------------------------------------------

/// The pieces of text, one behind the other.
pub open spec fn pieces_of(events: Seq<EventView>) -> Seq<char> {
    events.filter(|e: EventView| e is OutputTextDelta).map_values(
        |e: EventView| e->OutputTextDelta_0,
    ).flatten_alt()
}

/// The texts of a message's parts, one behind the other; images have none.
pub open spec fn part_texts(content: Seq<ContentView>) -> Seq<char> {
    content.map_values(
        |part: ContentView|
            match part {
                ContentView::InputText { text } => text,
                ContentView::OutputText { text } => text,
                ContentView::InputImage { .. } => Seq::empty(),
            },
    ).flatten_alt()
}

/// The texts of the finished messages, one behind the other.
pub open spec fn messages_of(events: Seq<EventView>) -> Seq<char> {
    finished(events).filter(|i: ItemView| i.body is Message).map_values(
        |i: ItemView| part_texts(i.body->Message_content),
    ).flatten_alt()
}

/// The event may come in the answer to a request for a summary: reasoning, and messages of the
/// assistant.
pub open spec fn expected(event: EventView) -> bool {
    match event {
        EventView::OutputItemAdded(item) => item.body is Message || item.body is Reasoning,
        EventView::OutputItemDone(item) => item.body is Reasoning || (item.body is Message
            && item.body->Message_role == "assistant"@),
        EventView::Completed { token_usage } => false,
        _ => true,
    }
}

proof fn lemma_whole_text(content: Seq<ContentView>)
    ensures
        whole_text(content) == part_texts(content),
    decreases content.len(),
{
    let texts = content.map_values(
        |part: ContentView|
            match part {
                ContentView::InputText { text } => text,
                ContentView::OutputText { text } => text,
                ContentView::InputImage { .. } => Seq::empty(),
            },
    );
    if content.len() > 0 {
        let rest = content.drop_last();
        lemma_whole_text(rest);
        assert(texts.drop_last() =~= rest.map_values(
            |part: ContentView|
                match part {
                    ContentView::InputText { text } => text,
                    ContentView::OutputText { text } => text,
                    ContentView::InputImage { .. } => Seq::empty(),
                },
        ));
    }
}

proof fn lemma_pieces_push(events: Seq<EventView>, event: EventView)
    ensures
        pieces_of(events.push(event)) == if event is OutputTextDelta {
            pieces_of(events) + event->OutputTextDelta_0
        } else {
            pieces_of(events)
        },
{
    reveal(Seq::filter);
    let wanted = |e: EventView| e is OutputTextDelta;
    let text = |e: EventView| e->OutputTextDelta_0;
    assert(events.push(event).drop_last() =~= events);
    let before = events.filter(wanted).map_values(text);
    let after = events.push(event).filter(wanted).map_values(text);
    if event is OutputTextDelta {
        assert(after =~= before.push(event->OutputTextDelta_0));
        assert(after.drop_last() =~= before);
    } else {
        assert(after =~= before);
    }
}

proof fn lemma_messages_push(events: Seq<EventView>, event: EventView)
    ensures
        messages_of(events.push(event)) == if event is OutputItemDone
            && event->OutputItemDone_0.body is Message {
            messages_of(events) + part_texts(event->OutputItemDone_0.body->Message_content)
        } else {
            messages_of(events)
        },
{
    reveal(Seq::filter);
    let wanted = |i: ItemView| i.body is Message;
    let text = |i: ItemView| part_texts(i.body->Message_content);
    lemma_finished_push(events, event);
    let items = finished(events);
    let before = items.filter(wanted).map_values(text);
    if event is OutputItemDone {
        let item = event->OutputItemDone_0;
        assert(items.push(item).drop_last() =~= items);
        let after = items.push(item).filter(wanted).map_values(text);
        if item.body is Message {
            assert(after =~= before.push(text(item)));
            assert(after.drop_last() =~= before);
        } else {
            assert(after =~= before);
        }
    }
}

proof fn lemma_summary_open(events: Seq<EventView>)
    requires
        forall|k: int| 0 <= k < events.len() ==> expected(#[trigger] events[k]),
    ensures
        ({
            let state = collect_summary_all(events);
            &&& !state.ended
            &&& state.unexpected is None
            &&& state.pieces == pieces_of(events)
            &&& state.messages == messages_of(events)
        }),
    decreases events.len(),
{
    reveal(Seq::filter);
    if events.len() > 0 {
        let rest = events.drop_last();
        let last = events.last();
        assert forall|k: int| 0 <= k < rest.len() implies expected(#[trigger] rest[k]) by {
            assert(rest[k] == events[k]);
        }
        lemma_summary_open(rest);
        lemma_pieces_push(rest, last);
        lemma_messages_push(rest, last);
        assert(rest.push(last) =~= events);
        assert(expected(events[events.len() - 1]));
        if let EventView::OutputItemDone(item) = last {
            if item.body is Message {
                lemma_whole_text(item.body->Message_content);
            }
        }
    } else {
        assert(pieces_of(events) =~= Seq::<char>::empty());
        assert(finished(events) =~= Seq::<ItemView>::empty());
        assert(messages_of(events) =~= Seq::<char>::empty());
    }
}

/// The answer to a request for a summary is the text that came in pieces, all of it and in order;
/// where none did, that of the finished messages. It must not be blank, and the stream must have
/// ended.
pub proof fn law_summary_is_the_whole_answer<M: SessionModel>(
    model: M,
    events: Seq<EventView>,
    usage: Option<TokenUsage>,
)
    requires
        forall|k: int| 0 <= k < events.len() ==> expected(#[trigger] events[k]),
    ensures
        ({
            let ended = events.push(EventView::Completed { token_usage: usage });
            let text = if pieces_of(events).len() > 0 {
                pieces_of(events)
            } else {
                messages_of(events)
            };
            &&& summary_text(model, collect_summary_all(events)) == Err::<
                Seq<char>,
                CompactErrorView,
            >(
                CompactErrorView::Stream(
                    "rollctx pair-summary stream closed before response.completed"@,
                ),
            )
            &&& blank(text) ==> summary_text(model, collect_summary_all(ended)) == Err::<
                Seq<char>,
                CompactErrorView,
            >(CompactErrorView::Fatal("rollctx pair-summary produced empty assistant text"@))
            &&& !blank(text) ==> summary_text(model, collect_summary_all(ended)) == Ok::<
                Seq<char>,
                CompactErrorView,
            >(text)
        }),
{
    lemma_summary_open(events);
    let ended = events.push(EventView::Completed { token_usage: usage });
    assert(ended.drop_last() =~= events);
}

/// An item that has no place in such an answer, a tool call among them, ends it with an error that
/// shows the item, whatever comes behind it.
pub proof fn law_unexpected_item_ends_the_answer<M: SessionModel>(
    model: M,
    events: Seq<EventView>,
    item: ItemView,
    more: Seq<EventView>,
)
    requires
        forall|k: int| 0 <= k < events.len() ==> expected(#[trigger] events[k]),
        !expected(EventView::OutputItemDone(item)),
    ensures
        summary_text(
            model,
            collect_summary_all(events.push(EventView::OutputItemDone(item)) + more),
        ) == Err::<Seq<char>, CompactErrorView>(
            CompactErrorView::Fatal(
                "rollctx pair-summary received unexpected output item: "@ + model.spec_item_debug(
                    item,
                ),
            ),
        ),
    decreases more.len(),
{
    let closed = events.push(EventView::OutputItemDone(item));
    if more.len() == 0 {
        lemma_summary_open(events);
        assert(closed + more =~= closed);
        assert(closed.drop_last() =~= events);
    } else {
        law_unexpected_item_ends_the_answer(model, events, item, more.drop_last());
        assert((closed + more).drop_last() =~= closed + more.drop_last());
        lemma_unexpected_stays(events, item, more.drop_last());
    }
}

proof fn lemma_unexpected_stays(events: Seq<EventView>, item: ItemView, more: Seq<EventView>)
    requires
        forall|k: int| 0 <= k < events.len() ==> expected(#[trigger] events[k]),
        !expected(EventView::OutputItemDone(item)),
    ensures
        collect_summary_all(events.push(EventView::OutputItemDone(item)) + more).unexpected == Some(
            item,
        ),
    decreases more.len(),
{
    let closed = events.push(EventView::OutputItemDone(item));
    if more.len() == 0 {
        lemma_summary_open(events);
        assert(closed + more =~= closed);
        assert(closed.drop_last() =~= events);
    } else {
        lemma_unexpected_stays(events, item, more.drop_last());
        assert((closed + more).drop_last() =~= closed + more.drop_last());
    }
}

// -- memories ---------------------------------------------------------------------------------

/// What is read of a memory: pieces of text are put behind one another, a finished message counts
/// only while no text is there, and the end of the stream brings the usage; nothing counts behind
/// it.
pub proof fn law_memory_answer_grows(state: AnswerView, event: EventView)
    ensures
        ({
            let after = answer_with(state, event);
            &&& state.ended ==> after == state
            &&& !state.ended ==> match event {
                EventView::OutputTextDelta(delta) => after.text == state.text + delta
                    && !after.ended && after.token_usage == state.token_usage,
                EventView::OutputItemDone(item) => {
                    &&& !after.ended
                    &&& after.token_usage == state.token_usage
                    &&& state.text.len() > 0 || !(item.body is Message) ==> after.text == state.text
                    &&& state.text.len() == 0 && item.body is Message ==> after.text
                        == match content_text(item.body->Message_content) {
                        Some(text) => text,
                        None => state.text,
                    }
                },
                EventView::Completed { token_usage } => after.ended && after.token_usage
                    == token_usage && after.text == state.text,
                _ => after == state,
            }
        }),
{
}

} // verus!
