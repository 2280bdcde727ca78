//! What holds of every transcript.

use crate::item::{BodyView, ItemView};
use crate::session_model::SessionModel;
use crate::transcript::{
    close_call, item_limit, open_call, tell_item, tell_items, tell_orphans, transcript_of,
    waiting_at, CallView, ToldView,
};
use vstd::prelude::*;
use vstd::string::*;

verus! {

pub proof fn lemma_waiting_at(pending: Seq<(Seq<char>, CallView)>, id: Seq<char>)
    ensures
        match waiting_at(pending, id) {
            Some(at) => 0 <= at < pending.len() && pending[at].0 == id,
            None => forall|k: int| 0 <= k < pending.len() ==> (#[trigger] pending[k]).0 != id,
        },
    decreases pending.len(),
{
    if pending.len() > 0 && pending.last().0 != id {
        let front = pending.drop_last();
        lemma_waiting_at(front, id);
        if waiting_at(front, id) is None {
            assert forall|k: int| 0 <= k < pending.len() implies (#[trigger] pending[k]).0
                != id by {
                if k < front.len() {
                    assert(front[k] == pending[k]);
                }
            }
        } else {
            let at = waiting_at(front, id)->Some_0;
            assert(front[at] == pending[at]);
        }
    }
}

/// No two calls that wait have the same id, and each is in the order of calls.
pub open spec fn accounted(pending: Seq<(Seq<char>, CallView)>, order: Seq<Seq<char>>) -> bool {
    &&& forall|i: int, j: int|
        0 <= i < j < pending.len() ==> (#[trigger] pending[i]).0 != (#[trigger] pending[j]).0
    &&& forall|k: int| 0 <= k < pending.len() ==> order.contains((#[trigger] pending[k]).0)
}

pub proof fn lemma_close(state: ToldView, id: Seq<char>)
    requires
        accounted(state.pending, state.order),
    ensures
        ({
            let rest = close_call(state, id).1;
            &&& accounted(rest.pending, rest.order)
            &&& rest.order == state.order
            &&& forall|k: int|
                0 <= k < rest.pending.len() ==> (#[trigger] rest.pending[k]).0 != id
            &&& forall|k: int|
                0 <= k < rest.pending.len() ==> state.pending.contains(#[trigger] rest.pending[k])
        }),
{
    lemma_waiting_at(state.pending, id);
    let rest = close_call(state, id).1;
    match waiting_at(state.pending, id) {
        Some(at) => {
            assert forall|k: int| 0 <= k < rest.pending.len() implies (#[trigger] rest.pending[k]).0
                != id && state.pending.contains(rest.pending[k]) && state.order.contains(
                rest.pending[k].0,
            ) by {
                let was = if k < at {
                    k
                } else {
                    k + 1
                };
                assert(rest.pending[k] == state.pending[was]);
                if was < at {
                    assert(state.pending[was].0 != state.pending[at].0);
                } else {
                    assert(state.pending[at].0 != state.pending[was].0);
                }
            }
            assert forall|i: int, j: int| 0 <= i < j < rest.pending.len() implies (
            #[trigger] rest.pending[i]).0 != (#[trigger] rest.pending[j]).0 by {
                let wi = if i < at {
                    i
                } else {
                    i + 1
                };
                let wj = if j < at {
                    j
                } else {
                    j + 1
                };
                assert(state.pending[wi].0 != state.pending[wj].0);
            }
        },
        None => {
            assert forall|k: int| 0 <= k < rest.pending.len() implies state.pending.contains(
                #[trigger] rest.pending[k],
            ) by {
                assert(state.pending[k] == rest.pending[k]);
            }
        },
    }
}

proof fn lemma_open(state: ToldView, id: Seq<char>, call: CallView)
    requires
        accounted(state.pending, state.order),
    ensures
        accounted(open_call(state, id, call).pending, open_call(state, id, call).order),
{
    lemma_waiting_at(state.pending, id);
    let next = open_call(state, id, call);
    match waiting_at(state.pending, id) {
        Some(at) => {
            assert forall|i: int, j: int| 0 <= i < j < next.pending.len() implies (
            #[trigger] next.pending[i]).0 != (#[trigger] next.pending[j]).0 by {
                assert(state.pending[i].0 != state.pending[j].0);
            }
            assert forall|k: int| 0 <= k < next.pending.len() implies next.order.contains(
                (#[trigger] next.pending[k]).0,
            ) by {
                assert(state.order.contains(state.pending[k].0));
            }
        },
        None => {
            assert forall|i: int, j: int| 0 <= i < j < next.pending.len() implies (
            #[trigger] next.pending[i]).0 != (#[trigger] next.pending[j]).0 by {
                if j < state.pending.len() {
                    assert(state.pending[i].0 != state.pending[j].0);
                } else {
                    assert(state.pending[i].0 != id);
                }
            }
            assert forall|k: int| 0 <= k < next.pending.len() implies next.order.contains(
                (#[trigger] next.pending[k]).0,
            ) by {
                if k < state.pending.len() {
                    assert(state.order.contains(state.pending[k].0));
                    let m = choose|m: int|
                        0 <= m < state.order.len() && state.order[m] == state.pending[k].0;
                    assert(next.order[m] == next.pending[k].0);
                } else {
                    assert(next.order[state.order.len() as int] == id);
                }
            }
        },
    }
}

pub proof fn lemma_tell_item<M: SessionModel>(model: M, state: ToldView, item: ItemView, limit: i64)
    requires
        accounted(state.pending, state.order),
    ensures
        match tell_item(model, state, item, limit) {
            Ok(next) => accounted(next.pending, next.order),
            Err(_) => true,
        },
{
    match item.body {
        BodyView::FunctionCall { name, namespace, arguments, call_id } => {
            lemma_open(
                state,
                call_id,
                CallView {
                    label: crate::transcript::function_label(name, namespace),
                    details: seq!["arguments: "@ + arguments],
                },
            );
        },
        BodyView::CustomToolCall { status, call_id, name, input } => {
            lemma_open(
                state,
                call_id,
                CallView {
                    label: name,
                    details: crate::transcript::with_status(seq!["input: "@ + input], status),
                },
            );
        },
        BodyView::ToolSearchCall { call_id: Some(id), status, execution, arguments } => {
            lemma_open(
                state,
                id,
                CallView {
                    label: "tool_search"@,
                    details: crate::transcript::with_status(
                        seq!["execution: "@ + execution, "arguments: "@ + arguments],
                        status,
                    ),
                },
            );
        },
        BodyView::FunctionCallOutput { call_id, output } => {
            lemma_close(state, call_id);
        },
        BodyView::CustomToolCallOutput { call_id, name, output } => {
            lemma_close(state, call_id);
        },
        BodyView::ToolSearchOutput { call_id: Some(id), status, execution, tools } => {
            lemma_close(state, id);
        },
        _ => {},
    }
}

pub proof fn lemma_tell_items<M: SessionModel>(model: M, items: Seq<ItemView>, limit: i64)
    ensures
        match tell_items(model, items, limit) {
            Ok(state) => accounted(state.pending, state.order),
            Err(_) => true,
        },
    decreases items.len(),
{
    if items.len() > 0 {
        lemma_tell_items(model, items.drop_last(), limit);
        if let Ok(state) = tell_items(model, items.drop_last(), limit) {
            lemma_tell_item(model, state, items.last(), limit);
        }
    }
}

proof fn lemma_tell_orphans<M: SessionModel>(
    model: M,
    state: ToldView,
    order: Seq<Seq<char>>,
    limit: i64,
)
    requires
        accounted(state.pending, state.order),
    ensures
        match tell_orphans(model, state, order, limit) {
            Ok(done) => {
                &&& accounted(done.pending, done.order)
                &&& done.order == state.order
                &&& forall|k: int|
                    0 <= k < done.pending.len() ==> !order.contains((#[trigger] done.pending[k]).0)
            },
            Err(_) => true,
        },
    decreases order.len(),
{
    if order.len() > 0 {
        let front = order.drop_last();
        lemma_tell_orphans(model, state, front, limit);
        if let Ok(so_far) = tell_orphans(model, state, front, limit) {
            lemma_close(so_far, order.last());
            lemma_waiting_at(so_far.pending, order.last());
            if let Ok(done) = tell_orphans(model, state, order, limit) {
                let rest = close_call(so_far, order.last()).1;
                assert(done.pending == rest.pending);
                assert forall|k: int| 0 <= k < done.pending.len() implies !order.contains(
                    (#[trigger] done.pending[k]).0,
                ) by {
                    assert(so_far.pending.contains(rest.pending[k]));
                    let was = choose|was: int|
                        0 <= was < so_far.pending.len() && so_far.pending[was] == rest.pending[k];
                    assert(!front.contains(so_far.pending[was].0));
                    if order.contains(done.pending[k].0) {
                        let at = choose|at: int|
                            0 <= at < order.len() && order[at] == done.pending[k].0;
                        if at < front.len() {
                            assert(front[at] == order[at]);
                        }
                    }
                }
            }
        }
    }
}

/// No call is lost: a transcript tells every call, with its output or, at the end, without.
pub proof fn law_no_call_is_lost<M: SessionModel>(
    model: M,
    history: Seq<ItemView>,
    max_model_visible_item_tokens: i64,
)
    ensures
        match transcript_of(model, history, max_model_visible_item_tokens) {
            Ok(state) => state.pending.len() == 0,
            Err(_) => true,
        },
{
    let limit = item_limit(max_model_visible_item_tokens);
    lemma_tell_items(model, history, limit);
    if let Ok(state) = tell_items(model, history, limit) {
        lemma_tell_orphans(model, state, state.order, limit);
        if let Ok(done) = tell_orphans(model, state, state.order, limit) {
            if done.pending.len() > 0 {
                assert(!state.order.contains(done.pending[0].0));
                assert(done.order.contains(done.pending[0].0));
            }
        }
    }
}

/// Every tool output is told: it makes one observation, whether its call is known or not.
pub proof fn law_every_output_is_observed<M: SessionModel>(
    model: M,
    state: ToldView,
    item: ItemView,
    limit: i64,
)
    requires
        item.body is FunctionCallOutput || item.body is CustomToolCallOutput
            || item.body is ToolSearchOutput,
    ensures
        match tell_item(model, state, item, limit) {
            Ok(next) => next.observations == state.observations + 1 && next.items.len()
                == state.items.len() + 1,
            Err(_) => true,
        },
{
}

} // verus!
