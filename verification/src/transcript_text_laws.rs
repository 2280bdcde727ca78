//! What the messages of a transcript say.

use crate::item::{
    body_text, BodyView, ContentView, ItemView, LocalShellStatus, MessagePhase, OutputBodyView,
    PayloadView, ShellView, WebSearchView,
};
use crate::session_model::SessionModel;
use crate::text::{blank, decimal, joined, text_bytes};
use crate::tokens::truncated;
use crate::transcript::{
    bounded, bounded_from, close_call, detail_lines, image_observation, message_budget, observation,
    open_call, say, search_observation, shell_observation, shown_content, shown_output, shown_texts,
    smaller_budget, tell_item, tell_items, tell_orphans, told, tool_search_shown, transcript_of,
    waiting_at, CallView, ToldView,
};
use crate::transcript_laws::{accounted, lemma_close, lemma_tell_items, lemma_waiting_at};
use vstd::prelude::*;
use vstd::string::*;

verus! {

// -- one message ------------------------------------------------------------------------------

/// A message with one text: what the assistant says is output, anything else input.
pub open spec fn message_with(
    role: Seq<char>,
    text: Seq<char>,
    phase: Option<MessagePhase>,
) -> ItemView {
    ItemView {
        id: None,
        metadata: None,
        body: BodyView::Message {
            role,
            content: if role == "assistant"@ {
                seq![ContentView::OutputText { text }]
            } else {
                seq![ContentView::InputText { text }]
            },
            phase,
        },
    }
}

/// The item says the text as far as the limit allows: all of it where the text leaves room for 256
/// tokens and the message keeps to the limit, else what some budget of tokens leaves of it, and
/// with a third more it would be over the limit or over the budget that the limit gives.
pub open spec fn says<M: SessionModel>(
    model: M,
    item: ItemView,
    role: Seq<char>,
    text: Seq<char>,
    phase: Option<MessagePhase>,
    limit: i64,
) -> bool {
    &&& model.spec_item_tokens(item) <= limit
    &&& 4 * (limit - 256) >= text_bytes(text) && model.spec_item_tokens(
        message_with(role, text, phase),
    ) <= limit ==> item == message_with(role, text, phase)
    &&& exists|tokens: nat|
        #![trigger truncated(text, tokens)]
        {
            &&& item == message_with(role, truncated(text, tokens), phase)
            &&& tokens <= 1 || tokens <= limit - 256
            &&& tokens >= limit - 256 || exists|more: nat|
                tokens < more && 3 * more < 4 * tokens + 4 && model.spec_item_tokens(
                    message_with(role, #[trigger] truncated(text, more), phase),
                ) > limit
        }
}

proof fn lemma_told(role: Seq<char>, text: Seq<char>, phase: Option<MessagePhase>)
    ensures
        told(role, text, phase) == message_with(role, text, phase),
{
    assert(told(role, text, phase).body->Message_content =~= message_with(
        role,
        text,
        phase,
    ).body->Message_content);
}

proof fn lemma_bounded_from<M: SessionModel>(
    model: M,
    role: Seq<char>,
    text: Seq<char>,
    phase: Option<MessagePhase>,
    limit: i64,
    budget: nat,
)
    requires
        budget * 3 <= usize::MAX,
    ensures
        match bounded_from(model, role, text, phase, limit, budget) {
            Ok(item) => model.spec_item_tokens(item) <= limit && exists|tokens: nat|
                #![trigger truncated(text, tokens)]
                {
                    &&& item == message_with(role, truncated(text, tokens), phase)
                    &&& tokens <= budget
                    &&& tokens == budget || exists|more: nat|
                        tokens < more && 3 * more < 4 * tokens + 4 && model.spec_item_tokens(
                            message_with(role, #[trigger] truncated(text, more), phase),
                        ) > limit
                },
            Err(_) => true,
        },
    decreases budget,
{
    lemma_told(role, truncated(text, budget), phase);
    let item = told(role, truncated(text, budget), phase);
    if model.spec_item_tokens(item) > limit && budget > 1 {
        let next = smaller_budget(budget);
        lemma_bounded_from(model, role, text, phase, limit, next);
        if let Ok(found) = bounded_from(model, role, text, phase, limit, budget) {
            let tokens = choose|tokens: nat|
                #![trigger truncated(text, tokens)]
                {
                    &&& found == message_with(role, truncated(text, tokens), phase)
                    &&& tokens <= next
                    &&& tokens == next || exists|more: nat|
                        tokens < more && 3 * more < 4 * tokens + 4 && model.spec_item_tokens(
                            message_with(role, #[trigger] truncated(text, more), phase),
                        ) > limit
                };
            assert(found == message_with(role, truncated(text, tokens), phase));
            if tokens == next {
                assert(tokens < budget && 3 * budget < 4 * tokens + 4);
                assert(model.spec_item_tokens(
                    message_with(role, truncated(text, budget), phase),
                ) > limit);
            }
        }
    }
}

/// A limit that a machine word can hold three times.
pub open spec fn ordinary(limit: i64) -> bool {
    1 <= limit && limit * 4 <= usize::MAX
}

/// Every message of a transcript says its text, as far as the limit allows.
pub proof fn law_message_says_its_text<M: SessionModel>(
    model: M,
    role: Seq<char>,
    text: Seq<char>,
    phase: Option<MessagePhase>,
    limit: i64,
)
    requires
        ordinary(limit),
    ensures
        bounded(model, role, text, phase, limit) matches Ok(item) ==> says(
            model,
            item,
            role,
            text,
            phase,
            limit,
        ),
        4 * (limit - 256) >= text_bytes(text) && limit > 256 && model.spec_item_tokens(
            message_with(role, text, phase),
        ) <= limit ==> bounded(model, role, text, phase, limit) is Ok,
{
    let budget = message_budget(limit);
    lemma_bounded_from(model, role, text, phase, limit, budget);
    lemma_told(role, text, phase);
    if 4 * (limit - 256) >= text_bytes(text) && limit > 256 {
        assert(budget == limit - 256);
        assert(truncated(text, budget) == text);
    }
    if 4 * (limit - 256) >= text_bytes(text) && limit <= 256 {
        assert(text_bytes(text) == 0);
        assert(truncated(text, budget) == text);
    }
    if let Ok(item) = bounded(model, role, text, phase, limit) {
        let tokens = choose|tokens: nat|
            #![trigger truncated(text, tokens)]
            {
                &&& item == message_with(role, truncated(text, tokens), phase)
                &&& tokens <= budget
                &&& tokens == budget || exists|more: nat|
                    tokens < more && 3 * more < 4 * tokens + 4 && model.spec_item_tokens(
                        message_with(role, #[trigger] truncated(text, more), phase),
                    ) > limit
            };
        assert(item == message_with(role, truncated(text, tokens), phase));
    }
}

// -- what an observation says -----------------------------------------------------------------

/// An observation names the tool and lists the details of the call, each on its own line. It says
/// whether the call succeeded exactly where that is known, and shows an output that is not blank.
pub proof fn law_observation_says_what_is_known(
    label: Seq<char>,
    details: Seq<Seq<char>>,
    detail: Seq<char>,
    output: Option<Seq<char>>,
)
    ensures
        ({
            let bare = CallView { label, details: Seq::empty() };
            let call = CallView { label, details };
            let longer = CallView { label, details: details.push(detail) };
            let head = observation(call, None, None);
            let tail = match output {
                Some(text) => if blank(text) {
                    Seq::empty()
                } else {
                    "\noutput:\n"@ + text
                },
                None => Seq::empty(),
            };
            &&& observation(bare, None, None) == "Tool observation\nname: "@ + label
            &&& observation(longer, None, None) == head + "\n"@ + detail
            &&& observation(call, None, output) == head + tail
            &&& observation(call, Some(true), output) == head + "\nsuccess: true"@ + tail
            &&& observation(call, Some(false), output) == head + "\nsuccess: false"@ + tail
        }),
{
    let none = Seq::<char>::empty();
    let bare = CallView { label, details: Seq::empty() };
    let call = CallView { label, details };
    let longer = CallView { label, details: details.push(detail) };
    let head = "Tool observation\nname: "@ + label + detail_lines(details);
    let tail = match output {
        Some(text) => if blank(text) {
            Seq::empty()
        } else {
            "\noutput:\n"@ + text
        },
        None => Seq::empty(),
    };
    assert(detail_lines(Seq::<Seq<char>>::empty()) =~= none);
    assert(details.push(detail).drop_last() =~= details);
    reveal_strlit("\nsuccess: ");
    reveal_strlit("true");
    reveal_strlit("false");
    reveal_strlit("\nsuccess: true");
    reveal_strlit("\nsuccess: false");
    assert("\nsuccess: "@ + "true"@ =~= "\nsuccess: true"@);
    assert("\nsuccess: "@ + "false"@ =~= "\nsuccess: false"@);
    assert(observation(call, None, None) =~= head);
    assert(observation(bare, None, None) =~= "Tool observation\nname: "@ + label);
    assert(observation(longer, None, None) =~= head + "\n"@ + detail);
    assert(observation(call, None, output) =~= head + tail);
    assert(observation(call, Some(true), output) =~= head + ("\nsuccess: "@ + "true"@) + tail);
    assert(observation(call, Some(false), output) =~= head + ("\nsuccess: "@ + "false"@) + tail);
}

/// The line that says whether a call succeeded, where that is known.
pub open spec fn success_line(success: Option<bool>) -> Seq<char> {
    match success {
        Some(true) => "\nsuccess: true"@,
        Some(false) => "\nsuccess: false"@,
        None => Seq::empty(),
    }
}

/// What came back, where it shows anything.
pub open spec fn output_lines(output: PayloadView) -> Seq<char> {
    let text = match output.body {
        OutputBodyView::Text(text) => Some(text),
        OutputBodyView::ContentItems { encoded, text } => text,
    };
    match text {
        Some(text) => if blank(text) {
            Seq::empty()
        } else {
            "\noutput:\n"@ + text
        },
        None => Seq::empty(),
    }
}

proof fn lemma_observation(call: CallView, success: Option<bool>, output: PayloadView)
    ensures
        observation(call, success, shown_output(output)) == observation(call, None, None)
            + success_line(success) + output_lines(output),
        observation(call, None, None) == "Tool observation\nname: "@ + call.label + detail_lines(
            call.details,
        ),
{
    law_observation_says_what_is_known(call.label, call.details, Seq::empty(), shown_output(output));
    let head = observation(call, None, None);
    assert(call == CallView { label: call.label, details: call.details });
    assert(head + Seq::<char>::empty() =~= head);
    assert(body_text(output.body) == match output.body {
        OutputBodyView::Text(text) => Some(text),
        OutputBodyView::ContentItems { encoded, text } => text,
    });
    assert(head =~= "Tool observation\nname: "@ + call.label + detail_lines(call.details));
}

// -- calls and their outputs ------------------------------------------------------------------

/// The call with this id waits for its output.
pub open spec fn waits(state: ToldView, id: Seq<char>, call: CallView) -> bool {
    state.pending.contains((id, call))
}

/// The id that a tool call or its output has.
pub open spec fn tool_id(item: ItemView) -> Option<Seq<char>> {
    match item.body {
        BodyView::FunctionCall { name, namespace, arguments, call_id } => Some(call_id),
        BodyView::FunctionCallOutput { call_id, output } => Some(call_id),
        BodyView::CustomToolCall { status, call_id, name, input } => Some(call_id),
        BodyView::CustomToolCallOutput { call_id, name, output } => Some(call_id),
        BodyView::ToolSearchCall { call_id, status, execution, arguments } => call_id,
        BodyView::ToolSearchOutput { call_id, status, execution, tools } => call_id,
        _ => None,
    }
}

proof fn lemma_open_waits(state: ToldView, id: Seq<char>, call: CallView)
    ensures
        waits(open_call(state, id, call), id, call),
{
    lemma_waiting_at(state.pending, id);
    let next = open_call(state, id, call).pending;
    match waiting_at(state.pending, id) {
        Some(at) => {
            assert(next[at] == (id, call));
        },
        None => {
            assert(next[next.len() - 1] == (id, call));
        },
    }
}

proof fn lemma_open_other(
    state: ToldView,
    id: Seq<char>,
    call: CallView,
    other: Seq<char>,
    opened: CallView,
)
    requires
        waits(state, id, call),
        id != other,
    ensures
        waits(open_call(state, other, opened), id, call),
{
    lemma_waiting_at(state.pending, other);
    let k = choose|k: int| 0 <= k < state.pending.len() && state.pending[k] == (id, call);
    assert(open_call(state, other, opened).pending[k] == (id, call));
}

proof fn lemma_close_other(state: ToldView, id: Seq<char>, call: CallView, other: Seq<char>)
    requires
        waits(state, id, call),
        id != other,
    ensures
        waits(close_call(state, other).1, id, call),
{
    lemma_waiting_at(state.pending, other);
    let k = choose|k: int| 0 <= k < state.pending.len() && state.pending[k] == (id, call);
    if let Some(at) = waiting_at(state.pending, other) {
        let rest = state.pending.remove(at);
        if k < at {
            assert(rest[k] == (id, call));
        } else {
            assert(rest[k - 1] == (id, call));
        }
    }
}

proof fn lemma_close_waiting(state: ToldView, id: Seq<char>, call: CallView)
    requires
        waits(state, id, call),
        accounted(state.pending, state.order),
    ensures
        close_call(state, id).0 == Some(call),
{
    lemma_waiting_at(state.pending, id);
    let k = choose|k: int| 0 <= k < state.pending.len() && state.pending[k] == (id, call);
    let at = waiting_at(state.pending, id)->Some_0;
    if at < k {
        assert(state.pending[at].0 != state.pending[k].0);
    } else if k < at {
        assert(state.pending[k].0 != state.pending[at].0);
    }
}

/// A call that waits goes on waiting until an item with its id comes.
pub proof fn law_call_waits_for_its_output<M: SessionModel>(
    model: M,
    state: ToldView,
    item: ItemView,
    limit: i64,
    id: Seq<char>,
    call: CallView,
)
    requires
        waits(state, id, call),
        tool_id(item) != Some(id),
    ensures
        tell_item(model, state, item, limit) matches Ok(after) ==> waits(after, id, call),
{
    match item.body {
        BodyView::FunctionCall { name, namespace, arguments, call_id } => {
            lemma_open_other(
                state,
                id,
                call,
                call_id,
                CallView {
                    label: crate::transcript::function_label(name, namespace),
                    details: seq!["arguments: "@ + arguments],
                },
            );
        },
        BodyView::CustomToolCall { status, call_id, name, input } => {
            lemma_open_other(
                state,
                id,
                call,
                call_id,
                CallView {
                    label: name,
                    details: crate::transcript::with_status(seq!["input: "@ + input], status),
                },
            );
        },
        BodyView::ToolSearchCall { call_id: Some(other), status, execution, arguments } => {
            lemma_open_other(
                state,
                id,
                call,
                other,
                CallView {
                    label: "tool_search"@,
                    details: crate::transcript::with_status(
                        seq!["execution: "@ + execution, "arguments: "@ + arguments],
                        status,
                    ),
                },
            );
        },
        BodyView::FunctionCallOutput { call_id, output } => {
            lemma_close_other(state, id, call, call_id);
        },
        BodyView::CustomToolCallOutput { call_id, name, output } => {
            lemma_close_other(state, id, call, call_id);
        },
        BodyView::ToolSearchOutput { call_id: Some(other), status, execution, tools } => {
            lemma_close_other(state, id, call, other);
        },
        _ => {},
    }
}

proof fn lemma_waits_through<M: SessionModel>(
    model: M,
    before: Seq<ItemView>,
    between: Seq<ItemView>,
    limit: i64,
    id: Seq<char>,
    call: CallView,
)
    requires
        tell_items(model, before, limit) matches Ok(state) ==> waits(state, id, call),
        forall|k: int| 0 <= k < between.len() ==> tool_id(#[trigger] between[k]) != Some(id),
    ensures
        tell_items(model, before + between, limit) matches Ok(state) ==> waits(state, id, call),
    decreases between.len(),
{
    if between.len() == 0 {
        assert(before + between =~= before);
    } else {
        let rest = between.drop_last();
        assert forall|k: int| 0 <= k < rest.len() implies tool_id(#[trigger] rest[k]) != Some(
            id,
        ) by {
            assert(rest[k] == between[k]);
        }
        lemma_waits_through(model, before, rest, limit, id, call);
        assert((before + between).drop_last() =~= before + rest);
        assert(tool_id(between[between.len() - 1]) != Some(id));
        if let Ok(state) = tell_items(model, before + rest, limit) {
            law_call_waits_for_its_output(model, state, between.last(), limit, id, call);
        }
    }
}

/// The head of an observation of a function call: the name, behind its namespace, and the
/// arguments.
pub open spec fn function_head(
    name: Seq<char>,
    namespace: Option<Seq<char>>,
    arguments: Seq<char>,
) -> Seq<char> {
    "Tool observation\nname: "@ + match namespace {
        Some(space) => space + "."@ + name,
        None => name,
    } + "\narguments: "@ + arguments
}

/// The head of an observation of a custom call: the name, the input and the status.
pub open spec fn custom_head(
    name: Seq<char>,
    input: Seq<char>,
    status: Option<Seq<char>>,
) -> Seq<char> {
    "Tool observation\nname: "@ + name + "\ninput: "@ + input + match status {
        Some(status) => "\nstatus: "@ + status,
        None => Seq::empty(),
    }
}

/// The head of an observation of a tool search.
pub open spec fn search_head(
    execution: Seq<char>,
    arguments: Seq<char>,
    status: Option<Seq<char>>,
) -> Seq<char> {
    "Tool observation\nname: tool_search\nexecution: "@ + execution + "\narguments: "@ + arguments
        + match status {
        Some(status) => "\nstatus: "@ + status,
        None => Seq::empty(),
    }
}

/// The head of the observation that a call leads to.
pub open spec fn call_head(item: ItemView) -> Option<Seq<char>> {
    match item.body {
        BodyView::FunctionCall { name, namespace, arguments, call_id } => Some(
            function_head(name, namespace, arguments),
        ),
        BodyView::CustomToolCall { status, call_id, name, input } => Some(
            custom_head(name, input, status),
        ),
        BodyView::ToolSearchCall { call_id, status, execution, arguments } => Some(
            search_head(execution, arguments, status),
        ),
        _ => None,
    }
}

proof fn lemma_details(a: Seq<char>, b: Seq<char>, c: Seq<char>)
    ensures
        detail_lines(seq![a]) == "\n"@ + a,
        detail_lines(seq![a, b]) == "\n"@ + a + "\n"@ + b,
        detail_lines(seq![a, b, c]) == "\n"@ + a + "\n"@ + b + "\n"@ + c,
{
    let none = Seq::<Seq<char>>::empty();
    assert(seq![a].drop_last() =~= none);
    assert(seq![a, b].drop_last() =~= seq![a]);
    assert(seq![a, b, c].drop_last() =~= seq![a, b]);
    assert(detail_lines(none) =~= Seq::<char>::empty());
    assert(seq![a].last() == a);
    assert(seq![a, b].last() == b);
    assert(seq![a, b, c].last() == c);
    assert(detail_lines(seq![a]) =~= "\n"@ + a);
    assert(detail_lines(seq![a, b]) == detail_lines(seq![a]) + "\n"@ + b);
    assert(detail_lines(seq![a, b, c]) == detail_lines(seq![a, b]) + "\n"@ + c);
}

proof fn lemma_labels()
    ensures
        "\n"@ + "arguments: "@ == "\narguments: "@,
        "\n"@ + "input: "@ == "\ninput: "@,
        "\n"@ + "status: "@ == "\nstatus: "@,
        "Tool observation\nname: "@ + "tool_search"@ + ("\n"@ + "execution: "@)
            == "Tool observation\nname: tool_search\nexecution: "@,
{
    reveal_strlit("\n");
    reveal_strlit("arguments: ");
    reveal_strlit("\narguments: ");
    reveal_strlit("input: ");
    reveal_strlit("\ninput: ");
    reveal_strlit("status: ");
    reveal_strlit("\nstatus: ");
    reveal_strlit("Tool observation\nname: ");
    reveal_strlit("tool_search");
    reveal_strlit("execution: ");
    reveal_strlit("Tool observation\nname: tool_search\nexecution: ");
    assert("\n"@ + "arguments: "@ =~= "\narguments: "@);
    assert("\n"@ + "input: "@ =~= "\ninput: "@);
    assert("\n"@ + "status: "@ =~= "\nstatus: "@);
    assert("Tool observation\nname: "@ + "tool_search"@ + ("\n"@ + "execution: "@)
        =~= "Tool observation\nname: tool_search\nexecution: "@);
}

proof fn lemma_bare_observation(call: CallView)
    ensures
        observation(call, None, None) == "Tool observation\nname: "@ + call.label + detail_lines(
            call.details,
        ),
{
    assert(observation(call, None, None) =~= "Tool observation\nname: "@ + call.label + detail_lines(
        call.details,
    ));
}

proof fn lemma_function_head(
    name: Seq<char>,
    namespace: Option<Seq<char>>,
    arguments: Seq<char>,
    call: CallView,
)
    requires
        call.label == crate::transcript::function_label(name, namespace),
        call.details == seq!["arguments: "@ + arguments],
    ensures
        observation(call, None, None) == function_head(name, namespace, arguments),
{
    let none = Seq::<char>::empty();
    lemma_labels();
    lemma_details("arguments: "@ + arguments, none, none);
    lemma_bare_observation(call);
    assert("\n"@ + ("arguments: "@ + arguments) =~= ("\n"@ + "arguments: "@) + arguments);
    let label = "Tool observation\nname: "@ + call.label;
    assert(label + ("\narguments: "@ + arguments) =~= label + "\narguments: "@ + arguments);
}

proof fn lemma_custom_head(
    name: Seq<char>,
    input: Seq<char>,
    status: Option<Seq<char>>,
    call: CallView,
)
    requires
        call.label == name,
        call.details == crate::transcript::with_status(seq!["input: "@ + input], status),
    ensures
        observation(call, None, None) == custom_head(name, input, status),
{
    let none = Seq::<char>::empty();
    let first = "input: "@ + input;
    lemma_labels();
    lemma_bare_observation(call);
    let label = "Tool observation\nname: "@ + name;
    assert("\n"@ + first =~= ("\n"@ + "input: "@) + input);
    match status {
        Some(s) => {
            lemma_details(first, "status: "@ + s, none);
            assert(call.details =~= seq![first, "status: "@ + s]);
            assert("\n"@ + ("status: "@ + s) =~= ("\n"@ + "status: "@) + s);
            assert(label + ("\n"@ + first + "\n"@ + ("status: "@ + s)) =~= label + ("\n"@ + first) + (
            "\n"@ + ("status: "@ + s)));
            assert(label + ("\ninput: "@ + input) =~= label + "\ninput: "@ + input);
        },
        None => {
            lemma_details(first, none, none);
            assert(label + ("\ninput: "@ + input) =~= label + "\ninput: "@ + input + none);
        },
    }
}

proof fn lemma_search_head(
    execution: Seq<char>,
    arguments: Seq<char>,
    status: Option<Seq<char>>,
    call: CallView,
)
    requires
        call.label == "tool_search"@,
        call.details == crate::transcript::with_status(
            seq!["execution: "@ + execution, "arguments: "@ + arguments],
            status,
        ),
    ensures
        observation(call, None, None) == search_head(execution, arguments, status),
{
    let none = Seq::<char>::empty();
    let first = "execution: "@ + execution;
    let second = "arguments: "@ + arguments;
    lemma_labels();
    lemma_bare_observation(call);
    let label = "Tool observation\nname: "@ + "tool_search"@;
    let head = "Tool observation\nname: tool_search\nexecution: "@ + execution + "\narguments: "@
        + arguments;
    assert("\n"@ + second =~= ("\n"@ + "arguments: "@) + arguments);
    assert(label + ("\n"@ + first) =~= label + ("\n"@ + "execution: "@) + execution);
    assert(label + ("\n"@ + first + "\n"@ + second) =~= label + ("\n"@ + first) + ("\n"@ + second));
    assert(label + ("\n"@ + first + "\n"@ + second) =~= head);
    match status {
        Some(s) => {
            let third = "status: "@ + s;
            lemma_details(first, second, third);
            assert(call.details =~= seq![first, second, third]);
            assert("\n"@ + third =~= ("\n"@ + "status: "@) + s);
            assert(label + ("\n"@ + first + "\n"@ + second + "\n"@ + third) =~= label + ("\n"@ + first
                + "\n"@ + second) + ("\n"@ + third));
        },
        None => {
            lemma_details(first, second, none);
            assert(head =~= head + none);
        },
    }
}

/// A call waits, under its id, to be told with what it was called with.
proof fn lemma_call_waits<M: SessionModel>(model: M, state: ToldView, item: ItemView, limit: i64) -> (
    call: CallView)
    requires
        call_head(item) is Some,
        tool_id(item) is Some,
    ensures
        tell_item(model, state, item, limit) matches Ok(after) && waits(
            after,
            tool_id(item)->Some_0,
            call,
        ) && after.items == state.items,
        observation(call, None, None) == call_head(item)->Some_0,
{
    match item.body {
        BodyView::FunctionCall { name, namespace, arguments, call_id } => {
            let call = CallView {
                label: crate::transcript::function_label(name, namespace),
                details: seq!["arguments: "@ + arguments],
            };
            lemma_open_waits(state, call_id, call);
            lemma_function_head(name, namespace, arguments, call);
            call
        },
        BodyView::CustomToolCall { status, call_id, name, input } => {
            let call = CallView {
                label: name,
                details: crate::transcript::with_status(seq!["input: "@ + input], status),
            };
            lemma_open_waits(state, call_id, call);
            lemma_custom_head(name, input, status, call);
            call
        },
        BodyView::ToolSearchCall { call_id, status, execution, arguments } => {
            let call = CallView {
                label: "tool_search"@,
                details: crate::transcript::with_status(
                    seq!["execution: "@ + execution, "arguments: "@ + arguments],
                    status,
                ),
            };
            lemma_open_waits(state, call_id->Some_0, call);
            lemma_search_head(execution, arguments, status, call);
            call
        },
        _ => CallView { label: Seq::empty(), details: Seq::empty() },
    }
}

/// What an output adds to the head of the observation: for a tool search its status, its execution
/// and its tools, else whether the call succeeded and what came back.
pub open spec fn output_tail(item: ItemView) -> Option<Seq<char>> {
    match item.body {
        BodyView::FunctionCallOutput { call_id, output } => Some(
            success_line(output.success) + output_lines(output),
        ),
        BodyView::CustomToolCallOutput { call_id, name, output } => Some(
            success_line(output.success) + output_lines(output),
        ),
        BodyView::ToolSearchOutput { call_id, status, execution, tools } => Some(
            "\noutput:\nstatus: "@ + status + "\nexecution: "@ + execution + if tools.len() > 0 {
                "\ntools: "@ + crate::json::json_array(tools)
            } else {
                Seq::empty()
            },
        ),
        _ => None,
    }
}

proof fn lemma_search_text(status: Seq<char>, execution: Seq<char>, tools: Seq<Seq<char>>)
    ensures
        !blank(tool_search_shown(status, execution, tools)),
        "\noutput:\n"@ + tool_search_shown(status, execution, tools) == "\noutput:\nstatus: "@ + status
            + "\nexecution: "@ + execution + if tools.len() > 0 {
            "\ntools: "@ + crate::json::json_array(tools)
        } else {
            Seq::empty()
        },
{
    let shown = tool_search_shown(status, execution, tools);
    reveal_strlit("\noutput:\n");
    reveal_strlit("status: ");
    reveal_strlit("\noutput:\nstatus: ");
    assert("\noutput:\n"@ + "status: "@ =~= "\noutput:\nstatus: "@);
    assert(shown[0] == 's');
    assert(!crate::text::white_space(shown[0]));
    let tail = if tools.len() > 0 {
        "\ntools: "@ + crate::json::json_array(tools)
    } else {
        Seq::empty()
    };
    assert("\noutput:\n"@ + shown =~= ("\noutput:\n"@ + "status: "@) + status + "\nexecution: "@
        + execution + tail);
}

/// An output is told together with the call that waits for it, as one observation of the
/// assistant: what was called and with what, then what the output says.
pub proof fn law_call_and_output_are_one_observation<M: SessionModel>(
    model: M,
    before: Seq<ItemView>,
    call: ItemView,
    between: Seq<ItemView>,
    output: ItemView,
    limit: i64,
)
    requires
        ordinary(limit),
        call_head(call) is Some,
        output_tail(output) is Some,
        tool_id(call) is Some,
        tool_id(output) == tool_id(call),
        forall|k: int| 0 <= k < between.len() ==> tool_id(#[trigger] between[k]) != tool_id(call),
    ensures
        tell_items(model, (before.push(call) + between).push(output), limit) matches Ok(after) ==> {
            &&& tell_items(model, before.push(call) + between, limit) matches Ok(state)
            &&& after.items.len() == state.items.len() + 1
            &&& after.items.drop_last() == state.items
            &&& after.observations == state.observations + 1
            &&& says(
                model,
                after.items.last(),
                "assistant"@,
                call_head(call)->Some_0 + output_tail(output)->Some_0,
                None,
                limit,
            )
        },
{
    let id = tool_id(call)->Some_0;
    let opened = before.push(call);
    let all = (opened + between).push(output);
    assert(all.drop_last() =~= opened + between);
    if tell_items(model, all, limit) is Ok {
        let state = tell_items(model, opened + between, limit)->Ok_0;
        let view = lemma_opened_call(model, before, call, between, limit);
        lemma_tell_items(model, opened + between, limit);
        lemma_output_told(model, state, output, limit, id, view);
    }
}

/// A call still waits behind items that have other ids.
proof fn lemma_opened_call<M: SessionModel>(
    model: M,
    before: Seq<ItemView>,
    call: ItemView,
    between: Seq<ItemView>,
    limit: i64,
) -> (view: CallView)
    requires
        call_head(call) is Some,
        tool_id(call) is Some,
        forall|k: int| 0 <= k < between.len() ==> tool_id(#[trigger] between[k]) != tool_id(call),
    ensures
        tell_items(model, before.push(call) + between, limit) matches Ok(state) ==> waits(
            state,
            tool_id(call)->Some_0,
            view,
        ),
        observation(view, None, None) == call_head(call)->Some_0,
{
    let opened = before.push(call);
    assert(opened.drop_last() =~= before);
    let first = match tell_items(model, before, limit) {
        Ok(state) => state,
        Err(_) => crate::transcript::nothing_told(),
    };
    let view = lemma_call_waits(model, first, call, limit);
    lemma_waits_through(model, opened, between, limit, tool_id(call)->Some_0, view);
    view
}

proof fn lemma_output_told<M: SessionModel>(
    model: M,
    state: ToldView,
    output: ItemView,
    limit: i64,
    id: Seq<char>,
    view: CallView,
)
    requires
        ordinary(limit),
        accounted(state.pending, state.order),
        waits(state, id, view),
        output_tail(output) is Some,
        tool_id(output) == Some(id),
    ensures
        tell_item(model, state, output, limit) matches Ok(after) ==> {
            &&& after.items.len() == state.items.len() + 1
            &&& after.items.drop_last() == state.items
            &&& after.observations == state.observations + 1
            &&& says(
                model,
                after.items.last(),
                "assistant"@,
                observation(view, None, None) + output_tail(output)->Some_0,
                None,
                limit,
            )
        },
{
    lemma_close_waiting(state, id, view);
    let head = observation(view, None, None);
    let text = match output.body {
        BodyView::FunctionCallOutput { call_id, output: payload } => {
            observation(view, payload.success, shown_output(payload))
        },
        BodyView::CustomToolCallOutput { call_id, name, output: payload } => {
            observation(view, payload.success, shown_output(payload))
        },
        BodyView::ToolSearchOutput { call_id, status, execution, tools } => {
            observation(view, None, Some(tool_search_shown(status, execution, tools)))
        },
        _ => Seq::empty(),
    };
    assert(text == head + output_tail(output)->Some_0) by {
        match output.body {
            BodyView::FunctionCallOutput { call_id, output: payload } => {
                lemma_observation(view, payload.success, payload);
                assert(text =~= head + output_tail(output)->Some_0);
            },
            BodyView::CustomToolCallOutput { call_id, name, output: payload } => {
                lemma_observation(view, payload.success, payload);
                assert(text =~= head + output_tail(output)->Some_0);
            },
            BodyView::ToolSearchOutput { call_id, status, execution, tools } => {
                let shown = tool_search_shown(status, execution, tools);
                lemma_search_text(status, execution, tools);
                law_observation_says_what_is_known(
                    view.label,
                    view.details,
                    Seq::empty(),
                    Some(shown),
                );
                assert(view == CallView { label: view.label, details: view.details });
            },
            _ => {},
        }
    }
    law_message_says_its_text(model, "assistant"@, text, None, limit);
    let rest = close_call(state, id).1;
    assert(tell_item(model, state, output, limit) == crate::transcript::observe(
        model,
        rest,
        text,
        limit,
    ));
    if let Ok(after) = tell_item(model, state, output, limit) {
        assert(after.items.drop_last() =~= state.items);
    }
}

/// What was told of the items.
#[verifier::opaque]
spec fn told_of<M: SessionModel>(model: M, items: Seq<ItemView>, limit: i64) -> Result<
    ToldView,
    crate::exact_tail::ErrorView,
> {
    tell_items(model, items, limit)
}

/// One item tells nothing or one message more.
proof fn lemma_told_step<M: SessionModel>(model: M, items: Seq<ItemView>, limit: i64)
    requires
        items.len() > 0,
    ensures
        told_of(model, items, limit) matches Ok(after) ==> {
            &&& told_of(model, items.drop_last(), limit) matches Ok(state)
            &&& after.items == state.items || (after.items.len() == state.items.len() + 1
                && after.items.drop_last() == state.items)
        },
{
    reveal(told_of);
    if let Ok(state) = tell_items(model, items.drop_last(), limit) {
        lemma_item_adds(model, state, items.last(), limit);
    }
}

proof fn lemma_prefix_told<M: SessionModel>(
    model: M,
    a: Seq<ItemView>,
    b: Seq<ItemView>,
    limit: i64,
)
    ensures
        told_of(model, a + b, limit) matches Ok(whole) ==> {
            &&& told_of(model, a, limit) matches Ok(part)
            &&& part.items.len() <= whole.items.len()
            &&& whole.items.subrange(0, part.items.len() as int) == part.items
        },
    decreases b.len(),
{
    if b.len() == 0 {
        assert(a + b =~= a);
        if let Ok(whole) = told_of(model, a, limit) {
            assert(whole.items.subrange(0, whole.items.len() as int) =~= whole.items);
        }
    } else {
        assert((a + b).drop_last() =~= a + b.drop_last());
        lemma_prefix_told(model, a, b.drop_last(), limit);
        lemma_told_step(model, a + b, limit);
        if let Ok(whole) = told_of(model, a + b, limit) {
            let so_far = told_of(model, a + b.drop_last(), limit)->Ok_0;
            let part = told_of(model, a, limit)->Ok_0;
            assert(whole.items.subrange(0, part.items.len() as int) =~= part.items);
        }
    }
}

proof fn lemma_item_adds<M: SessionModel>(model: M, state: ToldView, item: ItemView, limit: i64)
    ensures
        tell_item(model, state, item, limit) matches Ok(after) ==> after.items == state.items || (
        after.items.len() == state.items.len() + 1 && after.items.drop_last() == state.items),
{
    assert forall|t: ToldView, role: Seq<char>, text: Seq<char>, phase: Option<MessagePhase>|
        t.items == state.items implies match #[trigger] say(model, t, role, text, phase, limit) {
        Ok(after) => after.items.len() == state.items.len() + 1 && after.items.drop_last()
            == state.items,
        Err(_) => true,
    } by {
        if let Ok(after) = say(model, t, role, text, phase, limit) {
            assert(after.items.drop_last() =~= state.items);
        }
    }
}

/// A transcript tells a history in its order: what is told of its beginning comes first.
pub proof fn law_transcript_keeps_the_order<M: SessionModel>(
    model: M,
    a: Seq<ItemView>,
    b: Seq<ItemView>,
    limit: i64,
)
    ensures
        tell_items(model, a + b, limit) matches Ok(whole) ==> {
            &&& tell_items(model, a, limit) matches Ok(part)
            &&& part.items.len() <= whole.items.len()
            &&& whole.items.subrange(0, part.items.len() as int) == part.items
        },
{
    lemma_prefix_told(model, a, b, limit);
    reveal(told_of);
}

// -- all that is not a tool call --------------------------------------------------------------

/// The texts of a message that are not blank.
pub open spec fn texts_said(content: Seq<ContentView>) -> Seq<Seq<char>> {
    content.filter(
        |part: ContentView|
            match part {
                ContentView::InputText { text } => !blank(text),
                ContentView::OutputText { text } => !blank(text),
                ContentView::InputImage { .. } => false,
            },
    ).map_values(
        |part: ContentView|
            match part {
                ContentView::InputText { text } => text,
                ContentView::OutputText { text } => text,
                ContentView::InputImage { .. } => Seq::empty(),
            },
    )
}

proof fn lemma_texts_said(content: Seq<ContentView>)
    ensures
        shown_content(content) == texts_said(content),
    decreases content.len(),
{
    reveal(Seq::filter);
    if content.len() > 0 {
        lemma_texts_said(content.drop_last());
        assert(shown_content(content) =~= texts_said(content));
    } else {
        assert(shown_content(content) =~= texts_said(content));
    }
}

proof fn lemma_shown_texts(parts: Seq<Seq<char>>)
    ensures
        shown_texts(parts) == parts.filter(|text: Seq<char>| !blank(text)),
    decreases parts.len(),
{
    reveal(Seq::filter);
    if parts.len() > 0 {
        lemma_shown_texts(parts.drop_last());
    }
}

pub open spec fn where_known(label: Seq<char>, text: Option<Seq<char>>) -> Seq<char> {
    match text {
        Some(text) => label + text,
        None => Seq::empty(),
    }
}

/// Who says what about an item that is neither a tool call nor its output, where it says anything:
/// the role and the text of the message.
pub open spec fn said_of<M: SessionModel>(model: M, item: ItemView) -> Option<
    (Seq<char>, Seq<char>),
> {
    match item.body {
        BodyView::Message { role, content, phase } => if texts_said(content).len() == 0 {
            None
        } else {
            Some((role, joined(texts_said(content), "\n"@)))
        },
        BodyView::AgentMessage { author, recipient, content } => match model.spec_agent_text(
            content,
        ) {
            Some(text) => Some(
                (
                    "assistant"@,
                    "Agent message from "@ + author + " to "@ + recipient + ":\n"@ + text,
                ),
            ),
            None => None,
        },
        BodyView::Reasoning { summary, content, encrypted_content } => {
            let text = joined(summary.filter(|text: Seq<char>| !blank(text)), "\n"@);
            if text.len() == 0 {
                None
            } else {
                Some(("assistant"@, "Reasoning summary:\n"@ + text))
            }
        },
        BodyView::LocalShellCall { call_id, status, action } => Some(
            (
                "assistant"@,
                match status {
                    LocalShellStatus::Completed => {
                        "Local shell observation\nstatus: Completed\ncommand: "@
                    },
                    LocalShellStatus::InProgress => {
                        "Local shell observation\nstatus: InProgress\ncommand: "@
                    },
                    LocalShellStatus::Incomplete => {
                        "Local shell observation\nstatus: Incomplete\ncommand: "@
                    },
                } + joined(action.command, " "@) + where_known(
                    "\nworkdir: "@,
                    action.working_directory,
                ) + match action.timeout_ms {
                    Some(ms) => "\ntimeout_ms: "@ + decimal(ms as nat),
                    None => Seq::empty(),
                },
            ),
        ),
        BodyView::WebSearchCall { status, action } => Some(
            (
                "assistant"@,
                "Web search observation"@ + where_known("\nstatus: "@, status) + match action {
                    Some(WebSearchView::Search { query, queries }) => where_known(
                        "\nquery: "@,
                        query,
                    ) + match queries {
                        Some(list) => if list.len() == 0 {
                            Seq::empty()
                        } else {
                            "\nqueries: "@ + joined(list, " | "@)
                        },
                        None => Seq::empty(),
                    },
                    Some(WebSearchView::OpenPage { url }) => where_known("\nurl: "@, url),
                    Some(WebSearchView::FindInPage { url, pattern }) => where_known(
                        "\nurl: "@,
                        url,
                    ) + where_known("\npattern: "@, pattern),
                    Some(WebSearchView::Other) => Seq::empty(),
                    None => Seq::empty(),
                },
            ),
        ),
        BodyView::ImageGenerationCall { status, revised_prompt, result } => Some(
            (
                "assistant"@,
                "Image generation observation\nstatus: "@ + status + where_known(
                    "\nrevised_prompt: "@,
                    revised_prompt,
                ) + if result.len() == 0 {
                    Seq::empty()
                } else {
                    "\nresult: "@ + result
                },
            ),
        ),
        BodyView::Compaction { encrypted_content } => if blank(encrypted_content) {
            None
        } else {
            Some(("assistant"@, "Prior compaction summary:\n"@ + encrypted_content))
        },
        BodyView::ContextCompaction { encrypted_content: Some(content) } => if blank(content) {
            None
        } else {
            Some(("assistant"@, "Prior context compaction summary:\n"@ + content))
        },
        _ => None,
    }
}

proof fn lemma_shell_status(status: LocalShellStatus, action: ShellView)
    ensures
        shell_observation(status, action) == match status {
            LocalShellStatus::Completed => "Local shell observation\nstatus: Completed\ncommand: "@,
            LocalShellStatus::InProgress => {
                "Local shell observation\nstatus: InProgress\ncommand: "@
            },
            LocalShellStatus::Incomplete => {
                "Local shell observation\nstatus: Incomplete\ncommand: "@
            },
        } + joined(action.command, " "@) + where_known("\nworkdir: "@, action.working_directory)
            + match action.timeout_ms {
            Some(ms) => "\ntimeout_ms: "@ + decimal(ms as nat),
            None => Seq::empty(),
        },
{
    reveal_strlit("Local shell observation\nstatus: ");
    reveal_strlit("\ncommand: ");
    reveal_strlit("Completed");
    reveal_strlit("InProgress");
    reveal_strlit("Incomplete");
    reveal_strlit("Local shell observation\nstatus: Completed\ncommand: ");
    reveal_strlit("Local shell observation\nstatus: InProgress\ncommand: ");
    reveal_strlit("Local shell observation\nstatus: Incomplete\ncommand: ");
    assert("Local shell observation\nstatus: "@ + "Completed"@ + "\ncommand: "@
        =~= "Local shell observation\nstatus: Completed\ncommand: "@);
    assert("Local shell observation\nstatus: "@ + "InProgress"@ + "\ncommand: "@
        =~= "Local shell observation\nstatus: InProgress\ncommand: "@);
    assert("Local shell observation\nstatus: "@ + "Incomplete"@ + "\ncommand: "@
        =~= "Local shell observation\nstatus: Incomplete\ncommand: "@);
}

/// Items that are no tool calls and no outputs are told one by one: each says what it holds, in a
/// message of its own, and one that holds nothing readable is left out. Nothing else changes.
pub proof fn law_each_item_says_what_it_holds<M: SessionModel>(
    model: M,
    state: ToldView,
    item: ItemView,
    limit: i64,
)
    requires
        ordinary(limit),
        call_head(item) is None,
        output_tail(item) is None,
    ensures
        tell_item(model, state, item, limit) matches Ok(after) ==> {
            &&& after.pending == state.pending
            &&& after.order == state.order
            &&& match said_of(model, item) {
                Some((role, text)) => {
                    &&& after.items.len() == state.items.len() + 1
                    &&& after.items.drop_last() == state.items
                    &&& says(
                        model,
                        after.items.last(),
                        role,
                        text,
                        if item.body is Message {
                            item.body->Message_phase
                        } else {
                            None
                        },
                        limit,
                    )
                },
                None => after.items == state.items,
            }
            &&& after.observations == state.observations + if item.body is LocalShellCall
                || item.body is WebSearchCall || item.body is ImageGenerationCall {
                1int
            } else {
                0
            }
        },
{
    match item.body {
        BodyView::Message { role, content, phase } => {
            lemma_texts_said(content);
        },
        BodyView::Reasoning { summary, content, encrypted_content } => {
            lemma_shown_texts(summary);
        },
        BodyView::LocalShellCall { call_id, status, action } => {
            lemma_shell_status(status, action);
        },
        BodyView::WebSearchCall { status, action } => {
            assert(search_observation(status, action) =~= said_of(model, item)->Some_0.1);
        },
        BodyView::ImageGenerationCall { status, revised_prompt, result } => {
            assert(image_observation(status, revised_prompt, result) =~= said_of(
                model,
                item,
            )->Some_0.1);
        },
        _ => {},
    }
    if let Ok(after) = tell_item(model, state, item, limit) {
        if let Some((role, text)) = said_of(model, item) {
            let phase = if item.body is Message {
                item.body->Message_phase
            } else {
                None
            };
            law_message_says_its_text(model, role, text, phase, limit);
            assert(after.items.drop_last() =~= state.items);
        }
    }
}

// -- calls without an output ------------------------------------------------------------------

/// A call to which no output came is told at the end, without one.
pub proof fn law_call_without_output_is_told<M: SessionModel>(
    model: M,
    before: Seq<ItemView>,
    call: ItemView,
    rest: Seq<ItemView>,
    limit: i64,
)
    requires
        ordinary(limit),
        call_head(call) is Some,
        tool_id(call) is Some,
        forall|k: int| 0 <= k < rest.len() ==> tool_id(#[trigger] rest[k]) != tool_id(call),
    ensures
        transcript_of(model, before.push(call) + rest, limit) matches Ok(done) ==> exists|k: int|
            0 <= k < done.items.len() && says(
                model,
                #[trigger] done.items[k],
                "assistant"@,
                call_head(call)->Some_0,
                None,
                limit,
            ),
{
    let id = tool_id(call)->Some_0;
    let opened = before.push(call);
    let all = opened + rest;
    if let Ok(done) = transcript_of(model, all, limit) {
        let state = tell_items(model, all, limit)->Ok_0;
        let view = lemma_opened_call(model, before, call, rest, limit);
        lemma_tell_items(model, all, limit);
        let k = choose|k: int| 0 <= k < state.pending.len() && state.pending[k] == (id, view);
        assert(state.order.contains(state.pending[k].0));
        law_message_says_its_text(model, "assistant"@, observation(view, None, None), None, limit);
        lemma_orphan_told(model, state, state.order, limit, id, view);
    }
}

proof fn lemma_orphan_told<M: SessionModel>(
    model: M,
    state: ToldView,
    order: Seq<Seq<char>>,
    limit: i64,
    id: Seq<char>,
    call: CallView,
)
    requires
        accounted(state.pending, state.order),
        waits(state, id, call),
        forall|item: ItemView|
            bounded(model, "assistant"@, observation(call, None, None), None, limit) == Ok::<
                ItemView,
                crate::exact_tail::ErrorView,
            >(item) ==> #[trigger] says(
                model,
                item,
                "assistant"@,
                observation(call, None, None),
                None,
                limit,
            ),
    ensures
        tell_orphans(model, state, order, limit) matches Ok(done) ==> {
            &&& accounted(done.pending, done.order)
            &&& !order.contains(id) ==> waits(done, id, call)
            &&& order.contains(id) ==> exists|k: int|
                0 <= k < done.items.len() && says(
                    model,
                    #[trigger] done.items[k],
                    "assistant"@,
                    observation(call, None, None),
                    None,
                    limit,
                )
        },
    decreases order.len(),
{
    if order.len() > 0 {
        let front = order.drop_last();
        lemma_orphan_told(model, state, front, limit, id, call);
        if let Ok(done) = tell_orphans(model, state, order, limit) {
            let so_far = tell_orphans(model, state, front, limit)->Ok_0;
            lemma_close(so_far, order.last());
            let last = order.last();
            if order.contains(id) {
                if front.contains(id) {
                    let k = choose|k: int|
                        0 <= k < so_far.items.len() && says(
                            model,
                            #[trigger] so_far.items[k],
                            "assistant"@,
                            observation(call, None, None),
                            None,
                            limit,
                        );
                    assert(done.items[k] == so_far.items[k]);
                } else {
                    let at = choose|at: int| 0 <= at < order.len() && order[at] == id;
                    if at < front.len() {
                        assert(front[at] == id);
                    }
                    assert(last == id);
                    lemma_close_waiting(so_far, id, call);
                    let item = done.items[done.items.len() - 1];
                    assert(bounded(model, "assistant"@, observation(call, None, None), None, limit)
                        == Ok::<ItemView, crate::exact_tail::ErrorView>(item));
                    assert(says(
                        model,
                        item,
                        "assistant"@,
                        observation(call, None, None),
                        None,
                        limit,
                    ));
                }
            } else {
                if front.contains(id) {
                    let at = choose|at: int| 0 <= at < front.len() && front[at] == id;
                    assert(order[at] == id);
                }
                assert(last != id) by {
                    assert(order[order.len() - 1] == last);
                }
                lemma_close_other(so_far, id, call, last);
            }
        }
    }
}

// -- outputs without a call -------------------------------------------------------------------

/// The head of an observation whose call is not known.
pub open spec fn unknown_head(item: ItemView) -> Seq<char> {
    match item.body {
        BodyView::CustomToolCallOutput { call_id, name: Some(name), output } => {
            "Tool observation\nname: "@ + name
        },
        BodyView::CustomToolCallOutput { call_id, name: None, output } => {
            "Tool observation\nname: custom_tool"@
        },
        BodyView::ToolSearchOutput { call_id, status, execution, tools } => {
            "Tool observation\nname: tool_search"@
        },
        _ => "Tool observation\nname: tool"@,
    }
}

proof fn lemma_unknown_head(label: Seq<char>)
    ensures
        observation(CallView { label, details: Seq::empty() }, None, None)
            == "Tool observation\nname: "@ + label,
        "Tool observation\nname: "@ + "tool"@ == "Tool observation\nname: tool"@,
        "Tool observation\nname: "@ + "custom_tool"@ == "Tool observation\nname: custom_tool"@,
        "Tool observation\nname: "@ + "tool_search"@ == "Tool observation\nname: tool_search"@,
{
    law_observation_says_what_is_known(label, Seq::empty(), Seq::empty(), None);
    reveal_strlit("Tool observation\nname: ");
    reveal_strlit("tool");
    reveal_strlit("custom_tool");
    reveal_strlit("tool_search");
    reveal_strlit("Tool observation\nname: tool");
    reveal_strlit("Tool observation\nname: custom_tool");
    reveal_strlit("Tool observation\nname: tool_search");
    assert("Tool observation\nname: "@ + "tool"@ =~= "Tool observation\nname: tool"@);
    assert("Tool observation\nname: "@ + "custom_tool"@ =~= "Tool observation\nname: custom_tool"@);
    assert("Tool observation\nname: "@ + "tool_search"@ =~= "Tool observation\nname: tool_search"@);
}

/// An output for which no call waits is told all the same, under the name that it has or a general
/// one.
pub proof fn law_output_without_a_call_is_told<M: SessionModel>(
    model: M,
    state: ToldView,
    output: ItemView,
    limit: i64,
)
    requires
        ordinary(limit),
        output_tail(output) is Some,
        forall|k: int|
            0 <= k < state.pending.len() ==> Some((#[trigger] state.pending[k]).0) != tool_id(output),
    ensures
        tell_item(model, state, output, limit) matches Ok(after) ==> {
            &&& after.items.len() == state.items.len() + 1
            &&& after.items.drop_last() == state.items
            &&& after.observations == state.observations + 1
            &&& says(
                model,
                after.items.last(),
                "assistant"@,
                unknown_head(output) + output_tail(output)->Some_0,
                None,
                limit,
            )
        },
{
    let label = match output.body {
        BodyView::CustomToolCallOutput { call_id, name: Some(name), output } => name,
        BodyView::CustomToolCallOutput { call_id, name: None, output } => "custom_tool"@,
        BodyView::ToolSearchOutput { call_id, status, execution, tools } => "tool_search"@,
        _ => "tool"@,
    };
    let view = CallView { label, details: Seq::empty() };
    let head = observation(view, None, None);
    lemma_unknown_head(label);
    let text = match output.body {
        BodyView::FunctionCallOutput { call_id, output: payload } => {
            observation(view, payload.success, shown_output(payload))
        },
        BodyView::CustomToolCallOutput { call_id, name, output: payload } => {
            observation(view, payload.success, shown_output(payload))
        },
        BodyView::ToolSearchOutput { call_id, status, execution, tools } => {
            observation(view, None, Some(tool_search_shown(status, execution, tools)))
        },
        _ => Seq::empty(),
    };
    assert(text == head + output_tail(output)->Some_0) by {
        match output.body {
            BodyView::FunctionCallOutput { call_id, output: payload } => {
                lemma_observation(view, payload.success, payload);
                assert(text =~= head + output_tail(output)->Some_0);
            },
            BodyView::CustomToolCallOutput { call_id, name, output: payload } => {
                lemma_observation(view, payload.success, payload);
                assert(text =~= head + output_tail(output)->Some_0);
            },
            BodyView::ToolSearchOutput { call_id, status, execution, tools } => {
                lemma_search_text(status, execution, tools);
                law_observation_says_what_is_known(
                    label,
                    Seq::empty(),
                    Seq::empty(),
                    Some(tool_search_shown(status, execution, tools)),
                );
            },
            _ => {},
        }
    }
    law_message_says_its_text(model, "assistant"@, text, None, limit);
    if let Some(id) = tool_id(output) {
        lemma_waiting_at(state.pending, id);
    }
    assert(tell_item(model, state, output, limit) == crate::transcript::observe(
        model,
        state,
        text,
        limit,
    ));
    if let Ok(after) = tell_item(model, state, output, limit) {
        assert(after.items.drop_last() =~= state.items);
    }
}

} // verus!
