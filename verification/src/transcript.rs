//! A semantic transcript: a history told as plain messages, in which each tool call and its output
//! have become one observation and no protocol ids are left.

use crate::exact_tail::{plain_error, ErrorView, ExactTailError, ExactTailFailReason};
use crate::item::{
    body_text, clone_list, content_views, item_views, list_view, option_view, plain_item,
    BodyView, ContentItem, ContentView, FunctionCallOutputPayload, ItemBody, ItemView,
    LocalShellExecAction, LocalShellStatus, MessagePhase, PayloadView, ResponseItem, ShellView,
    WebSearchAction, WebSearchView,
};
use crate::rolling_context_filter::same_text;
use crate::session_model::{
    estimate_items_tokens, saturating, saturating_sub, total_tokens, SessionModel,
};
use crate::text::{
    blank, decimal, decimal_text, is_blank, join, joined, signed_decimal, signed_decimal_text,
    texts,
};
use crate::tokens::{truncate_text, truncated};
use vstd::prelude::*;
use vstd::string::*;

verus! {

// ---------------------------------------------------------------------------------------------
// Messages within the limit.
// ---------------------------------------------------------------------------------------------

/// A message of the transcript: what the assistant says is output, anything else is input.
pub open spec fn told(role: Seq<char>, text: Seq<char>, phase: Option<MessagePhase>) -> ItemView {
    plain_item(
        BodyView::Message {
            role,
            content: seq![
                if role == "assistant"@ {
                    ContentView::OutputText { text }
                } else {
                    ContentView::InputText { text }
                },
            ],
            phase,
        },
    )
}

/// Three quarters of a budget, at least one.
pub open spec fn smaller_budget(budget: nat) -> nat {
    let product = if budget * 3 <= usize::MAX {
        budget * 3
    } else {
        usize::MAX as nat
    };
    if product / 4 < 1 {
        1
    } else {
        product / 4
    }
}

pub open spec fn too_large_message(tokens: i64, limit: i64) -> ErrorView {
    plain_error(
        ExactTailFailReason::ModelVisibleItemTooLarge,
        ExactTailFailReason::ModelVisibleItemTooLarge.name()
            + ": semantic transcript item estimates to "@ + signed_decimal(tokens as int)
            + " tokens, exceeding per-item cap "@ + signed_decimal(limit as int),
    )
}

/// The message cut down to the first budget, from `budget` on, at which it keeps to the limit; an
/// error where one token is still too much.
pub open spec fn bounded_from<M: SessionModel>(
    model: M,
    role: Seq<char>,
    text: Seq<char>,
    phase: Option<MessagePhase>,
    limit: i64,
    budget: nat,
) -> Result<ItemView, ErrorView>
    decreases budget,
{
    let item = told(role, truncated(text, budget), phase);
    if model.spec_item_tokens(item) <= limit {
        Ok(item)
    } else if budget <= 1 || budget > usize::MAX {
        Err(too_large_message(model.spec_item_tokens(item), limit))
    } else {
        bounded_from(model, role, text, phase, limit, smaller_budget(budget))
    }
}

/// The budget that a message starts with: the limit without room for its wrapping.
pub open spec fn message_budget(limit: i64) -> nat {
    let room = saturating(limit - 256);
    if room < 1 {
        1
    } else if room <= usize::MAX {
        room as nat
    } else {
        usize::MAX as nat
    }
}

pub open spec fn bounded<M: SessionModel>(
    model: M,
    role: Seq<char>,
    text: Seq<char>,
    phase: Option<MessagePhase>,
    limit: i64,
) -> Result<ItemView, ErrorView> {
    bounded_from(model, role, text, phase, limit, message_budget(limit))
}

fn tell(role: &str, text: String, phase: Option<MessagePhase>) -> (item: ResponseItem)
    ensures
        item@ == told(role@, text@, phase),
{
    let mut content: Vec<ContentItem> = Vec::new();
    if same_text(role, "assistant") {
        content.push(ContentItem::OutputText { text });
    } else {
        content.push(ContentItem::InputText { text });
    }
    let item = ResponseItem::new(ItemBody::Message { role: role.to_owned(), content, phase });
    assert(item@.body->Message_content =~= told(role@, text@, phase).body->Message_content);
    item
}

fn bounded_message<M: SessionModel>(
    model: &M,
    role: &str,
    text: String,
    phase: Option<MessagePhase>,
    max_model_visible_item_tokens: i64,
) -> (r: Result<ResponseItem, ExactTailError>)
    ensures
        match r {
            Ok(item) => bounded(
                *model,
                role@,
                text@,
                phase,
                max_model_visible_item_tokens,
            ) == Ok::<ItemView, ErrorView>(item@),
            Err(error) => bounded(
                *model,
                role@,
                text@,
                phase,
                max_model_visible_item_tokens,
            ) == Err::<ItemView, ErrorView>(error@),
        },
{
    let limit: i64 = max_model_visible_item_tokens;
    let room: i64 = saturating_sub(limit, 256);
    let mut budget: usize = if room < 1 {
        1
    } else if room as u64 <= usize::MAX as u64 {
        room as usize
    } else {
        usize::MAX
    };
    loop
        invariant
            limit == max_model_visible_item_tokens,
            bounded_from(*model, role@, text@, phase, limit, budget as nat) == bounded(
                *model,
                role@,
                text@,
                phase,
                limit,
            ),
        decreases budget,
    {
        let item = tell(role, truncate_text(text.as_str(), budget), phase);
        let item_tokens: i64 = model.item_tokens(&item);
        if item_tokens <= limit {
            return Ok(item);
        }
        if budget <= 1 {
            let mut message = String::from_str(
                ExactTailFailReason::ModelVisibleItemTooLarge.as_str(),
            );
            message.append(": semantic transcript item estimates to ");
            message.append(signed_decimal_text(item_tokens).as_str());
            message.append(" tokens, exceeding per-item cap ");
            message.append(signed_decimal_text(limit).as_str());
            return Err(
                ExactTailError::new(ExactTailFailReason::ModelVisibleItemTooLarge, message),
            );
        }
        let product: usize = match budget.checked_mul(3) {
            Some(product) => product,
            None => usize::MAX,
        };
        budget =
        if product / 4 < 1 {
            1
        } else {
            product / 4
        };
    }
}

// ---------------------------------------------------------------------------------------------
// Texts.
// ---------------------------------------------------------------------------------------------

/// The texts that show something.
pub open spec fn shown_texts(parts: Seq<Seq<char>>) -> Seq<Seq<char>>
    decreases parts.len(),
{
    if parts.len() == 0 {
        parts
    } else if blank(parts.last()) {
        shown_texts(parts.drop_last())
    } else {
        shown_texts(parts.drop_last()).push(parts.last())
    }
}

/// The texts of a message's parts that show something.
pub open spec fn shown_content(content: Seq<ContentView>) -> Seq<Seq<char>>
    decreases content.len(),
{
    if content.len() == 0 {
        Seq::empty()
    } else {
        let rest = shown_content(content.drop_last());
        match content.last() {
            ContentView::InputText { text } => if blank(text) {
                rest
            } else {
                rest.push(text)
            },
            ContentView::OutputText { text } => if blank(text) {
                rest
            } else {
                rest.push(text)
            },
            ContentView::InputImage { .. } => rest,
        }
    }
}

fn visible_content(content: &Vec<ContentItem>) -> (parts: Vec<String>)
    ensures
        texts(parts@) == shown_content(content_views(content@)),
{
    let ghost all = content_views(content@);
    let mut parts: Vec<String> = Vec::new();
    let mut i: usize = 0;
    assert(texts(parts@) =~= shown_content(all.subrange(0, 0)));
    while i < content.len()
        invariant
            i <= content@.len(),
            all == content_views(content@),
            texts(parts@) == shown_content(all.subrange(0, i as int)),
        decreases content@.len() - i,
    {
        proof {
            let next = all.subrange(0, i + 1);
            assert(next.drop_last() =~= all.subrange(0, i as int));
            assert(next.last() == content@[i as int]@);
        }
        match &content[i] {
            ContentItem::InputText { text } | ContentItem::OutputText { text } => {
                if !is_blank(text.as_str()) {
                    let ghost before = texts(parts@);
                    parts.push(text.clone());
                    assert(texts(parts@) =~= before.push(text@));
                }
            },
            ContentItem::InputImage { .. } => {},
        }
        i += 1;
    }
    assert(all.subrange(0, i as int) =~= all);
    parts
}

/// What a reasoning item shows.
fn reasoning_summary_text(summary: &Vec<String>) -> (text: String)
    ensures
        text@ == joined(shown_texts(list_view(summary@)), "\n"@),
{
    let ghost all = list_view(summary@);
    let mut parts: Vec<String> = Vec::new();
    let mut i: usize = 0;
    assert(texts(parts@) =~= shown_texts(all.subrange(0, 0)));
    while i < summary.len()
        invariant
            i <= summary@.len(),
            all == list_view(summary@),
            texts(parts@) == shown_texts(all.subrange(0, i as int)),
        decreases summary@.len() - i,
    {
        proof {
            let next = all.subrange(0, i + 1);
            assert(next.drop_last() =~= all.subrange(0, i as int));
            assert(next.last() == summary@[i as int]@);
        }
        if !is_blank(summary[i].as_str()) {
            let ghost before = texts(parts@);
            parts.push(summary[i].clone());
            assert(texts(parts@) =~= before.push(summary@[i as int]@));
        }
        i += 1;
    }
    assert(all.subrange(0, i as int) =~= all);
    join(&parts, "\n")
}

// ---------------------------------------------------------------------------------------------
// Tool calls.
// ---------------------------------------------------------------------------------------------

/// A call that waits for its output.
#[derive(Debug)]
pub struct PendingToolCall {
    pub label: String,
    pub details: Vec<String>,
}

pub struct CallView {
    pub label: Seq<char>,
    pub details: Seq<Seq<char>>,
}

impl View for PendingToolCall {
    type V = CallView;

    open spec fn view(&self) -> CallView {
        CallView { label: self.label@, details: list_view(self.details@) }
    }
}

pub open spec fn bare_call(label: Seq<char>) -> CallView {
    CallView { label, details: Seq::empty() }
}

/// Each detail on a line of its own.
pub open spec fn detail_lines(details: Seq<Seq<char>>) -> Seq<char>
    decreases details.len(),
{
    if details.len() == 0 {
        Seq::empty()
    } else {
        detail_lines(details.drop_last()) + "\n"@ + details.last()
    }
}

/// What an observation says: the tool, the details of the call, whether it succeeded and what came
/// back, each only as far as it is known.
pub open spec fn observation(
    call: CallView,
    success: Option<bool>,
    output: Option<Seq<char>>,
) -> Seq<char> {
    "Tool observation\nname: "@ + call.label + detail_lines(call.details) + match success {
        Some(ok) => "\nsuccess: "@ + if ok {
            "true"@
        } else {
            "false"@
        },
        None => Seq::empty(),
    } + match output {
        Some(text) => if blank(text) {
            Seq::empty()
        } else {
            "\noutput:\n"@ + text
        },
        None => Seq::empty(),
    }
}

pub fn tool_call_text(call: &PendingToolCall, success: Option<bool>, output: Option<&str>) -> (text:
    String)
    ensures
        text@ == observation(
            call@,
            success,
            match output {
                Some(o) => Some(o@),
                None => None,
            },
        ),
{
    let mut text = String::from_str("Tool observation\nname: ");
    text.append(call.label.as_str());
    let ghost head = text@;
    let ghost all = list_view(call.details@);
    let mut i: usize = 0;
    assert(all.subrange(0, 0) =~= Seq::<Seq<char>>::empty());
    assert(head + detail_lines(all.subrange(0, 0)) =~= head);
    while i < call.details.len()
        invariant
            i <= call.details@.len(),
            all == list_view(call.details@),
            text@ == head + detail_lines(all.subrange(0, i as int)),
        decreases call.details@.len() - i,
    {
        text.append("\n");
        text.append(call.details[i].as_str());
        proof {
            let next = all.subrange(0, i + 1);
            assert(next.drop_last() =~= all.subrange(0, i as int));
            assert(next.last() == call.details@[i as int]@);
            assert(text@ =~= head + detail_lines(next));
        }
        i += 1;
    }
    assert(all.subrange(0, i as int) =~= all);
    let ghost with_details = text@;
    let ghost success_text = match success {
        Some(ok) => "\nsuccess: "@ + if ok {
            "true"@
        } else {
            "false"@
        },
        None => Seq::empty(),
    };
    match success {
        Some(ok) => {
            text.append("\nsuccess: ");
            text.append(
                if ok {
                    "true"
                } else {
                    "false"
                },
            );
        },
        None => {},
    }
    assert(text@ =~= with_details + success_text);
    if let Some(shown) = output {
        if !is_blank(shown) {
            text.append("\noutput:\n");
            text.append(shown);
        }
    }
    assert(text@ =~= observation(
        call@,
        success,
        match output {
            Some(o) => Some(o@),
            None => None,
        },
    ));
    text
}

/// What a tool output shows, if that is not blank.
pub open spec fn shown_output(output: PayloadView) -> Option<Seq<char>> {
    match body_text(output.body) {
        Some(text) => if blank(text) {
            None
        } else {
            Some(text)
        },
        None => None,
    }
}

fn output_text(output: &FunctionCallOutputPayload) -> (r: Option<String>)
    ensures
        option_view(r) == shown_output(output@),
{
    match output.body.to_text() {
        Some(text) => if is_blank(text.as_str()) {
            None
        } else {
            Some(text)
        },
        None => None,
    }
}

pub open spec fn status_name(status: LocalShellStatus) -> Seq<char> {
    match status {
        LocalShellStatus::Completed => "Completed"@,
        LocalShellStatus::InProgress => "InProgress"@,
        LocalShellStatus::Incomplete => "Incomplete"@,
    }
}

/// A label and a text, where there is one.
pub open spec fn labelled(label: Seq<char>, text: Option<Seq<char>>) -> Seq<char> {
    match text {
        Some(t) => label + t,
        None => Seq::empty(),
    }
}

fn append_labelled(text: &mut String, label: &str, value: &Option<String>)
    ensures
        final(text)@ == old(text)@ + labelled(label@, option_view(*value)),
{
    let ghost before = text@;
    if let Some(v) = value {
        text.append(label);
        text.append(v.as_str());
    }
    assert(text@ =~= before + labelled(label@, option_view(*value)));
}

pub open spec fn shell_observation(status: LocalShellStatus, action: ShellView) -> Seq<char> {
    "Local shell observation\nstatus: "@ + status_name(status) + "\ncommand: "@ + joined(
        action.command,
        " "@,
    ) + labelled("\nworkdir: "@, action.working_directory) + labelled(
        "\ntimeout_ms: "@,
        match action.timeout_ms {
            Some(ms) => Some(decimal(ms as nat)),
            None => None,
        },
    )
}

fn local_shell_observation_text(status: LocalShellStatus, action: &LocalShellExecAction) -> (text:
    String)
    ensures
        text@ == shell_observation(status, action@),
{
    let mut text = String::from_str("Local shell observation\nstatus: ");
    text.append(
        match status {
            LocalShellStatus::Completed => "Completed",
            LocalShellStatus::InProgress => "InProgress",
            LocalShellStatus::Incomplete => "Incomplete",
        },
    );
    text.append("\ncommand: ");
    assert(list_view(action.command@) =~= texts(action.command@));
    text.append(join(&action.command, " ").as_str());
    append_labelled(&mut text, "\nworkdir: ", &action.working_directory);
    let timeout: Option<String> = match action.timeout_ms {
        Some(ms) => Some(decimal_text(ms)),
        None => None,
    };
    append_labelled(&mut text, "\ntimeout_ms: ", &timeout);
    text
}

/// What a web search shows.
pub open spec fn search_lines(action: Option<WebSearchView>) -> Seq<char> {
    match action {
        Some(WebSearchView::Search { query, queries }) => labelled("\nquery: "@, query) + match queries {
            Some(list) => if list.len() > 0 {
                "\nqueries: "@ + joined(list, " | "@)
            } else {
                Seq::empty()
            },
            None => Seq::empty(),
        },
        Some(WebSearchView::OpenPage { url }) => labelled("\nurl: "@, url),
        Some(WebSearchView::FindInPage { url, pattern }) => labelled("\nurl: "@, url) + labelled(
            "\npattern: "@,
            pattern,
        ),
        Some(WebSearchView::Other) => Seq::empty(),
        None => Seq::empty(),
    }
}

pub open spec fn search_observation(
    status: Option<Seq<char>>,
    action: Option<WebSearchView>,
) -> Seq<char> {
    "Web search observation"@ + labelled("\nstatus: "@, status) + search_lines(action)
}

fn web_search_observation_text(status: &Option<String>, action: &Option<WebSearchAction>) -> (text:
    String)
    ensures
        text@ == search_observation(
            option_view(*status),
            crate::item::web_search_option(*action),
        ),
{
    let mut text = String::from_str("Web search observation");
    append_labelled(&mut text, "\nstatus: ", status);
    let ghost head = text@;
    match action {
        Some(WebSearchAction::Search { query, queries }) => {
            append_labelled(&mut text, "\nquery: ", query);
            if let Some(list) = queries {
                if list.len() > 0 {
                    text.append("\nqueries: ");
                    assert(list_view(list@) =~= texts(list@));
                    text.append(join(list, " | ").as_str());
                }
            }
            assert(text@ =~= head + search_lines(crate::item::web_search_option(*action)));
        },
        Some(WebSearchAction::OpenPage { url }) => {
            append_labelled(&mut text, "\nurl: ", url);
        },
        Some(WebSearchAction::FindInPage { url, pattern }) => {
            append_labelled(&mut text, "\nurl: ", url);
            append_labelled(&mut text, "\npattern: ", pattern);
            assert(text@ =~= head + search_lines(crate::item::web_search_option(*action)));
        },
        Some(WebSearchAction::Other) => {
            assert(text@ =~= head + search_lines(crate::item::web_search_option(*action)));
        },
        None => {
            assert(text@ =~= head + search_lines(crate::item::web_search_option(*action)));
        },
    }
    text
}

pub open spec fn image_observation(
    status: Seq<char>,
    revised_prompt: Option<Seq<char>>,
    result: Seq<char>,
) -> Seq<char> {
    "Image generation observation\nstatus: "@ + status + labelled(
        "\nrevised_prompt: "@,
        revised_prompt,
    ) + if result.len() > 0 {
        "\nresult: "@ + result
    } else {
        Seq::empty()
    }
}

fn image_observation_text(status: &String, revised_prompt: &Option<String>, result: &String) -> (text:
    String)
    ensures
        text@ == image_observation(status@, option_view(*revised_prompt), result@),
{
    let mut text = String::from_str("Image generation observation\nstatus: ");
    text.append(status.as_str());
    append_labelled(&mut text, "\nrevised_prompt: ", revised_prompt);
    let ghost before = text@;
    if !result.as_str().is_empty() {
        text.append("\nresult: ");
        text.append(result.as_str());
    }
    assert(text@ =~= before + if result@.len() > 0 {
        "\nresult: "@ + result@
    } else {
        Seq::empty()
    });
    text
}

/// What a tool search shows.
pub open spec fn tool_search_shown(
    status: Seq<char>,
    execution: Seq<char>,
    tools: Seq<Seq<char>>,
) -> Seq<char> {
    "status: "@ + status + "\nexecution: "@ + execution + if tools.len() > 0 {
        "\ntools: "@ + crate::json::json_array(tools)
    } else {
        Seq::empty()
    }
}

fn tool_search_output_text(status: &String, execution: &String, tools: &Vec<String>) -> (text:
    String)
    ensures
        text@ == tool_search_shown(status@, execution@, list_view(tools@)),
{
    let mut text = String::from_str("status: ");
    text.append(status.as_str());
    text.append("\nexecution: ");
    text.append(execution.as_str());
    let ghost before = text@;
    if tools.len() > 0 {
        text.append("\ntools: ");
        text.append(crate::json::json_array_text(tools).as_str());
    }
    assert(text@ =~= before + if list_view(tools@).len() > 0 {
        "\ntools: "@ + crate::json::json_array(list_view(tools@))
    } else {
        Seq::empty()
    });
    text
}

// ---------------------------------------------------------------------------------------------
// Telling a history.
// ---------------------------------------------------------------------------------------------

/// Where a call with this id waits.
pub open spec fn waiting_at(pending: Seq<(Seq<char>, CallView)>, id: Seq<char>) -> Option<int>
    decreases pending.len(),
{
    if pending.len() == 0 {
        None
    } else if pending.last().0 == id {
        Some(pending.len() - 1)
    } else {
        waiting_at(pending.drop_last(), id)
    }
}

/// What was told so far: the messages, the calls that wait for their output, the order in which
/// calls came, and how many observations there were.
pub struct ToldView {
    pub items: Seq<ItemView>,
    pub pending: Seq<(Seq<char>, CallView)>,
    pub order: Seq<Seq<char>>,
    pub observations: nat,
}

pub open spec fn nothing_told() -> ToldView {
    ToldView { items: Seq::empty(), pending: Seq::empty(), order: Seq::empty(), observations: 0 }
}

/// One message more.
pub open spec fn say<M: SessionModel>(
    model: M,
    state: ToldView,
    role: Seq<char>,
    text: Seq<char>,
    phase: Option<MessagePhase>,
    limit: i64,
) -> Result<ToldView, ErrorView> {
    match bounded(model, role, text, phase, limit) {
        Ok(item) => Ok(ToldView { items: state.items.push(item), ..state }),
        Err(error) => Err(error),
    }
}

/// One observation more.
pub open spec fn observe<M: SessionModel>(
    model: M,
    state: ToldView,
    text: Seq<char>,
    limit: i64,
) -> Result<ToldView, ErrorView> {
    say(
        model,
        ToldView { observations: state.observations + 1, ..state },
        "assistant"@,
        text,
        None,
        limit,
    )
}

/// One call more that waits. A call whose id waits already takes its place.
pub open spec fn open_call(state: ToldView, id: Seq<char>, call: CallView) -> ToldView {
    match waiting_at(state.pending, id) {
        Some(at) => ToldView { pending: state.pending.update(at, (id, call)), ..state },
        None => ToldView {
            pending: state.pending.push((id, call)),
            order: state.order.push(id),
            ..state
        },
    }
}

/// The call with this id, which waits no longer.
pub open spec fn close_call(state: ToldView, id: Seq<char>) -> (Option<CallView>, ToldView) {
    match waiting_at(state.pending, id) {
        Some(at) => (
            Some(state.pending[at].1),
            ToldView { pending: state.pending.remove(at), ..state },
        ),
        None => (None, state),
    }
}

pub open spec fn known_call(call: Option<CallView>, label: Seq<char>) -> CallView {
    match call {
        Some(c) => c,
        None => bare_call(label),
    }
}

/// `details` and the status of the call, where it has one.
pub open spec fn with_status(details: Seq<Seq<char>>, status: Option<Seq<char>>) -> Seq<Seq<char>> {
    match status {
        Some(s) => details.push("status: "@ + s),
        None => details,
    }
}

pub open spec fn function_label(name: Seq<char>, namespace: Option<Seq<char>>) -> Seq<char> {
    match namespace {
        Some(space) => space + "."@ + name,
        None => name,
    }
}

/// How one item of the history is told.
pub open spec fn tell_item<M: SessionModel>(
    model: M,
    state: ToldView,
    item: ItemView,
    limit: i64,
) -> Result<ToldView, ErrorView> {
    match item.body {
        BodyView::Message { role, content, phase } => if shown_content(content).len() == 0 {
            Ok(state)
        } else {
            say(model, state, role, joined(shown_content(content), "\n"@), phase, limit)
        },
        BodyView::AgentMessage { author, recipient, content } => match model.spec_agent_text(
            content,
        ) {
            Some(text) => say(
                model,
                state,
                "assistant"@,
                "Agent message from "@ + author + " to "@ + recipient + ":\n"@ + text,
                None,
                limit,
            ),
            None => Ok(state),
        },
        BodyView::Reasoning { summary, content, encrypted_content } => {
            let text = joined(shown_texts(summary), "\n"@);
            if text.len() == 0 {
                Ok(state)
            } else {
                say(model, state, "assistant"@, "Reasoning summary:\n"@ + text, None, limit)
            }
        },
        BodyView::FunctionCall { name, namespace, arguments, call_id } => Ok(
            open_call(
                state,
                call_id,
                CallView {
                    label: function_label(name, namespace),
                    details: seq!["arguments: "@ + arguments],
                },
            ),
        ),
        BodyView::CustomToolCall { status, call_id, name, input } => Ok(
            open_call(
                state,
                call_id,
                CallView {
                    label: name,
                    details: with_status(seq!["input: "@ + input], status),
                },
            ),
        ),
        BodyView::ToolSearchCall { call_id, status, execution, arguments } => match call_id {
            Some(id) => Ok(
                open_call(
                    state,
                    id,
                    CallView {
                        label: "tool_search"@,
                        details: with_status(
                            seq!["execution: "@ + execution, "arguments: "@ + arguments],
                            status,
                        ),
                    },
                ),
            ),
            None => Ok(state),
        },
        BodyView::LocalShellCall { call_id, status, action } => observe(
            model,
            state,
            shell_observation(status, action),
            limit,
        ),
        BodyView::FunctionCallOutput { call_id, output } => {
            let (call, rest) = close_call(state, call_id);
            observe(
                model,
                rest,
                observation(known_call(call, "tool"@), output.success, shown_output(output)),
                limit,
            )
        },
        BodyView::CustomToolCallOutput { call_id, name, output } => {
            let (call, rest) = close_call(state, call_id);
            let label = match name {
                Some(n) => n,
                None => "custom_tool"@,
            };
            observe(
                model,
                rest,
                observation(known_call(call, label), output.success, shown_output(output)),
                limit,
            )
        },
        BodyView::ToolSearchOutput { call_id, status, execution, tools } => {
            let (call, rest) = match call_id {
                Some(id) => close_call(state, id),
                None => (None, state),
            };
            observe(
                model,
                rest,
                observation(
                    known_call(call, "tool_search"@),
                    None,
                    Some(tool_search_shown(status, execution, tools)),
                ),
                limit,
            )
        },
        BodyView::WebSearchCall { status, action } => observe(
            model,
            state,
            search_observation(status, action),
            limit,
        ),
        BodyView::ImageGenerationCall { status, revised_prompt, result } => observe(
            model,
            state,
            image_observation(status, revised_prompt, result),
            limit,
        ),
        BodyView::Compaction { encrypted_content } => if blank(encrypted_content) {
            Ok(state)
        } else {
            say(
                model,
                state,
                "assistant"@,
                "Prior compaction summary:\n"@ + encrypted_content,
                None,
                limit,
            )
        },
        BodyView::ContextCompaction { encrypted_content } => match encrypted_content {
            Some(content) => if blank(content) {
                Ok(state)
            } else {
                say(
                    model,
                    state,
                    "assistant"@,
                    "Prior context compaction summary:\n"@ + content,
                    None,
                    limit,
                )
            },
            None => Ok(state),
        },
        BodyView::CompactionTrigger => Ok(state),
        BodyView::Other => Ok(state),
    }
}

pub open spec fn tell_items<M: SessionModel>(
    model: M,
    items: Seq<ItemView>,
    limit: i64,
) -> Result<ToldView, ErrorView>
    decreases items.len(),
{
    if items.len() == 0 {
        Ok(nothing_told())
    } else {
        match tell_items(model, items.drop_last(), limit) {
            Ok(state) => tell_item(model, state, items.last(), limit),
            Err(error) => Err(error),
        }
    }
}

/// Calls that got no output are told at the end, in the order in which they came.
pub open spec fn tell_orphans<M: SessionModel>(
    model: M,
    state: ToldView,
    order: Seq<Seq<char>>,
    limit: i64,
) -> Result<ToldView, ErrorView>
    decreases order.len(),
{
    if order.len() == 0 {
        Ok(state)
    } else {
        match tell_orphans(model, state, order.drop_last(), limit) {
            Err(error) => Err(error),
            Ok(so_far) => match close_call(so_far, order.last()) {
                (Some(call), rest) => observe(model, rest, observation(call, None, None), limit),
                (None, _) => Ok(so_far),
            },
        }
    }
}

pub open spec fn item_limit(max_model_visible_item_tokens: i64) -> i64 {
    if max_model_visible_item_tokens < 1 {
        1
    } else {
        max_model_visible_item_tokens
    }
}

/// The whole transcript.
pub open spec fn transcript_of<M: SessionModel>(
    model: M,
    history: Seq<ItemView>,
    max_model_visible_item_tokens: i64,
) -> Result<ToldView, ErrorView> {
    let limit = item_limit(max_model_visible_item_tokens);
    match tell_items(model, history, limit) {
        Err(error) => Err(error),
        Ok(state) => tell_orphans(model, state, state.order, limit),
    }
}

struct PendingEntry {
    call_id: String,
    call: PendingToolCall,
}

struct Told {
    items: Vec<ResponseItem>,
    pending: Vec<PendingEntry>,
    order: Vec<String>,
    observations: usize,
}

spec fn entry_view(entry: PendingEntry) -> (Seq<char>, CallView) {
    (entry.call_id@, entry.call@)
}

spec fn entries_view(entries: Seq<PendingEntry>) -> Seq<(Seq<char>, CallView)> {
    entries.map_values(|e: PendingEntry| entry_view(e))
}

impl View for Told {
    type V = ToldView;

    closed spec fn view(&self) -> ToldView {
        ToldView {
            items: item_views(self.items@),
            pending: entries_view(self.pending@),
            order: list_view(self.order@),
            observations: self.observations as nat,
        }
    }
}

fn find_waiting(pending: &Vec<PendingEntry>, id: &String) -> (r: Option<usize>)
    ensures
        match r {
            Some(at) => waiting_at(entries_view(pending@), id@) == Some(at as int) && at
                < pending@.len(),
            None => waiting_at(entries_view(pending@), id@) is None,
        },
{
    let ghost all = entries_view(pending@);
    let mut n: usize = pending.len();
    assert(all.subrange(0, n as int) =~= all);
    while n > 0
        invariant
            n <= pending@.len(),
            all == entries_view(pending@),
            waiting_at(all.subrange(0, n as int), id@) == waiting_at(all, id@),
        decreases n,
    {
        proof {
            let part = all.subrange(0, n as int);
            assert(part.last() == entry_view(pending@[n - 1]));
            assert(part.drop_last() =~= all.subrange(0, n - 1));
        }
        if pending[n - 1].call_id == *id {
            return Some(n - 1);
        }
        n -= 1;
    }
    None
}

impl Told {
    fn open(&mut self, id: &String, call: PendingToolCall)
        ensures
            final(self)@ == open_call(old(self)@, id@, call@),
            final(self).order@.len() <= old(self).order@.len() + 1,
            final(self).observations == old(self).observations,
    {
        let ghost before = self@;
        match find_waiting(&self.pending, id) {
            Some(at) => {
                let entry = PendingEntry { call_id: id.clone(), call };
                self.pending.set(at, entry);
                assert(self@.pending =~= before.pending.update(at as int, (id@, call@)));
            },
            None => {
                self.pending.push(PendingEntry { call_id: id.clone(), call });
                self.order.push(id.clone());
                assert(self@.pending =~= before.pending.push((id@, call@)));
                assert(self@.order =~= before.order.push(id@));
            },
        }
    }

    fn close(&mut self, id: &String) -> (r: Option<PendingToolCall>)
        ensures
            final(self)@ == close_call(old(self)@, id@).1,
            match r {
                Some(call) => close_call(old(self)@, id@).0 == Some(call@),
                None => close_call(old(self)@, id@).0 is None,
            },
            final(self).order@ == old(self).order@,
            final(self).observations == old(self).observations,
    {
        let ghost before = self@;
        match find_waiting(&self.pending, id) {
            Some(at) => {
                assert(before.pending[at as int] == entry_view(self.pending@[at as int]));
                let entry = self.pending.remove(at);
                assert(self@.pending =~= before.pending.remove(at as int));
                Some(entry.call)
            },
            None => None,
        }
    }

    fn say<M: SessionModel>(
        &mut self,
        model: &M,
        role: &str,
        text: String,
        phase: Option<MessagePhase>,
        limit: i64,
    ) -> (r: Result<(), ExactTailError>)
        ensures
            match r {
                Ok(_) => say(*model, old(self)@, role@, text@, phase, limit) == Ok::<
                    ToldView,
                    ErrorView,
                >(final(self)@),
                Err(error) => say(*model, old(self)@, role@, text@, phase, limit) == Err::<
                    ToldView,
                    ErrorView,
                >(error@),
            },
            final(self).order@ == old(self).order@,
            final(self).observations == old(self).observations,
    {
        let ghost before = self@;
        match bounded_message(model, role, text, phase, limit) {
            Ok(item) => {
                self.items.push(item);
                assert(self@.items =~= before.items.push(item@));
                Ok(())
            },
            Err(error) => Err(error),
        }
    }

    fn observe<M: SessionModel>(&mut self, model: &M, text: String, limit: i64) -> (r: Result<
        (),
        ExactTailError,
    >)
        requires
            old(self).observations < usize::MAX,
        ensures
            match r {
                Ok(_) => observe(*model, old(self)@, text@, limit) == Ok::<ToldView, ErrorView>(
                    final(self)@,
                ),
                Err(error) => observe(*model, old(self)@, text@, limit) == Err::<
                    ToldView,
                    ErrorView,
                >(error@),
            },
            final(self).order@ == old(self).order@,
            final(self).observations == old(self).observations + 1,
    {
        self.observations += 1;
        self.say(model, "assistant", text, None, limit)
    }
}

fn one_detail(label: &str, value: &str) -> (details: Vec<String>)
    ensures
        list_view(details@) == seq![label@ + value@],
{
    let mut details: Vec<String> = Vec::new();
    let mut detail = String::from_str(label);
    detail.append(value);
    details.push(detail);
    assert(list_view(details@) =~= seq![label@ + value@]);
    details
}

fn add_detail(details: &mut Vec<String>, label: &str, value: &str)
    ensures
        list_view(final(details)@) == list_view(old(details)@).push(label@ + value@),
{
    let ghost before = list_view(details@);
    let mut detail = String::from_str(label);
    detail.append(value);
    details.push(detail);
    assert(list_view(details@) =~= before.push(label@ + value@));
}

fn call_or(call: Option<PendingToolCall>, label: &str) -> (r: PendingToolCall)
    ensures
        r@ == known_call(
            match call {
                Some(c) => Some(c@),
                None => None,
            },
            label@,
        ),
{
    match call {
        Some(call) => call,
        None => {
            let r = PendingToolCall { label: String::from_str(label), details: Vec::new() };
            assert(list_view(r.details@) =~= Seq::<Seq<char>>::empty());
            r
        },
    }
}

fn tell_one<M: SessionModel>(model: &M, state: &mut Told, item: &ResponseItem, limit: i64) -> (r:
    Result<(), ExactTailError>)
    requires
        old(state).observations + old(state).order@.len() < usize::MAX,
    ensures
        match r {
            Ok(_) => tell_item(*model, old(state)@, item@, limit) == Ok::<ToldView, ErrorView>(
                final(state)@,
            ),
            Err(error) => tell_item(*model, old(state)@, item@, limit) == Err::<
                ToldView,
                ErrorView,
            >(error@),
        },
        final(state).observations + final(state).order@.len() <= old(state).observations
            + old(state).order@.len() + 1,
{
    match &item.body {
        ItemBody::Message { role, content, phase } => {
            let parts = visible_content(content);
            if parts.len() == 0 {
                return Ok(());
            }
            state.say(model, role.as_str(), join(&parts, "\n"), *phase, limit)
        },
        ItemBody::AgentMessage { author, recipient, content } => match model.agent_text(content) {
            Some(text) => {
                let mut told = String::from_str("Agent message from ");
                told.append(author.as_str());
                told.append(" to ");
                told.append(recipient.as_str());
                told.append(":\n");
                told.append(text.as_str());
                state.say(model, "assistant", told, None, limit)
            },
            None => Ok(()),
        },
        ItemBody::Reasoning { summary, content: _, encrypted_content: _ } => {
            let text = reasoning_summary_text(summary);
            if text.as_str().is_empty() {
                return Ok(());
            }
            let mut told = String::from_str("Reasoning summary:\n");
            told.append(text.as_str());
            state.say(model, "assistant", told, None, limit)
        },
        ItemBody::FunctionCall { name, namespace, arguments, call_id } => {
            let label = match namespace {
                Some(space) => {
                    let mut label = space.clone();
                    label.append(".");
                    label.append(name.as_str());
                    label
                },
                None => name.clone(),
            };
            let details = one_detail("arguments: ", arguments.as_str());
            state.open(call_id, PendingToolCall { label, details });
            Ok(())
        },
        ItemBody::CustomToolCall { status, call_id, name, input } => {
            let mut details = one_detail("input: ", input.as_str());
            if let Some(status) = status {
                add_detail(&mut details, "status: ", status.as_str());
            }
            state.open(call_id, PendingToolCall { label: name.clone(), details });
            Ok(())
        },
        ItemBody::ToolSearchCall { call_id, status, execution, arguments } => {
            if let Some(id) = call_id {
                let mut details = one_detail("execution: ", execution.as_str());
                add_detail(&mut details, "arguments: ", arguments.as_str());
                assert(list_view(details@) =~= seq![
                    "execution: "@ + execution@,
                    "arguments: "@ + arguments@,
                ]);
                if let Some(status) = status {
                    add_detail(&mut details, "status: ", status.as_str());
                }
                state.open(
                    id,
                    PendingToolCall { label: String::from_str("tool_search"), details },
                );
            }
            Ok(())
        },
        ItemBody::LocalShellCall { call_id: _, status, action } => state.observe(
            model,
            local_shell_observation_text(*status, action),
            limit,
        ),
        ItemBody::FunctionCallOutput { call_id, output } => {
            let call = call_or(state.close(call_id), "tool");
            let shown = output_text(output);
            let text = tool_call_text(
                &call,
                output.success,
                match &shown {
                    Some(text) => Some(text.as_str()),
                    None => None,
                },
            );
            state.observe(model, text, limit)
        },
        ItemBody::CustomToolCallOutput { call_id, name, output } => {
            let label = match name {
                Some(name) => name.as_str(),
                None => "custom_tool",
            };
            let call = call_or(state.close(call_id), label);
            let shown = output_text(output);
            let text = tool_call_text(
                &call,
                output.success,
                match &shown {
                    Some(text) => Some(text.as_str()),
                    None => None,
                },
            );
            state.observe(model, text, limit)
        },
        ItemBody::ToolSearchOutput { call_id, status, execution, tools } => {
            let found = match call_id {
                Some(id) => state.close(id),
                None => None,
            };
            let call = call_or(found, "tool_search");
            let shown = tool_search_output_text(status, execution, tools);
            let text = tool_call_text(&call, None, Some(shown.as_str()));
            state.observe(model, text, limit)
        },
        ItemBody::WebSearchCall { status, action } => state.observe(
            model,
            web_search_observation_text(status, action),
            limit,
        ),
        ItemBody::ImageGenerationCall { status, revised_prompt, result } => state.observe(
            model,
            image_observation_text(status, revised_prompt, result),
            limit,
        ),
        ItemBody::Compaction { encrypted_content } => {
            if is_blank(encrypted_content.as_str()) {
                return Ok(());
            }
            let mut told = String::from_str("Prior compaction summary:\n");
            told.append(encrypted_content.as_str());
            state.say(model, "assistant", told, None, limit)
        },
        ItemBody::ContextCompaction { encrypted_content } => {
            match encrypted_content {
                Some(content) => {
                    if is_blank(content.as_str()) {
                        return Ok(());
                    }
                    let mut told = String::from_str("Prior context compaction summary:\n");
                    told.append(content.as_str());
                    state.say(model, "assistant", told, None, limit)
                },
                None => Ok(()),
            }
        },
        ItemBody::CompactionTrigger => Ok(()),
        ItemBody::Other => Ok(()),
    }
}

/// A transcript, what it comes to, and how many tool observations it holds.
#[derive(Debug, PartialEq)]
pub struct SemanticTranscript {
    pub items: Vec<ResponseItem>,
    pub estimated_tokens: i64,
    pub tool_observation_count: usize,
}

proof fn lemma_tell_items_error<M: SessionModel>(
    model: M,
    items: Seq<ItemView>,
    upto: int,
    limit: i64,
)
    requires
        0 <= upto <= items.len(),
        tell_items(model, items.subrange(0, upto), limit) is Err,
    ensures
        tell_items(model, items, limit) == tell_items(model, items.subrange(0, upto), limit),
    decreases items.len(),
{
    if upto == items.len() {
        assert(items.subrange(0, upto) =~= items);
    } else {
        assert(items.drop_last().subrange(0, upto) =~= items.subrange(0, upto));
        lemma_tell_items_error(model, items.drop_last(), upto, limit);
    }
}

proof fn lemma_tell_orphans_error<M: SessionModel>(
    model: M,
    state: ToldView,
    order: Seq<Seq<char>>,
    upto: int,
    limit: i64,
)
    requires
        0 <= upto <= order.len(),
        tell_orphans(model, state, order.subrange(0, upto), limit) is Err,
    ensures
        tell_orphans(model, state, order, limit) == tell_orphans(
            model,
            state,
            order.subrange(0, upto),
            limit,
        ),
    decreases order.len(),
{
    if upto == order.len() {
        assert(order.subrange(0, upto) =~= order);
    } else {
        assert(order.drop_last().subrange(0, upto) =~= order.subrange(0, upto));
        lemma_tell_orphans_error(model, state, order.drop_last(), upto, limit);
    }
}

/// Tells a history as plain messages, none of which is over the limit.
pub fn render_semantic_transcript<M: SessionModel>(
    model: &M,
    cold_history: &[ResponseItem],
    max_model_visible_item_tokens: i64,
) -> (r: Result<SemanticTranscript, ExactTailError>)
    ensures
        match transcript_of(*model, item_views(cold_history@), max_model_visible_item_tokens) {
            Ok(state) => r is Ok && item_views(r->Ok_0.items@) == state.items
                && r->Ok_0.estimated_tokens == total_tokens(*model, state.items)
                && r->Ok_0.tool_observation_count == state.observations,
            Err(error) => r is Err && r->Err_0@ == error,
        },
{
    let ghost history = item_views(cold_history@);
    let limit: i64 = if max_model_visible_item_tokens < 1 {
        1
    } else {
        max_model_visible_item_tokens
    };
    let mut state = Told {
        items: Vec::new(),
        pending: Vec::new(),
        order: Vec::new(),
        observations: 0,
    };
    proof {
        assert(state@.items =~= Seq::<ItemView>::empty());
        assert(state@.pending =~= Seq::<(Seq<char>, CallView)>::empty());
        assert(state@.order =~= Seq::<Seq<char>>::empty());
        assert(history.subrange(0, 0) =~= Seq::<ItemView>::empty());
    }
    let len: usize = cold_history.len();
    let mut i: usize = 0;
    while i < len
        invariant
            i <= len == cold_history@.len(),
            history == item_views(cold_history@),
            limit == item_limit(max_model_visible_item_tokens),
            state.observations + state.order@.len() <= i,
            tell_items(*model, history.subrange(0, i as int), limit) == Ok::<ToldView, ErrorView>(
                state@,
            ),
        decreases len - i,
    {
        proof {
            let next = history.subrange(0, i + 1);
            assert(next.drop_last() =~= history.subrange(0, i as int));
            assert(next.last() == cold_history@[i as int]@);
        }
        if let Err(error) = tell_one(model, &mut state, &cold_history[i], limit) {
            proof {
                lemma_tell_items_error(*model, history, i + 1, limit);
            }
            return Err(error);
        }
        i += 1;
    }
    assert(history.subrange(0, i as int) =~= history);
    let ghost told = state@;
    let order = clone_list(&state.order);
    let ghost ids = list_view(order@);
    let ghost observed = state.observations;
    let mut k: usize = 0;
    assert(ids.subrange(0, 0) =~= Seq::<Seq<char>>::empty());
    assert(list_view(state.order@).len() == list_view(order@).len());
    while k < order.len()
        invariant
            k <= order@.len(),
            len == cold_history@.len(),
            history == item_views(cold_history@),
            limit == item_limit(max_model_visible_item_tokens),
            ids == list_view(order@),
            ids == told.order,
            tell_items(*model, history, limit) == Ok::<ToldView, ErrorView>(told),
            observed + order@.len() <= len,
            state.observations <= observed + k,
            tell_orphans(*model, told, ids.subrange(0, k as int), limit) == Ok::<
                ToldView,
                ErrorView,
            >(state@),
        decreases order@.len() - k,
    {
        proof {
            let next = ids.subrange(0, k + 1);
            assert(next.drop_last() =~= ids.subrange(0, k as int));
            assert(next.last() == order@[k as int]@);
        }
        if let Some(call) = state.close(&order[k]) {
            let text = tool_call_text(&call, None, None);
            if let Err(error) = state.observe(model, text, limit) {
                proof {
                    lemma_tell_orphans_error(*model, told, ids, k + 1, limit);
                }
                return Err(error);
            }
        }
        k += 1;
    }
    assert(ids.subrange(0, k as int) =~= ids);
    let estimated_tokens: i64 = estimate_items_tokens(model, state.items.as_slice());
    Ok(
        SemanticTranscript {
            items: state.items,
            estimated_tokens,
            tool_observation_count: state.observations,
        },
    )
}

// -- laws -------------------------------------------------------------------------------------

proof fn lemma_bounded_from<M: SessionModel>(
    model: M,
    role: Seq<char>,
    text: Seq<char>,
    phase: Option<MessagePhase>,
    limit: i64,
    budget: nat,
)
    ensures
        match bounded_from(model, role, text, phase, limit, budget) {
            Ok(item) => model.spec_item_tokens(item) <= limit && item.id is None && item.metadata
                is None && item.body is Message,
            Err(_) => true,
        },
    decreases budget,
{
    let item = told(role, truncated(text, budget), phase);
    if model.spec_item_tokens(item) > limit && 1 < budget <= usize::MAX {
        lemma_bounded_from(model, role, text, phase, limit, smaller_budget(budget));
    }
}

/// The item is a message without protocol ids, within the limit.
pub open spec fn clean<M: SessionModel>(model: M, item: ItemView, limit: i64) -> bool {
    &&& model.spec_item_tokens(item) <= limit
    &&& item.id is None
    &&& item.metadata is None
    &&& item.body is Message
}

pub open spec fn all_clean<M: SessionModel>(model: M, items: Seq<ItemView>, limit: i64) -> bool {
    forall|k: int| 0 <= k < items.len() ==> clean(model, #[trigger] items[k], limit)
}

proof fn lemma_say_clean<M: SessionModel>(
    model: M,
    state: ToldView,
    role: Seq<char>,
    text: Seq<char>,
    phase: Option<MessagePhase>,
    limit: i64,
)
    requires
        all_clean(model, state.items, limit),
    ensures
        match say(model, state, role, text, phase, limit) {
            Ok(after) => all_clean(model, after.items, limit),
            Err(_) => true,
        },
{
    lemma_bounded_from(model, role, text, phase, limit, message_budget(limit));
}

proof fn lemma_tell_item_clean<M: SessionModel>(
    model: M,
    state: ToldView,
    item: ItemView,
    limit: i64,
)
    requires
        all_clean(model, state.items, limit),
    ensures
        match tell_item(model, state, item, limit) {
            Ok(after) => all_clean(model, after.items, limit),
            Err(_) => true,
        },
{
    assert forall|s: ToldView, role: Seq<char>, text: Seq<char>, phase: Option<MessagePhase>|
        all_clean(model, s.items, limit) implies match #[trigger] say(
        model,
        s,
        role,
        text,
        phase,
        limit,
    ) {
        Ok(after) => all_clean(model, after.items, limit),
        Err(_) => true,
    } by {
        lemma_say_clean(model, s, role, text, phase, limit);
    }
}

proof fn lemma_tell_items_clean<M: SessionModel>(model: M, items: Seq<ItemView>, limit: i64)
    ensures
        match tell_items(model, items, limit) {
            Ok(after) => all_clean(model, after.items, limit),
            Err(_) => true,
        },
    decreases items.len(),
{
    if items.len() > 0 {
        lemma_tell_items_clean(model, items.drop_last(), limit);
        if let Ok(state) = tell_items(model, items.drop_last(), limit) {
            lemma_tell_item_clean(model, state, items.last(), limit);
        }
    }
}

proof fn lemma_tell_orphans_clean<M: SessionModel>(
    model: M,
    state: ToldView,
    order: Seq<Seq<char>>,
    limit: i64,
)
    requires
        all_clean(model, state.items, limit),
    ensures
        match tell_orphans(model, state, order, limit) {
            Ok(after) => all_clean(model, after.items, limit),
            Err(_) => true,
        },
    decreases order.len(),
{
    if order.len() > 0 {
        lemma_tell_orphans_clean(model, state, order.drop_last(), limit);
        if let Ok(so_far) = tell_orphans(model, state, order.drop_last(), limit) {
            if let (Some(call), rest) = close_call(so_far, order.last()) {
                lemma_say_clean(
                    model,
                    ToldView { observations: rest.observations + 1, ..rest },
                    "assistant"@,
                    observation(call, None, None),
                    None,
                    limit,
                );
            }
        }
    }
}

/// A transcript holds messages only, without ids and transport data, and none is over the limit.
pub proof fn law_transcript_is_clean<M: SessionModel>(
    model: M,
    history: Seq<ItemView>,
    max_model_visible_item_tokens: i64,
)
    ensures
        match transcript_of(model, history, max_model_visible_item_tokens) {
            Ok(state) => all_clean(model, state.items, item_limit(max_model_visible_item_tokens)),
            Err(_) => true,
        },
{
    let limit = item_limit(max_model_visible_item_tokens);
    lemma_tell_items_clean(model, history, limit);
    if let Ok(state) = tell_items(model, history, limit) {
        lemma_tell_orphans_clean(model, state, state.order, limit);
    }
}

} // verus!
