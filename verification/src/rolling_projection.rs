//! Fitting single items to the size that a model may see of one: tool calls and their outputs are
//! shortened, messages are split without losing text.

use crate::boundary::{
    boundary, byte_slice, floor_boundary, floor_char_boundary, lemma_floor_boundary,
    lemma_next_boundary, lemma_slice_whole, next_boundary, next_char_boundary, slice,
};
use crate::item::{
    clone_content, clone_option, content_views, item_views, list_view, option_view,
    web_search_option, BodyView, ContentItem, ContentView, ItemBody, ItemView, LocalShellExecAction,
    ResponseItem, ShellView, WebSearchAction, WebSearchView,
};
use crate::json::{json_array, json_array_text, json_quoted, json_string};
use crate::session_model::{
    truncate_function_output_payload, truncated_payload, SessionModel,
};
use crate::text::{byte_len, decimal, decimal_text, lemma_text_bytes_is_utf8_length};
use crate::tokens::{
    approx_bytes_for_tokens, approx_token_count, bytes_of_tokens, text_tokens, truncate_text,
    truncated,
};
use vstd::prelude::*;
use vstd::string::*;
use vstd::utf8::encode_utf8;

verus! {

// ---------------------------------------------------------------------------------------------
// Token budgets.
// ---------------------------------------------------------------------------------------------

/// The next smaller budget to try: nine tenths, and at least one less.
pub open spec fn shrunk_budget(budget: nat) -> nat {
    let product = if budget * 9 <= usize::MAX {
        budget * 9
    } else {
        usize::MAX as nat
    };
    let next = if product / 10 < 1 {
        1
    } else {
        product / 10
    };
    if next != budget {
        next
    } else if budget > 0 {
        (budget - 1) as nat
    } else {
        0
    }
}

pub fn shrink_token_budget(budget: usize) -> (next: usize)
    ensures
        next == shrunk_budget(budget as nat),
{
    let product: usize = match budget.checked_mul(9) {
        Some(product) => product,
        None => usize::MAX,
    };
    let next: usize = if product / 10 < 1 {
        1
    } else {
        product / 10
    };
    if next != budget {
        next
    } else if budget > 0 {
        budget - 1
    } else {
        0
    }
}

/// A budget of one token or more is followed by a smaller one.
pub proof fn law_budget_shrinks(budget: nat)
    requires
        1 <= budget <= usize::MAX,
    ensures
        shrunk_budget(budget) < budget,
{
}

/// The first budget, of those tried from `budget` on, that fits; one token is the last resort.
pub open spec fn fitted_budget(fits: spec_fn(nat) -> bool, budget: nat) -> nat
    decreases budget,
{
    if fits(budget) || budget <= 1 || budget > usize::MAX {
        budget
    } else {
        proof {
            law_budget_shrinks(budget);
        }
        fitted_budget(fits, shrunk_budget(budget))
    }
}

/// The budget in tokens that an item limit stands for.
pub open spec fn limit_budget(item_limit_tokens: i64) -> nat {
    if 0 <= item_limit_tokens <= usize::MAX {
        item_limit_tokens as nat
    } else {
        usize::MAX as nat
    }
}

fn limit_budget_exec(item_limit_tokens: i64) -> (budget: usize)
    ensures
        budget == limit_budget(item_limit_tokens),
{
    if item_limit_tokens >= 0 && (item_limit_tokens as u64) <= (usize::MAX as u64) {
        item_limit_tokens as usize
    } else {
        usize::MAX
    }
}

// ---------------------------------------------------------------------------------------------
// Tool calls and outputs.
// ---------------------------------------------------------------------------------------------

pub open spec fn with_body(item: ItemView, body: BodyView) -> ItemView {
    ItemView { id: item.id, metadata: item.metadata, body }
}

/// What stands for the arguments of a tool search that are too large.
pub open spec fn truncated_arguments_json(arguments: Seq<char>, tokens: nat) -> Seq<char> {
    "{\"arguments_json\":"@ + json_quoted(truncated(arguments, tokens))
        + ",\"type\":\"truncated_tool_search_arguments\"}"@
}

/// What stands for found tools that are too large.
pub open spec fn truncated_tools_json(tools: Seq<Seq<char>>, tokens: nat) -> Seq<char> {
    "{\"original_tool_count\":"@ + decimal(tools.len()) + ",\"tools_json\":"@ + json_quoted(
        truncated(json_array(tools), tokens),
    ) + ",\"type\":\"truncated_tool_search_output\"}"@
}

/// A web search whose text is cut down; its kind stays.
pub open spec fn shortened_web_search(action: WebSearchView, text: Seq<char>) -> WebSearchView {
    match action {
        WebSearchView::Search { query, queries } => WebSearchView::Search {
            query: Some(text),
            queries: None,
        },
        WebSearchView::OpenPage { url } => WebSearchView::OpenPage { url: Some(text) },
        WebSearchView::FindInPage { url, pattern } => WebSearchView::FindInPage {
            url: None,
            pattern: Some(text),
        },
        WebSearchView::Other => WebSearchView::Other,
    }
}

/// A shell command that only shows `text`.
pub open spec fn shell_text(text: Seq<char>) -> ShellView {
    ShellView {
        command: seq![text],
        timeout_ms: None,
        working_directory: None,
        env: None,
        user: None,
    }
}

/// The item with its variable part cut down to `tokens` tokens.
pub open spec fn shortened<M: SessionModel>(model: M, item: ItemView, tokens: nat) -> ItemView {
    match item.body {
        BodyView::FunctionCall { name, namespace, arguments, call_id } => with_body(
            item,
            BodyView::FunctionCall {
                name,
                namespace,
                arguments: truncated(arguments, tokens),
                call_id,
            },
        ),
        BodyView::CustomToolCall { status, call_id, name, input } => with_body(
            item,
            BodyView::CustomToolCall { status, call_id, name, input: truncated(input, tokens) },
        ),
        BodyView::FunctionCallOutput { call_id, output } => with_body(
            item,
            BodyView::FunctionCallOutput {
                call_id,
                output: truncated_payload(model, output, tokens),
            },
        ),
        BodyView::CustomToolCallOutput { call_id, name, output } => with_body(
            item,
            BodyView::CustomToolCallOutput {
                call_id,
                name,
                output: truncated_payload(model, output, tokens),
            },
        ),
        BodyView::ToolSearchCall { call_id, status, execution, arguments } => with_body(
            item,
            BodyView::ToolSearchCall {
                call_id,
                status,
                execution,
                arguments: truncated_arguments_json(arguments, tokens),
            },
        ),
        BodyView::ToolSearchOutput { call_id, status, execution, tools } => with_body(
            item,
            BodyView::ToolSearchOutput {
                call_id,
                status,
                execution,
                tools: seq![truncated_tools_json(tools, tokens)],
            },
        ),
        BodyView::WebSearchCall { status, action } => with_body(
            item,
            BodyView::WebSearchCall {
                status,
                action: match action {
                    Some(a) => Some(
                        shortened_web_search(
                            a,
                            truncated(model.spec_web_search_json(action), tokens),
                        ),
                    ),
                    None => None,
                },
            },
        ),
        BodyView::LocalShellCall { call_id, status, action } => with_body(
            item,
            BodyView::LocalShellCall {
                call_id,
                status,
                action: shell_text(truncated(model.spec_shell_json(action), tokens)),
            },
        ),
        _ => item,
    }
}

/// Items of this kind are left as they are while they keep to the limits.
pub open spec fn stays_whole<M: SessionModel>(
    model: M,
    item: ItemView,
    tool_output_limit_tokens: nat,
    item_limit_tokens: i64,
) -> bool {
    match item.body {
        BodyView::ToolSearchCall { .. }
        | BodyView::WebSearchCall { .. }
        | BodyView::LocalShellCall { .. } => model.spec_item_tokens(item) <= item_limit_tokens,
        BodyView::ToolSearchOutput { call_id, status, execution, tools } => text_tokens(
            json_array(tools),
        ) <= tool_output_limit_tokens && model.spec_item_tokens(item) <= item_limit_tokens,
        BodyView::FunctionCall { .. }
        | BodyView::CustomToolCall { .. }
        | BodyView::FunctionCallOutput { .. }
        | BodyView::CustomToolCallOutput { .. } => false,
        _ => true,
    }
}

/// The budget that is tried first: outputs start from the tool output limit, calls from the item
/// limit.
pub open spec fn first_budget(
    item: ItemView,
    tool_output_limit_tokens: nat,
    item_limit_tokens: i64,
) -> nat {
    match item.body {
        BodyView::FunctionCallOutput { .. }
        | BodyView::CustomToolCallOutput { .. }
        | BodyView::ToolSearchOutput { .. } => tool_output_limit_tokens,
        _ => limit_budget(item_limit_tokens),
    }
}

/// The item cut down to the first budget at which it keeps to the item limit.
pub open spec fn fitted_item<M: SessionModel>(
    model: M,
    item: ItemView,
    budget: nat,
    item_limit_tokens: i64,
) -> ItemView {
    shortened(
        model,
        item,
        fitted_budget(
            |b: nat| model.spec_item_tokens(shortened(model, item, b)) <= item_limit_tokens,
            budget,
        ),
    )
}

pub open spec fn image_with(
    item: ItemView,
    revised_prompt: Option<Seq<char>>,
    result: Seq<char>,
) -> ItemView {
    match item.body {
        BodyView::ImageGenerationCall { status, revised_prompt: _, result: _ } => with_body(
            item,
            BodyView::ImageGenerationCall { status, revised_prompt, result },
        ),
        _ => item,
    }
}

/// The prompt cut down to the first budget at which the item, with the given result, fits.
pub open spec fn fitted_prompt<M: SessionModel>(
    model: M,
    item: ItemView,
    revised_prompt: Option<Seq<char>>,
    result: Seq<char>,
    item_limit_tokens: i64,
) -> Option<Seq<char>> {
    match revised_prompt {
        None => None,
        Some(prompt) => Some(
            truncated(
                prompt,
                fitted_budget(
                    |b: nat|
                        model.spec_item_tokens(image_with(item, Some(truncated(prompt, b)), result))
                            <= item_limit_tokens,
                    limit_budget(item_limit_tokens),
                ),
            ),
        ),
    }
}

/// An image item: first its prompt is cut down; where that is not enough the image is dropped and
/// the prompt is fitted again; then what is left of the image is fitted.
pub open spec fn fitted_image<M: SessionModel>(
    model: M,
    item: ItemView,
    revised_prompt: Option<Seq<char>>,
    result: Seq<char>,
    tool_output_limit_tokens: nat,
    item_limit_tokens: i64,
) -> ItemView {
    let with_result = fitted_prompt(model, item, revised_prompt, result, item_limit_tokens);
    let keeps = model.spec_item_tokens(image_with(item, with_result, result)) <= item_limit_tokens;
    let kept_result = if keeps {
        result
    } else {
        Seq::empty()
    };
    let prompt = if keeps {
        with_result
    } else {
        fitted_prompt(model, item, revised_prompt, Seq::empty(), item_limit_tokens)
    };
    let budget = fitted_budget(
        |b: nat|
            model.spec_item_tokens(image_with(item, prompt, truncated(kept_result, b)))
                <= item_limit_tokens,
        tool_output_limit_tokens,
    );
    image_with(item, prompt, truncated(kept_result, budget))
}

/// The form in which a recorded item goes into a prompt.
pub open spec fn projected_item<M: SessionModel>(
    model: M,
    item: ItemView,
    tool_output_limit_tokens: nat,
    item_limit_tokens: i64,
) -> ItemView {
    match item.body {
        BodyView::ImageGenerationCall { status, revised_prompt, result } => fitted_image(
            model,
            item,
            revised_prompt,
            result,
            tool_output_limit_tokens,
            item_limit_tokens,
        ),
        _ => if stays_whole(model, item, tool_output_limit_tokens, item_limit_tokens) {
            item
        } else {
            fitted_item(
                model,
                item,
                first_budget(item, tool_output_limit_tokens, item_limit_tokens),
                item_limit_tokens,
            )
        },
    }
}

fn truncated_arguments(arguments: &str, tokens: usize) -> (json: String)
    ensures
        json@ == truncated_arguments_json(arguments@, tokens as nat),
{
    let mut json = String::from_str("{\"arguments_json\":");
    json.append(json_string(truncate_text(arguments, tokens).as_str()).as_str());
    json.append(",\"type\":\"truncated_tool_search_arguments\"}");
    json
}

fn truncated_tools(tools: &Vec<String>, tokens: usize) -> (json: String)
    ensures
        json@ == truncated_tools_json(list_view(tools@), tokens as nat),
{
    let all = json_array_text(tools);
    let mut json = String::from_str("{\"original_tool_count\":");
    json.append(decimal_text(tools.len() as u64).as_str());
    json.append(",\"tools_json\":");
    json.append(json_string(truncate_text(all.as_str(), tokens).as_str()).as_str());
    json.append(",\"type\":\"truncated_tool_search_output\"}");
    json
}

fn shorten_web_search<M: SessionModel>(
    model: &M,
    action: &Option<WebSearchAction>,
    tokens: usize,
) -> (r: Option<WebSearchAction>)
    ensures
        web_search_option(r) == match web_search_option(*action) {
            Some(a) => Some(
                shortened_web_search(
                    a,
                    truncated(
                        model.spec_web_search_json(web_search_option(*action)),
                        tokens as nat,
                    ),
                ),
            ),
            None => None,
        },
{
    match action {
        None => None,
        Some(a) => {
            let text = truncate_text(model.web_search_json(action).as_str(), tokens);
            Some(
                match a {
                    WebSearchAction::Search { .. } => WebSearchAction::Search {
                        query: Some(text),
                        queries: None,
                    },
                    WebSearchAction::OpenPage { .. } => WebSearchAction::OpenPage {
                        url: Some(text),
                    },
                    WebSearchAction::FindInPage { .. } => WebSearchAction::FindInPage {
                        url: None,
                        pattern: Some(text),
                    },
                    WebSearchAction::Other => WebSearchAction::Other,
                },
            )
        },
    }
}

/// Cuts the variable part of a tool item down to `tokens` tokens.
fn shorten_item<M: SessionModel>(model: &M, item: &ResponseItem, tokens: usize) -> (r: ResponseItem)
    ensures
        r@ == shortened(*model, item@, tokens as nat),
{
    let body = match &item.body {
        ItemBody::FunctionCall { name, namespace, arguments, call_id } => ItemBody::FunctionCall {
            name: name.clone(),
            namespace: clone_option(namespace),
            arguments: truncate_text(arguments.as_str(), tokens),
            call_id: call_id.clone(),
        },
        ItemBody::CustomToolCall { status, call_id, name, input } => ItemBody::CustomToolCall {
            status: clone_option(status),
            call_id: call_id.clone(),
            name: name.clone(),
            input: truncate_text(input.as_str(), tokens),
        },
        ItemBody::FunctionCallOutput { call_id, output } => ItemBody::FunctionCallOutput {
            call_id: call_id.clone(),
            output: truncate_function_output_payload(model, output, tokens),
        },
        ItemBody::CustomToolCallOutput { call_id, name, output } => {
            ItemBody::CustomToolCallOutput {
                call_id: call_id.clone(),
                name: clone_option(name),
                output: truncate_function_output_payload(model, output, tokens),
            }
        },
        ItemBody::ToolSearchCall { call_id, status, execution, arguments } => {
            ItemBody::ToolSearchCall {
                call_id: clone_option(call_id),
                status: clone_option(status),
                execution: execution.clone(),
                arguments: truncated_arguments(arguments.as_str(), tokens),
            }
        },
        ItemBody::ToolSearchOutput { call_id, status, execution, tools } => {
            let mut shown: Vec<String> = Vec::new();
            shown.push(truncated_tools(tools, tokens));
            assert(list_view(shown@) =~= seq![
                truncated_tools_json(list_view(tools@), tokens as nat),
            ]);
            ItemBody::ToolSearchOutput {
                call_id: clone_option(call_id),
                status: status.clone(),
                execution: execution.clone(),
                tools: shown,
            }
        },
        ItemBody::WebSearchCall { status, action } => ItemBody::WebSearchCall {
            status: clone_option(status),
            action: shorten_web_search(model, action, tokens),
        },
        ItemBody::LocalShellCall { call_id, status, action } => {
            let mut command: Vec<String> = Vec::new();
            command.push(truncate_text(model.shell_json(action).as_str(), tokens));
            assert(list_view(command@) =~= seq![
                truncated(model.spec_shell_json(action@), tokens as nat),
            ]);
            ItemBody::LocalShellCall {
                call_id: clone_option(call_id),
                status: *status,
                action: LocalShellExecAction {
                    command,
                    timeout_ms: None,
                    working_directory: None,
                    env: None,
                    user: None,
                },
            }
        },
        _ => item.body.clone(),
    };
    ResponseItem { id: clone_option(&item.id), metadata: clone_option(&item.metadata), body }
}

fn fit_item<M: SessionModel>(
    model: &M,
    item: &ResponseItem,
    budget: usize,
    item_limit_tokens: i64,
) -> (r: ResponseItem)
    ensures
        r@ == fitted_item(*model, item@, budget as nat, item_limit_tokens),
{
    let ghost fits = |b: nat|
        model.spec_item_tokens(shortened(*model, item@, b)) <= item_limit_tokens;
    let mut tokens: usize = budget;
    let mut candidate = shorten_item(model, item, tokens);
    while model.item_tokens(&candidate) > item_limit_tokens && tokens > 1
        invariant
            fits == (|b: nat|
                model.spec_item_tokens(shortened(*model, item@, b)) <= item_limit_tokens),
            candidate@ == shortened(*model, item@, tokens as nat),
            fitted_budget(fits, tokens as nat) == fitted_budget(fits, budget as nat),
        ensures
            fits(tokens as nat) || tokens <= 1,
        decreases tokens,
    {
        proof {
            law_budget_shrinks(tokens as nat);
        }
        tokens = shrink_token_budget(tokens);
        candidate = shorten_item(model, item, tokens);
    }
    candidate
}

fn image_item(item: &ResponseItem, revised_prompt: Option<String>, result: String) -> (r:
    ResponseItem)
    ensures
        r@ == image_with(item@, option_view(revised_prompt), result@),
{
    match &item.body {
        ItemBody::ImageGenerationCall { status, revised_prompt: _, result: _ } => ResponseItem {
            id: clone_option(&item.id),
            metadata: clone_option(&item.metadata),
            body: ItemBody::ImageGenerationCall { status: status.clone(), revised_prompt, result },
        },
        _ => item.clone(),
    }
}

fn fit_prompt<M: SessionModel>(
    model: &M,
    item: &ResponseItem,
    revised_prompt: &Option<String>,
    result: &String,
    item_limit_tokens: i64,
) -> (r: Option<String>)
    ensures
        option_view(r) == fitted_prompt(
            *model,
            item@,
            option_view(*revised_prompt),
            result@,
            item_limit_tokens,
        ),
{
    match revised_prompt {
        None => None,
        Some(prompt) => {
            let budget: usize = limit_budget_exec(item_limit_tokens);
            let ghost fits = |b: nat|
                model.spec_item_tokens(image_with(item@, Some(truncated(prompt@, b)), result@))
                    <= item_limit_tokens;
            let mut tokens: usize = budget;
            let mut shown = truncate_text(prompt.as_str(), tokens);
            while model.item_tokens(&image_item(item, Some(shown.clone()), result.clone()))
                > item_limit_tokens && tokens > 1
                invariant
                    fits == (|b: nat|
                        model.spec_item_tokens(
                            image_with(item@, Some(truncated(prompt@, b)), result@),
                        ) <= item_limit_tokens),
                    shown@ == truncated(prompt@, tokens as nat),
                    fitted_budget(fits, tokens as nat) == fitted_budget(fits, budget as nat),
                ensures
                    fits(tokens as nat) || tokens <= 1,
                decreases tokens,
            {
                proof {
                    law_budget_shrinks(tokens as nat);
                }
                tokens = shrink_token_budget(tokens);
                shown = truncate_text(prompt.as_str(), tokens);
            }
            Some(shown)
        },
    }
}

fn fit_image<M: SessionModel>(
    model: &M,
    item: &ResponseItem,
    revised_prompt: &Option<String>,
    result: &String,
    tool_output_limit_tokens: usize,
    item_limit_tokens: i64,
) -> (r: ResponseItem)
    ensures
        r@ == fitted_image(
            *model,
            item@,
            option_view(*revised_prompt),
            result@,
            tool_output_limit_tokens as nat,
            item_limit_tokens,
        ),
{
    let with_result = fit_prompt(model, item, revised_prompt, result, item_limit_tokens);
    let keeps = model.item_tokens(&image_item(item, clone_option(&with_result), result.clone()))
        <= item_limit_tokens;
    let kept_result = if keeps {
        result.clone()
    } else {
        String::new()
    };
    let prompt = if keeps {
        with_result
    } else {
        fit_prompt(model, item, revised_prompt, &kept_result, item_limit_tokens)
    };
    let ghost fits = |b: nat|
        model.spec_item_tokens(
            image_with(item@, option_view(prompt), truncated(kept_result@, b)),
        ) <= item_limit_tokens;
    let mut tokens: usize = tool_output_limit_tokens;
    let mut candidate = image_item(
        item,
        clone_option(&prompt),
        truncate_text(kept_result.as_str(), tokens),
    );
    while model.item_tokens(&candidate) > item_limit_tokens && tokens > 1
        invariant
            fits == (|b: nat|
                model.spec_item_tokens(
                    image_with(item@, option_view(prompt), truncated(kept_result@, b)),
                ) <= item_limit_tokens),
            candidate@ == image_with(
                item@,
                option_view(prompt),
                truncated(kept_result@, tokens as nat),
            ),
            fitted_budget(fits, tokens as nat) == fitted_budget(
                fits,
                tool_output_limit_tokens as nat,
            ),
        ensures
            fits(tokens as nat) || tokens <= 1,
        decreases tokens,
    {
        proof {
            law_budget_shrinks(tokens as nat);
        }
        tokens = shrink_token_budget(tokens);
        candidate = image_item(
            item,
            clone_option(&prompt),
            truncate_text(kept_result.as_str(), tokens),
        );
    }
    candidate
}

/// Fits a recorded item to what a model may see of one.
pub fn project_rolling_prompt_item<M: SessionModel>(
    model: &M,
    item: ResponseItem,
    tool_output_limit_tokens: usize,
    item_limit_tokens: i64,
) -> (r: ResponseItem)
    ensures
        r@ == projected_item(
            *model,
            item@,
            tool_output_limit_tokens as nat,
            item_limit_tokens,
        ),
{
    match &item.body {
        ItemBody::ImageGenerationCall { status: _, revised_prompt, result } => {
            return fit_image(
                model,
                &item,
                revised_prompt,
                result,
                tool_output_limit_tokens,
                item_limit_tokens,
            );
        },
        ItemBody::FunctionCall { .. } | ItemBody::CustomToolCall { .. } => {
            return fit_item(model, &item, limit_budget_exec(item_limit_tokens), item_limit_tokens);
        },
        ItemBody::FunctionCallOutput { .. } | ItemBody::CustomToolCallOutput { .. } => {
            return fit_item(model, &item, tool_output_limit_tokens, item_limit_tokens);
        },
        ItemBody::ToolSearchCall { .. }
        | ItemBody::WebSearchCall { .. }
        | ItemBody::LocalShellCall { .. } => {
            if model.item_tokens(&item) > item_limit_tokens {
                return fit_item(
                    model,
                    &item,
                    limit_budget_exec(item_limit_tokens),
                    item_limit_tokens,
                );
            }
        },
        ItemBody::ToolSearchOutput { call_id: _, status: _, execution: _, tools } => {
            let serialized = json_array_text(tools);
            if approx_token_count(serialized.as_str()) > tool_output_limit_tokens
                || model.item_tokens(&item) > item_limit_tokens {
                return fit_item(model, &item, tool_output_limit_tokens, item_limit_tokens);
            }
        },
        _ => {},
    }
    item
}

// ---------------------------------------------------------------------------------------------
// Splitting messages.
// ---------------------------------------------------------------------------------------------

/// The message with other content.
pub open spec fn with_content(item: ItemView, content: Seq<ContentView>) -> ItemView {
    match item.body {
        BodyView::Message { role, content: _, phase } => with_body(
            item,
            BodyView::Message { role, content, phase },
        ),
        _ => item,
    }
}

/// A text part, of input or of output.
pub open spec fn text_part(input: bool, text: Seq<char>) -> ContentView {
    if input {
        ContentView::InputText { text }
    } else {
        ContentView::OutputText { text }
    }
}

/// The tokens of the message if `text` were all it held.
pub open spec fn part_tokens<M: SessionModel>(
    model: M,
    item: ItemView,
    input: bool,
    text: Seq<char>,
) -> i64 {
    model.spec_item_tokens(with_content(item, seq![text_part(input, text)]))
}

/// Nine tenths of a length, at least one.
pub open spec fn shorter_length(length: int) -> int {
    let product = if length * 9 <= usize::MAX {
        length * 9
    } else {
        usize::MAX as int
    };
    if product / 10 < 1 {
        1
    } else {
        product / 10
    }
}

/// Where a chunk from `start` ends that is cut back from `end` until it keeps to the limit; one
/// character is the last resort.
pub open spec fn cut_back<M: SessionModel>(
    model: M,
    item: ItemView,
    input: bool,
    text: Seq<char>,
    start: int,
    end: int,
    limit: i64,
) -> int
    decreases end - start,
{
    if end <= start || part_tokens(model, item, input, slice(text, start, end)) <= limit {
        end
    } else {
        let next = floor_boundary(text, start + shorter_length(end - start));
        if next <= start || next >= end {
            next_boundary(text, start)
        } else {
            cut_back(model, item, input, text, start, next, limit)
        }
    }
}

/// The bytes that a chunk holds at most.
pub open spec fn chunk_bytes(limit: i64) -> int {
    let bytes = if 0 <= limit <= usize::MAX {
        bytes_of_tokens(limit as nat) as int
    } else {
        usize::MAX as int
    };
    if bytes < 1 {
        1
    } else {
        bytes
    }
}

/// Where the chunk that starts at `start` ends.
pub open spec fn chunk_end<M: SessionModel>(
    model: M,
    item: ItemView,
    input: bool,
    text: Seq<char>,
    start: int,
    limit: i64,
) -> int {
    let far = if start + chunk_bytes(limit) <= usize::MAX {
        start + chunk_bytes(limit)
    } else {
        usize::MAX as int
    };
    let end = floor_boundary(text, far);
    cut_back(
        model,
        item,
        input,
        text,
        start,
        if end <= start {
            next_boundary(text, start)
        } else {
            end
        },
        limit,
    )
}

/// The chunks of the text from `start` on.
pub open spec fn chunks_from<M: SessionModel>(
    model: M,
    item: ItemView,
    input: bool,
    text: Seq<char>,
    start: int,
    limit: i64,
) -> Seq<Seq<char>>
    decreases encode_utf8(text).len() - start,
{
    let end = chunk_end(model, item, input, text, start, limit);
    if start >= encode_utf8(text).len() || end <= start || end > encode_utf8(text).len() {
        Seq::empty()
    } else {
        seq![slice(text, start, end)] + chunks_from(model, item, input, text, end, limit)
    }
}

/// The pieces of a text: the text itself where it fits, else its chunks.
pub open spec fn text_pieces<M: SessionModel>(
    model: M,
    item: ItemView,
    input: bool,
    text: Seq<char>,
    limit: i64,
) -> Seq<Seq<char>> {
    if text.len() == 0 || part_tokens(model, item, input, text) <= limit {
        seq![text]
    } else {
        chunks_from(model, item, input, text, 0, limit)
    }
}

fn message_with(item: &ResponseItem, content: Vec<ContentItem>) -> (r: ResponseItem)
    ensures
        r@ == with_content(item@, content_views(content@)),
{
    match &item.body {
        ItemBody::Message { role, content: _, phase } => ResponseItem {
            id: clone_option(&item.id),
            metadata: clone_option(&item.metadata),
            body: ItemBody::Message { role: role.clone(), content, phase: *phase },
        },
        _ => item.clone(),
    }
}

fn part_of(input: bool, text: String) -> (part: ContentItem)
    ensures
        part@ == text_part(input, text@),
{
    if input {
        ContentItem::InputText { text }
    } else {
        ContentItem::OutputText { text }
    }
}

fn estimate_part<M: SessionModel>(
    model: &M,
    item: &ResponseItem,
    input: bool,
    text: String,
) -> (tokens: i64)
    ensures
        tokens == part_tokens(*model, item@, input, text@),
{
    let mut content: Vec<ContentItem> = Vec::new();
    content.push(part_of(input, text));
    assert(content_views(content@) =~= seq![text_part(input, text@)]);
    model.item_tokens(&message_with(item, content))
}

fn end_of_chunk<M: SessionModel>(
    model: &M,
    item: &ResponseItem,
    input: bool,
    text: &str,
    start: usize,
    limit: i64,
) -> (end: usize)
    requires
        start < encode_utf8(text@).len(),
        boundary(text@, start as int),
    ensures
        end == chunk_end(*model, item@, input, text@, start as int, limit),
        start < end <= encode_utf8(text@).len(),
        boundary(text@, end as int),
{
    let bytes: usize = if limit >= 0 && (limit as u64) <= (usize::MAX as u64) {
        approx_bytes_for_tokens(limit as usize)
    } else {
        usize::MAX
    };
    let bytes: usize = if bytes < 1 {
        1
    } else {
        bytes
    };
    let far: usize = start.saturating_add(bytes);
    proof {
        lemma_floor_boundary(text@, far as int);
        lemma_next_boundary(text@, start as int);
    }
    let mut end: usize = floor_char_boundary(text, far);
    if end <= start {
        end = next_char_boundary(text, start);
    }
    while estimate_part(model, item, input, byte_slice(text, start, end)) > limit
        invariant
            start < end <= encode_utf8(text@).len(),
            start < encode_utf8(text@).len(),
            boundary(text@, start as int),
            boundary(text@, end as int),
            chunk_end(*model, item@, input, text@, start as int, limit) == cut_back(
                *model,
                item@,
                input,
                text@,
                start as int,
                end as int,
                limit,
            ),
        ensures
            part_tokens(*model, item@, input, slice(text@, start as int, end as int)) <= limit,
        decreases end,
    {
        let length: usize = end - start;
        let product: usize = match length.checked_mul(9) {
            Some(product) => product,
            None => usize::MAX,
        };
        let shorter: usize = if product / 10 < 1 {
            1
        } else {
            product / 10
        };
        let next: usize = floor_char_boundary(text, start.saturating_add(shorter));
        proof {
            lemma_floor_boundary(text@, start + shorter);
            lemma_next_boundary(text@, start as int);
        }
        if next <= start || next >= end {
            return next_char_boundary(text, start);
        }
        end = next;
    }
    end
}

fn split_text_to_item_limit<M: SessionModel>(
    model: &M,
    item: &ResponseItem,
    input: bool,
    text: &str,
    limit: i64,
) -> (pieces: Vec<ContentItem>)
    ensures
        content_views(pieces@) == text_pieces(*model, item@, input, text@, limit).map_values(
            |piece: Seq<char>| text_part(input, piece),
        ),
{
    let ghost part = |piece: Seq<char>| text_part(input, piece);
    let mut pieces: Vec<ContentItem> = Vec::new();
    if text.is_empty() || estimate_part(model, item, input, text.to_owned()) <= limit {
        pieces.push(part_of(input, text.to_owned()));
        assert(content_views(pieces@) =~= seq![text@].map_values(part));
        return pieces;
    }
    let len: usize = byte_len(text);
    proof {
        lemma_text_bytes_is_utf8_length(text@);
        lemma_slice_whole(text@);
    }
    let mut start: usize = 0;
    assert(content_views(pieces@) + chunks_from(*model, item@, input, text@, 0, limit).map_values(
        part,
    ) =~= chunks_from(*model, item@, input, text@, 0, limit).map_values(part));
    while start < len
        invariant
            part == (|piece: Seq<char>| text_part(input, piece)),
            len == encode_utf8(text@).len(),
            start <= len,
            boundary(text@, start as int),
            content_views(pieces@) + chunks_from(
                *model,
                item@,
                input,
                text@,
                start as int,
                limit,
            ).map_values(part) == chunks_from(*model, item@, input, text@, 0, limit).map_values(
                part,
            ),
        decreases len - start,
    {
        let end: usize = end_of_chunk(model, item, input, text, start, limit);
        let ghost before = content_views(pieces@);
        pieces.push(part_of(input, byte_slice(text, start, end)));
        proof {
            let chunk = slice(text@, start as int, end as int);
            let rest = chunks_from(*model, item@, input, text@, end as int, limit);
            assert(content_views(pieces@) =~= before.push(part(chunk)));
            assert((seq![chunk] + rest).map_values(part) =~= seq![part(chunk)] + rest.map_values(
                part,
            ));
            assert(before.push(part(chunk)) + rest.map_values(part) =~= before + (seq![part(chunk)]
                + rest.map_values(part)));
        }
        start = end;
    }
    proof {
        let none = chunks_from(*model, item@, input, text@, start as int, limit);
        assert(none =~= Seq::<Seq<char>>::empty());
        assert(content_views(pieces@) + none.map_values(part) =~= content_views(pieces@));
    }
    pieces
}

/// The pieces of one part of a message.
pub open spec fn part_pieces<M: SessionModel>(
    model: M,
    item: ItemView,
    part: ContentView,
    limit: i64,
) -> Seq<ContentView> {
    match part {
        ContentView::InputText { text } => text_pieces(model, item, true, text, limit).map_values(
            |piece: Seq<char>| text_part(true, piece),
        ),
        ContentView::OutputText { text } => text_pieces(
            model,
            item,
            false,
            text,
            limit,
        ).map_values(|piece: Seq<char>| text_part(false, piece)),
        ContentView::InputImage { .. } => seq![part],
    }
}

fn split_content_item_to_item_limit<M: SessionModel>(
    model: &M,
    item: &ResponseItem,
    part: &ContentItem,
    limit: i64,
) -> (pieces: Vec<ContentItem>)
    ensures
        content_views(pieces@) == part_pieces(*model, item@, part@, limit),
{
    match part {
        ContentItem::InputText { text } => split_text_to_item_limit(
            model,
            item,
            true,
            text.as_str(),
            limit,
        ),
        ContentItem::OutputText { text } => split_text_to_item_limit(
            model,
            item,
            false,
            text.as_str(),
            limit,
        ),
        ContentItem::InputImage { .. } => {
            let mut pieces: Vec<ContentItem> = Vec::new();
            pieces.push(part.clone());
            assert(content_views(pieces@) =~= seq![part@]);
            pieces
        },
    }
}

/// The pieces of all parts, in order.
pub open spec fn content_pieces<M: SessionModel>(
    model: M,
    item: ItemView,
    content: Seq<ContentView>,
    limit: i64,
) -> Seq<ContentView>
    decreases content.len(),
{
    if content.len() == 0 {
        Seq::empty()
    } else {
        content_pieces(model, item, content.drop_last(), limit) + part_pieces(
            model,
            item,
            content.last(),
            limit,
        )
    }
}

/// The pieces packed into messages: a piece goes into the message at hand while that keeps to the
/// limit, and opens the next one otherwise. The last message is still open.
pub open spec fn packed<M: SessionModel>(
    model: M,
    item: ItemView,
    pieces: Seq<ContentView>,
    limit: i64,
) -> (Seq<ItemView>, Seq<ContentView>)
    decreases pieces.len(),
{
    if pieces.len() == 0 {
        (Seq::empty(), Seq::empty())
    } else {
        let (items, open) = packed(model, item, pieces.drop_last(), limit);
        let candidate = open.push(pieces.last());
        if model.spec_item_tokens(with_content(item, candidate)) <= limit || open.len() == 0 {
            (items, candidate)
        } else {
            (items.push(with_content(item, open)), seq![pieces.last()])
        }
    }
}

/// The messages that one message is split into.
pub open spec fn split_message<M: SessionModel>(
    model: M,
    item: ItemView,
    content: Seq<ContentView>,
    limit: i64,
) -> Seq<ItemView> {
    if model.spec_item_tokens(item) <= limit {
        seq![item]
    } else {
        let (items, open) = packed(model, item, content_pieces(model, item, content, limit), limit);
        if open.len() > 0 || items.len() == 0 {
            items.push(with_content(item, open))
        } else {
            items
        }
    }
}

/// The form in which a message whose text must not be lost goes into a prompt.
pub open spec fn projected_message<M: SessionModel>(
    model: M,
    item: ItemView,
    limit: i64,
) -> Seq<ItemView> {
    match item.body {
        BodyView::Message { role, content, phase } => split_message(model, item, content, limit),
        _ => seq![item],
    }
}

fn push_message_fragment_to_item_limit<M: SessionModel>(
    model: &M,
    item: &ResponseItem,
    items: &mut Vec<ResponseItem>,
    open: &mut Vec<ContentItem>,
    fragment: ContentItem,
    limit: i64,
)
    ensures
        ({
            let before = content_views(old(open)@);
            let candidate = before.push(fragment@);
            if model.spec_item_tokens(with_content(item@, candidate)) <= limit || before.len()
                == 0 {
                item_views(final(items)@) == item_views(old(items)@) && content_views(
                    final(open)@,
                ) == candidate
            } else {
                item_views(final(items)@) == item_views(old(items)@).push(
                    with_content(item@, before),
                ) && content_views(final(open)@) == seq![fragment@]
            }
        }),
{
    let ghost before = content_views(open@);
    let ghost all = item_views(items@);
    let mut candidate = clone_content(open);
    candidate.push(fragment.clone());
    assert(content_views(candidate@) =~= before.push(fragment@));
    if open.len() == 0 || model.item_tokens(&message_with(item, clone_content(&candidate)))
        <= limit {
        *open = candidate;
        return;
    }
    items.push(message_with(item, clone_content(open)));
    assert(item_views(items@) =~= all.push(with_content(item@, before)));
    let mut next: Vec<ContentItem> = Vec::new();
    next.push(fragment);
    assert(content_views(next@) =~= seq![fragment@]);
    *open = next;
}

proof fn lemma_packed_step<M: SessionModel>(
    model: M,
    item: ItemView,
    pieces: Seq<ContentView>,
    done: int,
    limit: i64,
)
    requires
        0 <= done < pieces.len(),
    ensures
        packed(model, item, pieces.subrange(0, done + 1), limit) == ({
            let (items, open) = packed(model, item, pieces.subrange(0, done), limit);
            let candidate = open.push(pieces[done]);
            if model.spec_item_tokens(with_content(item, candidate)) <= limit || open.len() == 0 {
                (items, candidate)
            } else {
                (items.push(with_content(item, open)), seq![pieces[done]])
            }
        }),
{
    let next = pieces.subrange(0, done + 1);
    assert(next.drop_last() =~= pieces.subrange(0, done));
    assert(next.last() == pieces[done]);
}

fn split_message_item_to_item_limit<M: SessionModel>(
    model: &M,
    item: ResponseItem,
    limit: i64,
) -> (r: Vec<ResponseItem>)
    requires
        item.body is Message,
    ensures
        item_views(r@) == split_message(*model, item@, item@.body->Message_content, limit),
{
    let mut items: Vec<ResponseItem> = Vec::new();
    if model.item_tokens(&item) <= limit {
        items.push(item);
        assert(item_views(items@) =~= seq![item@]);
        return items;
    }
    let mut open: Vec<ContentItem> = Vec::new();
    let ghost view = item@;
    match &item.body {
        ItemBody::Message { role: _, content, phase: _ } => {
            let ghost parts = content_views(content@);
            let ghost pieces = content_pieces(*model, view, parts, limit);
            let mut pending: Vec<ContentItem> = Vec::new();
            let mut i: usize = 0;
            assert(content_views(pending@) =~= content_pieces(
                *model,
                view,
                parts.subrange(0, 0),
                limit,
            ));
            while i < content.len()
                invariant
                    i <= content@.len(),
                    view == item@,
                    parts == content_views(content@),
                    content_views(pending@) == content_pieces(
                        *model,
                        view,
                        parts.subrange(0, i as int),
                        limit,
                    ),
                decreases content@.len() - i,
            {
                let mut more = split_content_item_to_item_limit(model, &item, &content[i], limit);
                proof {
                    let next = parts.subrange(0, i + 1);
                    assert(next.drop_last() =~= parts.subrange(0, i as int));
                    assert(next.last() == content@[i as int]@);
                    assert(content_views(pending@ + more@) =~= content_views(pending@)
                        + content_views(more@));
                }
                pending.append(&mut more);
                i += 1;
            }
            assert(parts.subrange(0, i as int) =~= parts);
            let mut k: usize = 0;
            proof {
                assert(pieces.subrange(0, 0) =~= Seq::<ContentView>::empty());
                assert(item_views(items@) =~= packed(*model, view, pieces.subrange(0, 0), limit).0);
                assert(content_views(open@) =~= packed(
                    *model,
                    view,
                    pieces.subrange(0, 0),
                    limit,
                ).1);
            }
            while k < pending.len()
                invariant
                    k <= pending@.len(),
                    view == item@,
                    pieces == content_views(pending@),
                    item_views(items@) == packed(
                        *model,
                        view,
                        pieces.subrange(0, k as int),
                        limit,
                    ).0,
                    content_views(open@) == packed(
                        *model,
                        view,
                        pieces.subrange(0, k as int),
                        limit,
                    ).1,
                decreases pending@.len() - k,
            {
                proof {
                    lemma_packed_step(*model, view, pieces, k as int, limit);
                    assert(pieces[k as int] == pending@[k as int]@);
                }
                push_message_fragment_to_item_limit(
                    model,
                    &item,
                    &mut items,
                    &mut open,
                    pending[k].clone(),
                    limit,
                );
                k += 1;
            }
            assert(pieces.subrange(0, k as int) =~= pieces);
        },
        _ => {},
    }
    if open.len() > 0 || items.len() == 0 {
        let ghost all = item_views(items@);
        let last = message_with(&item, open);
        items.push(last);
        assert(item_views(items@) =~= all.push(last@));
    }
    items
}

/// Splits a message that is over the limit; any other item stays as it is.
pub fn project_rolling_message_item<M: SessionModel>(
    model: &M,
    item: ResponseItem,
    item_limit_tokens: i64,
) -> (r: Vec<ResponseItem>)
    ensures
        item_views(r@) == projected_message(*model, item@, item_limit_tokens),
{
    match &item.body {
        ItemBody::Message { .. } => split_message_item_to_item_limit(
            model,
            item,
            item_limit_tokens,
        ),
        _ => {
            let mut items: Vec<ResponseItem> = Vec::new();
            items.push(item);
            assert(item_views(items@) =~= seq![item@]);
            items
        },
    }
}

} // verus!
