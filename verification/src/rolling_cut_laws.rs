//! How far an item is cut down for a prompt: no further than it must.

use crate::exact_tail_replacement_laws::text_cut;
use crate::item::{
    BodyView, ItemView, OutputBodyView, PayloadView, ShellView, WebSearchView,
};
use crate::json::{json_array, json_quoted};
use crate::rolling_projection::{
    fitted_budget, fitted_image, fitted_prompt, image_with, law_budget_shrinks, limit_budget,
    projected_item, shortened, shrunk_budget,
};
use crate::session_model::SessionModel;
use crate::text::{decimal, text_bytes};
use crate::tokens::{bytes_of_tokens, law_truncation_shows_both_ends, text_tokens, truncated};
use vstd::prelude::*;
use vstd::string::*;

verus! {

/// The budget is the largest one that was tried and fits: it is the first, or with about a tenth
/// more it would not fit; one token is the last that is tried.
pub open spec fn largest_that_fits(fits: spec_fn(nat) -> bool, first: nat, budget: nat) -> bool {
    &&& budget <= first
    &&& fits(budget) || budget <= 1
    &&& budget == first || exists|more: nat|
        budget < more <= first && 9 * more < 10 * budget + 20 && !#[trigger] fits(more)
}

proof fn lemma_fitted_budget_is_largest(fits: spec_fn(nat) -> bool, first: nat)
    requires
        first * 9 <= usize::MAX,
    ensures
        largest_that_fits(fits, first, fitted_budget(fits, first)),
    decreases first,
{
    if !(fits(first) || first <= 1) {
        law_budget_shrinks(first);
        let next = shrunk_budget(first);
        lemma_fitted_budget_is_largest(fits, next);
        let budget = fitted_budget(fits, first);
        if budget == next {
            assert(!fits(first));
            assert(budget < first && 9 * first < 10 * budget + 20);
        }
    }
}

/// The item with another text in the place of what it was called with.
pub open spec fn called_with(item: ItemView, text: Seq<char>) -> ItemView {
    match item.body {
        BodyView::FunctionCall { name, namespace, arguments, call_id } => ItemView {
            body: BodyView::FunctionCall { name, namespace, arguments: text, call_id },
            ..item
        },
        BodyView::CustomToolCall { status, call_id, name, input } => ItemView {
            body: BodyView::CustomToolCall { status, call_id, name, input: text },
            ..item
        },
        _ => item,
    }
}

/// What a call was called with.
pub open spec fn call_text(item: ItemView) -> Option<Seq<char>> {
    match item.body {
        BodyView::FunctionCall { name, namespace, arguments, call_id } => Some(arguments),
        BodyView::CustomToolCall { status, call_id, name, input } => Some(input),
        _ => None,
    }
}

/// A call that fits goes into a prompt as it is. Else only what it was called with is cut, to the
/// largest budget that was tried and fits.
pub proof fn law_calls_are_cut_no_more_than_they_must<M: SessionModel>(
    model: M,
    item: ItemView,
    tool_output_limit_tokens: nat,
    limit: i64,
)
    requires
        call_text(item) is Some,
        0 <= limit,
        limit * 9 <= usize::MAX,
    ensures
        ({
            let text = call_text(item)->Some_0;
            let sent = projected_item(model, item, tool_output_limit_tokens, limit);
            &&& text_bytes(text) <= limit * 4 && model.spec_item_tokens(item) <= limit ==> sent
                == item
            &&& exists|tokens: nat, shown: Seq<char>|
                {
                    &&& sent == called_with(item, shown)
                    &&& #[trigger] text_cut(shown, text, tokens)
                    &&& largest_that_fits(
                        |b: nat|
                            model.spec_item_tokens(called_with(item, truncated(text, b))) <= limit,
                        limit as nat,
                        tokens,
                    )
                }
        }),
{
    let text = call_text(item)->Some_0;
    let fits = |b: nat| model.spec_item_tokens(shortened(model, item, b)) <= limit;
    let plain = |b: nat| model.spec_item_tokens(called_with(item, truncated(text, b))) <= limit;
    assert forall|b: nat| fits(b) == #[trigger] plain(b) by {
        assert(shortened(model, item, b) == called_with(item, truncated(text, b)));
    }
    lemma_fitted_budget_is_largest(fits, limit as nat);
    let tokens = fitted_budget(fits, limit as nat);
    law_truncation_shows_both_ends(text, tokens);
    let shown = truncated(text, tokens);
    let sent = projected_item(model, item, tool_output_limit_tokens, limit);
    assert(sent == shortened(model, item, tokens));
    assert(sent == called_with(item, shown));
    assert(text_cut(shown, text, tokens));
    if tokens != limit {
        let more = choose|more: nat|
            tokens < more <= limit && 9 * more < 10 * tokens + 20 && !#[trigger] fits(more);
        assert(!plain(more));
    }
    assert(fits(tokens) == plain(tokens));
    assert(largest_that_fits(plain, limit as nat, tokens));
    assert(bytes_of_tokens(limit as nat) == limit * 4);
    if text_bytes(text) <= limit * 4 && model.spec_item_tokens(item) <= limit {
        assert(truncated(text, limit as nat) == text);
        assert(called_with(item, text) == item);
        assert(plain(limit as nat));
        assert(fits(limit as nat));
        assert(tokens == limit);
    }
}

/// The item with another payload in the place of what came back.
pub open spec fn returning(item: ItemView, output: PayloadView) -> ItemView {
    match item.body {
        BodyView::FunctionCallOutput { call_id, output: _ } => ItemView {
            body: BodyView::FunctionCallOutput { call_id, output },
            ..item
        },
        BodyView::CustomToolCallOutput { call_id, name, output: _ } => ItemView {
            body: BodyView::CustomToolCallOutput { call_id, name, output },
            ..item
        },
        _ => item,
    }
}

/// What came back from a call.
pub open spec fn returned(item: ItemView) -> Option<PayloadView> {
    match item.body {
        BodyView::FunctionCallOutput { call_id, output } => Some(output),
        BodyView::CustomToolCallOutput { call_id, name, output } => Some(output),
        _ => None,
    }
}

/// An output that keeps to the tool limit and fits goes into a prompt as it is. Else only what
/// came back is cut, to the largest budget from the tool limit on that was tried and fits.
pub proof fn law_outputs_are_cut_no_more_than_they_must<M: SessionModel>(
    model: M,
    item: ItemView,
    tool_limit: nat,
    limit: i64,
)
    requires
        returned(item) is Some,
        returned(item)->Some_0.body is Text,
        tool_limit * 9 <= usize::MAX,
    ensures
        ({
            let output = returned(item)->Some_0;
            let text = output.body->Text_0;
            let sent = projected_item(model, item, tool_limit, limit);
            &&& text_bytes(text) <= tool_limit * 4 && model.spec_item_tokens(item) <= limit ==> sent
                == item
            &&& exists|tokens: nat, shown: Seq<char>|
                {
                    &&& sent == returning(
                        item,
                        PayloadView { body: OutputBodyView::Text(shown), success: output.success },
                    )
                    &&& #[trigger] text_cut(shown, text, tokens)
                    &&& largest_that_fits(
                        |b: nat|
                            model.spec_item_tokens(
                                returning(
                                    item,
                                    PayloadView {
                                        body: OutputBodyView::Text(truncated(text, b)),
                                        success: output.success,
                                    },
                                ),
                            ) <= limit,
                        tool_limit,
                        tokens,
                    )
                }
        }),
{
    let output = returned(item)->Some_0;
    let text = output.body->Text_0;
    let fits = |b: nat| model.spec_item_tokens(shortened(model, item, b)) <= limit;
    let plain = |b: nat|
        model.spec_item_tokens(
            returning(
                item,
                PayloadView {
                    body: OutputBodyView::Text(truncated(text, b)),
                    success: output.success,
                },
            ),
        ) <= limit;
    assert forall|b: nat| fits(b) == #[trigger] plain(b) by {
        assert(shortened(model, item, b) == returning(
            item,
            PayloadView { body: OutputBodyView::Text(truncated(text, b)), success: output.success },
        ));
    }
    lemma_fitted_budget_is_largest(fits, tool_limit);
    let tokens = fitted_budget(fits, tool_limit);
    law_truncation_shows_both_ends(text, tokens);
    let shown = truncated(text, tokens);
    let sent = projected_item(model, item, tool_limit, limit);
    assert(sent == shortened(model, item, tokens));
    assert(text_cut(shown, text, tokens));
    if tokens != tool_limit {
        let more = choose|more: nat|
            tokens < more <= tool_limit && 9 * more < 10 * tokens + 20 && !#[trigger] fits(more);
        assert(!plain(more));
    }
    assert(fits(tokens) == plain(tokens));
    assert(largest_that_fits(plain, tool_limit, tokens));
    assert(bytes_of_tokens(tool_limit) == tool_limit * 4);
    if text_bytes(text) <= tool_limit * 4 && model.spec_item_tokens(item) <= limit {
        assert(truncated(text, tool_limit) == text);
        assert(returning(
            item,
            PayloadView { body: OutputBodyView::Text(text), success: output.success },
        ) == item);
        assert(plain(tool_limit));
        assert(fits(tool_limit));
        assert(tokens == tool_limit);
    }
}

/// Items of every other kind but generated images go into a prompt as they are where they fit.
pub proof fn law_items_that_fit_stay_as_they_are<M: SessionModel>(
    model: M,
    item: ItemView,
    tool_limit: nat,
    limit: i64,
)
    ensures
        ({
            let sent = projected_item(model, item, tool_limit, limit);
            &&& (item.body is ToolSearchCall || item.body is LocalShellCall
                || item.body is WebSearchCall) && model.spec_item_tokens(item) <= limit ==> sent
                == item
            &&& item.body is Message || item.body is Reasoning || item.body is AgentMessage
                || item.body is Compaction || item.body is ContextCompaction
                || item.body is CompactionTrigger || item.body is Other ==> sent == item
        }),
{
}

/// A generated image that fits, with its prompt and its result within their limits, goes into a
/// prompt as it is.
pub proof fn law_images_that_fit_stay_as_they_are<M: SessionModel>(
    model: M,
    item: ItemView,
    tool_limit: nat,
    limit: i64,
)
    requires
        item.body is ImageGenerationCall,
        item.body->ImageGenerationCall_revised_prompt matches Some(prompt) ==> text_bytes(prompt)
            <= limit * 4,
        text_bytes(item.body->ImageGenerationCall_result) <= tool_limit * 4,
        0 <= limit,
        limit * 4 <= usize::MAX,
        tool_limit * 4 <= usize::MAX,
        model.spec_item_tokens(item) <= limit,
    ensures
        projected_item(model, item, tool_limit, limit) == item,
{
    let prompt = item.body->ImageGenerationCall_revised_prompt;
    let result = item.body->ImageGenerationCall_result;
    assert(image_with(item, prompt, result) == item);
    assert(bytes_of_tokens(tool_limit) == tool_limit * 4);
    assert(truncated(result, tool_limit) == result);
    if let Some(text) = prompt {
        assert(bytes_of_tokens(limit as nat) == limit * 4);
        assert(truncated(text, limit as nat) == text);
        let fits = |b: nat|
            model.spec_item_tokens(image_with(item, Some(truncated(text, b)), result)) <= limit;
        assert(fits(limit as nat));
        assert(fitted_budget(fits, limit as nat) == limit);
        assert(limit_budget(limit) == limit);
    }
    assert(fitted_prompt(model, item, prompt, result, limit) == prompt);
    let fits = |b: nat|
        model.spec_item_tokens(image_with(item, prompt, truncated(result, b))) <= limit;
    assert(fits(tool_limit));
    assert(fitted_budget(fits, tool_limit) == tool_limit);
    assert(fitted_image(model, item, prompt, result, tool_limit, limit) == image_with(
        item,
        prompt,
        truncated(result, tool_limit),
    ));
}

/// The tools that a search found go into a prompt as they are where their list keeps to the tool
/// limit and the item fits. Else one entry stands for them: how many they were, and as much of the
/// list as the largest budget shows that was tried and fits.
pub proof fn law_found_tools_are_cut_no_more_than_they_must<M: SessionModel>(
    model: M,
    item: ItemView,
    tool_limit: nat,
    limit: i64,
)
    requires
        item.body is ToolSearchOutput,
        tool_limit * 9 <= usize::MAX,
    ensures
        ({
            let tools = item.body->ToolSearchOutput_tools;
            let sent = projected_item(model, item, tool_limit, limit);
            let fits = text_tokens(json_array(tools)) <= tool_limit && model.spec_item_tokens(item)
                <= limit;
            &&& fits ==> sent == item
            &&& !fits ==> exists|tokens: nat|
                {
                    &&& #[trigger] found_tools(item, tokens) == sent
                    &&& largest_that_fits(
                        |b: nat| model.spec_item_tokens(found_tools(item, b)) <= limit,
                        tool_limit,
                        tokens,
                    )
                }
        }),
{
    let fits = |b: nat| model.spec_item_tokens(shortened(model, item, b)) <= limit;
    let plain = |b: nat| model.spec_item_tokens(found_tools(item, b)) <= limit;
    assert forall|b: nat| fits(b) == #[trigger] plain(b) by {
        assert(shortened(model, item, b) == found_tools(item, b));
    }
    lemma_fitted_budget_is_largest(fits, tool_limit);
    let tokens = fitted_budget(fits, tool_limit);
    if tokens != tool_limit {
        let more = choose|more: nat|
            tokens < more <= tool_limit && 9 * more < 10 * tokens + 20 && !#[trigger] fits(more);
        assert(!plain(more));
    }
    assert(fits(tokens) == plain(tokens));
    assert(largest_that_fits(plain, tool_limit, tokens));
    assert(found_tools(item, tokens) == shortened(model, item, tokens));
}

/// The item with one entry in the place of the tools.
pub open spec fn found_tools(item: ItemView, tokens: nat) -> ItemView {
    match item.body {
        BodyView::ToolSearchOutput { call_id, status, execution, tools } => ItemView {
            body: BodyView::ToolSearchOutput {
                call_id,
                status,
                execution,
                tools: seq![
                    "{\"original_tool_count\":"@ + decimal(tools.len()) + ",\"tools_json\":"@
                        + json_quoted(truncated(json_array(tools), tokens))
                        + ",\"type\":\"truncated_tool_search_output\"}"@,
                ],
            },
            ..item
        },
        _ => item,
    }
}

/// The item with what it shows of its command, its search or its arguments cut to a budget.
pub open spec fn showing<M: SessionModel>(model: M, item: ItemView, tokens: nat) -> ItemView {
    match item.body {
        BodyView::ToolSearchCall { call_id, status, execution, arguments } => ItemView {
            body: BodyView::ToolSearchCall {
                call_id,
                status,
                execution,
                arguments: "{\"arguments_json\":"@ + json_quoted(truncated(arguments, tokens))
                    + ",\"type\":\"truncated_tool_search_arguments\"}"@,
            },
            ..item
        },
        BodyView::LocalShellCall { call_id, status, action } => ItemView {
            body: BodyView::LocalShellCall {
                call_id,
                status,
                action: ShellView {
                    command: seq![truncated(model.spec_shell_json(action), tokens)],
                    timeout_ms: None,
                    working_directory: None,
                    env: None,
                    user: None,
                },
            },
            ..item
        },
        BodyView::WebSearchCall { status, action: Some(action) } => {
            let text = truncated(model.spec_web_search_json(Some(action)), tokens);
            ItemView {
                body: BodyView::WebSearchCall {
                    status,
                    action: Some(
                        match action {
                            WebSearchView::Search { query, queries } => WebSearchView::Search {
                                query: Some(text),
                                queries: None,
                            },
                            WebSearchView::OpenPage { url } => WebSearchView::OpenPage {
                                url: Some(text),
                            },
                            WebSearchView::FindInPage { url, pattern } => {
                                WebSearchView::FindInPage { url: None, pattern: Some(text) }
                            },
                            WebSearchView::Other => WebSearchView::Other,
                        },
                    ),
                },
                ..item
            }
        },
        _ => item,
    }
}

/// A tool search, a shell command or a web search that does not fit shows as much of itself as the
/// largest budget allows that was tried and fits.
pub proof fn law_searches_and_commands_are_cut_no_more_than_they_must<M: SessionModel>(
    model: M,
    item: ItemView,
    tool_limit: nat,
    limit: i64,
)
    requires
        item.body is ToolSearchCall || item.body is LocalShellCall || item.body is WebSearchCall,
        model.spec_item_tokens(item) > limit,
        0 <= limit,
        limit * 9 <= usize::MAX,
    ensures
        exists|tokens: nat|
            {
                &&& #[trigger] showing(model, item, tokens) == projected_item(
                    model,
                    item,
                    tool_limit,
                    limit,
                )
                &&& largest_that_fits(
                    |b: nat| model.spec_item_tokens(showing(model, item, b)) <= limit,
                    limit as nat,
                    tokens,
                )
            },
{
    let fits = |b: nat| model.spec_item_tokens(shortened(model, item, b)) <= limit;
    let plain = |b: nat| model.spec_item_tokens(showing(model, item, b)) <= limit;
    assert forall|b: nat| fits(b) == #[trigger] plain(b) by {
        assert(shortened(model, item, b) == showing(model, item, b));
    }
    lemma_fitted_budget_is_largest(fits, limit as nat);
    let tokens = fitted_budget(fits, limit as nat);
    if tokens != limit {
        let more = choose|more: nat|
            tokens < more <= limit && 9 * more < 10 * tokens + 20 && !#[trigger] fits(more);
        assert(!plain(more));
    }
    assert(fits(tokens) == plain(tokens));
    assert(largest_that_fits(plain, limit as nat, tokens));
    assert(showing(model, item, tokens) == shortened(model, item, tokens));
}

} // verus!
