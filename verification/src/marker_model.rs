//! A session that tells generated context from conversation by its markers, and the size of an
//! item by the length of its texts.

use crate::fragments::{
    ContextualUserFragment, ExtensionContextualUserFragment, RollctxSummaryGroupContext,
    RollingInvariantDeveloperContext,
};
use crate::item::{
    agent_views, content_views, item_views, list_view, option_list_view, option_view,
    web_search_option, AgentContent, AgentContentView, BodyView, ContentItem, ContentView,
    FunctionCallOutputBody, FunctionCallOutputPayload, ItemBody, ItemView, LocalShellExecAction, LocalShellStatus,
    MessagePhase,
    OutputBodyView, PayloadView, ResponseItem, ShellView, WebSearchAction, WebSearchView,
};
use crate::json::{json_array, json_array_text, json_quoted, json_string};
use crate::rolling_context_filter::{is_message_of, message_of, same_text};
use crate::rolling_groups::{
    call_key, key_option, output_key, spec_call_key, spec_output_key, KeyView, ToolPairKey,
};
use crate::session_model::{
    saturating, saturating_add, total_tokens, InputModality, SessionModel,
};
use crate::stream::{append_content, whole_text};
use crate::text::{between_markers, blank, decimal, decimal_text, is_blank, matches_markers};
use crate::tokens::{approx_token_count, text_tokens, truncate_text, truncated};
use vstd::prelude::*;
use vstd::string::*;

verus! {

/// What generated text begins and ends with.
#[derive(Debug)]
pub struct MarkerPair {
    pub start: String,
    pub end: String,
}

/// The text stands between one of the pairs.
pub open spec fn marked(pairs: Seq<MarkerPair>, text: Seq<char>) -> bool {
    exists|k: int|
        0 <= k < pairs.len() && between_markers(text, (#[trigger] pairs[k]).start@, pairs[k].end@)
}

fn is_marked(pairs: &Vec<MarkerPair>, text: &str) -> (r: bool)
    ensures
        r == marked(pairs@, text@),
{
    let mut i: usize = 0;
    while i < pairs.len()
        invariant
            i <= pairs@.len(),
            forall|k: int|
                0 <= k < i ==> !between_markers(
                    text@,
                    (#[trigger] pairs@[k]).start@,
                    pairs@[k].end@,
                ),
        decreases pairs@.len() - i,
    {
        if matches_markers(text, pairs[i].start.as_str(), pairs[i].end.as_str()) {
            return true;
        }
        i += 1;
    }
    false
}

/// The session's markers and names.
#[derive(Debug)]
pub struct MarkerModel {
    /// Developer text that is generated anew for every request.
    pub developer_markers: Vec<MarkerPair>,
    /// User text that is generated, beside the kinds that are known here.
    pub user_markers: Vec<MarkerPair>,
    pub environment: MarkerPair,
    pub instructions: MarkerPair,
    pub hook_prompt: MarkerPair,
    /// Text of the assistant by which one agent instructs another.
    pub delegation: MarkerPair,
    /// The tokens that an item takes beside its texts.
    pub item_overhead_tokens: u32,
    pub summary_prefix: String,
    pub code_tool_name: String,
}

// ---------------------------------------------------------------------------------------------
// The size of an item.
// ---------------------------------------------------------------------------------------------

/// The tokens with those of a text added.
pub open spec fn plus(total: i64, text: Seq<char>) -> i64 {
    let tokens = text_tokens(text);
    saturating(
        total + if tokens <= i64::MAX {
            tokens as int
        } else {
            i64::MAX as int
        },
    )
}

fn add_text(total: i64, text: &str) -> (r: i64)
    ensures
        r == plus(total, text@),
{
    let tokens: usize = approx_token_count(text);
    let tokens: i64 = if tokens as u64 <= i64::MAX as u64 {
        tokens as i64
    } else {
        i64::MAX
    };
    saturating_add(total, tokens)
}

pub open spec fn plus_option(total: i64, text: Option<Seq<char>>) -> i64 {
    match text {
        Some(text) => plus(total, text),
        None => total,
    }
}

fn add_option(total: i64, text: &Option<String>) -> (r: i64)
    ensures
        r == plus_option(total, option_view(*text)),
{
    match text {
        Some(text) => add_text(total, text.as_str()),
        None => total,
    }
}

pub open spec fn plus_all(total: i64, list: Seq<Seq<char>>) -> i64
    decreases list.len(),
{
    if list.len() == 0 {
        total
    } else {
        plus(plus_all(total, list.drop_last()), list.last())
    }
}

fn add_all(total: i64, list: &Vec<String>) -> (r: i64)
    ensures
        r == plus_all(total, list_view(list@)),
{
    let ghost all = list_view(list@);
    let mut sum: i64 = total;
    let mut i: usize = 0;
    assert(all.subrange(0, 0) =~= Seq::<Seq<char>>::empty());
    while i < list.len()
        invariant
            i <= list@.len(),
            all == list_view(list@),
            sum == plus_all(total, all.subrange(0, i as int)),
        decreases list@.len() - i,
    {
        proof {
            let next = all.subrange(0, i + 1);
            assert(next.drop_last() =~= all.subrange(0, i as int));
            assert(next.last() == list@[i as int]@);
        }
        sum = add_text(sum, list[i].as_str());
        i += 1;
    }
    assert(all.subrange(0, i as int) =~= all);
    sum
}

pub open spec fn plus_option_list(total: i64, list: Option<Seq<Seq<char>>>) -> i64 {
    match list {
        Some(list) => plus_all(total, list),
        None => total,
    }
}

fn add_option_list(total: i64, list: &Option<Vec<String>>) -> (r: i64)
    ensures
        r == plus_option_list(total, option_list_view(*list)),
{
    match list {
        Some(list) => add_all(total, list),
        None => total,
    }
}

pub open spec fn plus_content(total: i64, content: Seq<ContentView>) -> i64
    decreases content.len(),
{
    if content.len() == 0 {
        total
    } else {
        let before = plus_content(total, content.drop_last());
        match content.last() {
            ContentView::InputText { text } => plus(before, text),
            ContentView::OutputText { text } => plus(before, text),
            ContentView::InputImage { image_url, detail } => plus(before, image_url),
        }
    }
}

fn add_content(total: i64, content: &Vec<ContentItem>) -> (r: i64)
    ensures
        r == plus_content(total, content_views(content@)),
{
    let ghost all = content_views(content@);
    let mut sum: i64 = total;
    let mut i: usize = 0;
    assert(all.subrange(0, 0) =~= Seq::<ContentView>::empty());
    while i < content.len()
        invariant
            i <= content@.len(),
            all == content_views(content@),
            sum == plus_content(total, all.subrange(0, i as int)),
        decreases content@.len() - i,
    {
        proof {
            let next = all.subrange(0, i + 1);
            assert(next.drop_last() =~= all.subrange(0, i as int));
            assert(next.last() == content@[i as int]@);
        }
        sum = match &content[i] {
            ContentItem::InputText { text } => add_text(sum, text.as_str()),
            ContentItem::OutputText { text } => add_text(sum, text.as_str()),
            ContentItem::InputImage { image_url, detail: _ } => add_text(sum, image_url.as_str()),
        };
        i += 1;
    }
    assert(all.subrange(0, i as int) =~= all);
    sum
}

pub open spec fn plus_agent(total: i64, content: Seq<AgentContentView>) -> i64
    decreases content.len(),
{
    if content.len() == 0 {
        total
    } else {
        let before = plus_agent(total, content.drop_last());
        match content.last() {
            AgentContentView::InputText { text } => plus(before, text),
            AgentContentView::EncryptedContent { encrypted_content } => plus(
                before,
                encrypted_content,
            ),
        }
    }
}

fn add_agent(total: i64, content: &Vec<AgentContent>) -> (r: i64)
    ensures
        r == plus_agent(total, agent_views(content@)),
{
    let ghost all = agent_views(content@);
    let mut sum: i64 = total;
    let mut i: usize = 0;
    assert(all.subrange(0, 0) =~= Seq::<AgentContentView>::empty());
    while i < content.len()
        invariant
            i <= content@.len(),
            all == agent_views(content@),
            sum == plus_agent(total, all.subrange(0, i as int)),
        decreases content@.len() - i,
    {
        proof {
            let next = all.subrange(0, i + 1);
            assert(next.drop_last() =~= all.subrange(0, i as int));
            assert(next.last() == content@[i as int]@);
        }
        sum = match &content[i] {
            AgentContent::InputText { text } => add_text(sum, text.as_str()),
            AgentContent::EncryptedContent { encrypted_content } => add_text(
                sum,
                encrypted_content.as_str(),
            ),
        };
        i += 1;
    }
    assert(all.subrange(0, i as int) =~= all);
    sum
}

pub open spec fn plus_payload(total: i64, output: PayloadView) -> i64 {
    match output.body {
        OutputBodyView::Text(text) => plus(total, text),
        OutputBodyView::ContentItems { encoded, text } => plus(total, encoded),
    }
}

fn add_payload(total: i64, output: &FunctionCallOutputPayload) -> (r: i64)
    ensures
        r == plus_payload(total, output@),
{
    match &output.body {
        FunctionCallOutputBody::Text(text) => add_text(total, text.as_str()),
        FunctionCallOutputBody::ContentItems { encoded, text: _ } => add_text(
            total,
            encoded.as_str(),
        ),
    }
}

pub open spec fn plus_search(total: i64, action: Option<WebSearchView>) -> i64 {
    match action {
        Some(WebSearchView::Search { query, queries }) => plus_option_list(
            plus_option(total, query),
            queries,
        ),
        Some(WebSearchView::OpenPage { url }) => plus_option(total, url),
        Some(WebSearchView::FindInPage { url, pattern }) => plus_option(
            plus_option(total, url),
            pattern,
        ),
        Some(WebSearchView::Other) => total,
        None => total,
    }
}

fn add_search(total: i64, action: &Option<WebSearchAction>) -> (r: i64)
    ensures
        r == plus_search(total, web_search_option(*action)),
{
    match action {
        Some(WebSearchAction::Search { query, queries }) => add_option_list(
            add_option(total, query),
            queries,
        ),
        Some(WebSearchAction::OpenPage { url }) => add_option(total, url),
        Some(WebSearchAction::FindInPage { url, pattern }) => add_option(
            add_option(total, url),
            pattern,
        ),
        Some(WebSearchAction::Other) => total,
        None => total,
    }
}

/// The tokens of the texts that an item holds, on top of `total`.
pub open spec fn plus_body(total: i64, body: BodyView) -> i64 {
    match body {
        BodyView::Message { role, content, phase } => plus_content(plus(total, role), content),
        BodyView::AgentMessage { author, recipient, content } => plus_agent(
            plus(plus(total, author), recipient),
            content,
        ),
        BodyView::Reasoning { summary, content, encrypted_content } => plus_option(
            plus_option_list(plus_all(total, summary), content),
            encrypted_content,
        ),
        BodyView::FunctionCall { name, namespace, arguments, call_id } => plus(
            plus(plus_option(plus(total, name), namespace), arguments),
            call_id,
        ),
        BodyView::FunctionCallOutput { call_id, output } => plus_payload(
            plus(total, call_id),
            output,
        ),
        BodyView::CustomToolCall { status, call_id, name, input } => plus(
            plus(plus(plus_option(total, status), call_id), name),
            input,
        ),
        BodyView::CustomToolCallOutput { call_id, name, output } => plus_payload(
            plus_option(plus(total, call_id), name),
            output,
        ),
        BodyView::ToolSearchCall { call_id, status, execution, arguments } => plus(
            plus(plus_option(plus_option(total, call_id), status), execution),
            arguments,
        ),
        BodyView::ToolSearchOutput { call_id, status, execution, tools } => plus_all(
            plus(plus(plus_option(total, call_id), status), execution),
            tools,
        ),
        BodyView::LocalShellCall { call_id, status, action } => plus_option(
            plus_option_list(
                plus_option(
                    plus_all(plus_option(total, call_id), action.command),
                    action.working_directory,
                ),
                action.env,
            ),
            action.user,
        ),
        BodyView::WebSearchCall { status, action } => plus_search(
            plus_option(total, status),
            action,
        ),
        BodyView::ImageGenerationCall { status, revised_prompt, result } => plus(
            plus_option(plus(total, status), revised_prompt),
            result,
        ),
        BodyView::Compaction { encrypted_content } => plus(total, encrypted_content),
        BodyView::CompactionTrigger => total,
        BodyView::ContextCompaction { encrypted_content } => plus_option(total, encrypted_content),
        BodyView::Other => total,
    }
}

fn add_body(total: i64, body: &ItemBody) -> (r: i64)
    ensures
        r == plus_body(total, body@),
{
    match body {
        ItemBody::Message { role, content, phase: _ } => add_content(
            add_text(total, role.as_str()),
            content,
        ),
        ItemBody::AgentMessage { author, recipient, content } => add_agent(
            add_text(add_text(total, author.as_str()), recipient.as_str()),
            content,
        ),
        ItemBody::Reasoning { summary, content, encrypted_content } => add_option(
            add_option_list(add_all(total, summary), content),
            encrypted_content,
        ),
        ItemBody::FunctionCall { name, namespace, arguments, call_id } => add_text(
            add_text(add_option(add_text(total, name.as_str()), namespace), arguments.as_str()),
            call_id.as_str(),
        ),
        ItemBody::FunctionCallOutput { call_id, output } => add_payload(
            add_text(total, call_id.as_str()),
            output,
        ),
        ItemBody::CustomToolCall { status, call_id, name, input } => add_text(
            add_text(add_text(add_option(total, status), call_id.as_str()), name.as_str()),
            input.as_str(),
        ),
        ItemBody::CustomToolCallOutput { call_id, name, output } => add_payload(
            add_option(add_text(total, call_id.as_str()), name),
            output,
        ),
        ItemBody::ToolSearchCall { call_id, status, execution, arguments } => add_text(
            add_text(add_option(add_option(total, call_id), status), execution.as_str()),
            arguments.as_str(),
        ),
        ItemBody::ToolSearchOutput { call_id, status, execution, tools } => add_all(
            add_text(add_text(add_option(total, call_id), status.as_str()), execution.as_str()),
            tools,
        ),
        ItemBody::LocalShellCall { call_id, status: _, action } => add_option(
            add_option_list(
                add_option(
                    add_all(add_option(total, call_id), &action.command),
                    &action.working_directory,
                ),
                &action.env,
            ),
            &action.user,
        ),
        ItemBody::WebSearchCall { status, action } => add_search(
            add_option(total, status),
            action,
        ),
        ItemBody::ImageGenerationCall { status, revised_prompt, result } => add_text(
            add_option(add_text(total, status.as_str()), revised_prompt),
            result.as_str(),
        ),
        ItemBody::Compaction { encrypted_content } => add_text(total, encrypted_content.as_str()),
        ItemBody::CompactionTrigger => total,
        ItemBody::ContextCompaction { encrypted_content } => add_option(total, encrypted_content),
        ItemBody::Other => total,
    }
}

/// The tokens of items that each take `overhead` beside their texts.
pub open spec fn plus_items(overhead: i64, items: Seq<ItemView>) -> i64
    decreases items.len(),
{
    if items.len() == 0 {
        0
    } else {
        saturating(plus_items(overhead, items.drop_last()) + plus_body(overhead, items.last().body))
    }
}

fn add_items(overhead: i64, items: &Vec<ResponseItem>) -> (r: i64)
    ensures
        r == plus_items(overhead, item_views(items@)),
{
    let ghost all = item_views(items@);
    let mut sum: i64 = 0;
    let mut i: usize = 0;
    assert(all.subrange(0, 0) =~= Seq::<ItemView>::empty());
    while i < items.len()
        invariant
            i <= items@.len(),
            all == item_views(items@),
            sum == plus_items(overhead, all.subrange(0, i as int)),
        decreases items@.len() - i,
    {
        proof {
            let next = all.subrange(0, i + 1);
            assert(next.drop_last() =~= all.subrange(0, i as int));
            assert(next.last() == items@[i as int]@);
        }
        sum = saturating_add(sum, add_body(overhead, &items[i].body));
        i += 1;
    }
    assert(all.subrange(0, i as int) =~= all);
    sum
}

// ---------------------------------------------------------------------------------------------
// JSON forms.
// ---------------------------------------------------------------------------------------------

/// An object with a field more, if there is a value for it.
pub open spec fn field(object: Seq<char>, name: Seq<char>, value: Option<Seq<char>>) -> Seq<char> {
    match value {
        Some(value) => object + ",\""@ + name + "\":"@ + value,
        None => object,
    }
}

fn add_field(object: &mut String, name: &str, value: &Option<String>)
    ensures
        final(object)@ == field(old(object)@, name@, option_view(*value)),
{
    if let Some(value) = value {
        object.append(",\"");
        object.append(name);
        object.append("\":");
        object.append(value.as_str());
    }
}

pub open spec fn quoted_option(text: Option<Seq<char>>) -> Option<Seq<char>> {
    match text {
        Some(text) => Some(json_quoted(text)),
        None => None,
    }
}

fn quote_option(text: &Option<String>) -> (r: Option<String>)
    ensures
        option_view(r) == quoted_option(option_view(*text)),
{
    match text {
        Some(text) => Some(json_string(text.as_str())),
        None => None,
    }
}

pub open spec fn quoted_list(list: Seq<Seq<char>>) -> Seq<char> {
    json_array(list.map_values(|t: Seq<char>| json_quoted(t)))
}

fn quote_list(list: &Vec<String>) -> (r: String)
    ensures
        r@ == quoted_list(list_view(list@)),
{
    let ghost all = list_view(list@);
    let mut quoted: Vec<String> = Vec::new();
    let mut i: usize = 0;
    while i < list.len()
        invariant
            i <= list@.len(),
            quoted@.len() == i,
            all == list_view(list@),
            forall|k: int| 0 <= k < i ==> (#[trigger] quoted@[k])@ == json_quoted(all[k]),
        decreases list@.len() - i,
    {
        assert(all[i as int] == list@[i as int]@);
        quoted.push(json_string(list[i].as_str()));
        i += 1;
    }
    assert(list_view(quoted@) =~= all.map_values(|t: Seq<char>| json_quoted(t)));
    json_array_text(&quoted)
}

pub open spec fn quoted_option_list(list: Option<Seq<Seq<char>>>) -> Option<Seq<char>> {
    match list {
        Some(list) => Some(quoted_list(list)),
        None => None,
    }
}

fn quote_option_list(list: &Option<Vec<String>>) -> (r: Option<String>)
    ensures
        option_view(r) == quoted_option_list(option_list_view(*list)),
{
    match list {
        Some(list) => Some(quote_list(list)),
        None => None,
    }
}

/// The JSON form of a web search.
pub open spec fn search_json(action: Option<WebSearchView>) -> Seq<char> {
    match action {
        None => "null"@,
        Some(WebSearchView::Search { query, queries }) => field(
            field("{\"type\":\"search\""@, "query"@, quoted_option(query)),
            "queries"@,
            quoted_option_list(queries),
        ) + "}"@,
        Some(WebSearchView::OpenPage { url }) => field(
            "{\"type\":\"open_page\""@,
            "url"@,
            quoted_option(url),
        ) + "}"@,
        Some(WebSearchView::FindInPage { url, pattern }) => field(
            field("{\"type\":\"find_in_page\""@, "url"@, quoted_option(url)),
            "pattern"@,
            quoted_option(pattern),
        ) + "}"@,
        Some(WebSearchView::Other) => "{\"type\":\"other\""@ + "}"@,
    }
}

fn write_search_json(action: &Option<WebSearchAction>) -> (json: String)
    ensures
        json@ == search_json(web_search_option(*action)),
{
    let action = match action {
        None => {
            return String::from_str("null");
        },
        Some(action) => action,
    };
    let mut json: String;
    match action {
        WebSearchAction::Search { query, queries } => {
            json = String::from_str("{\"type\":\"search\"");
            add_field(&mut json, "query", &quote_option(query));
            add_field(&mut json, "queries", &quote_option_list(queries));
        },
        WebSearchAction::OpenPage { url } => {
            json = String::from_str("{\"type\":\"open_page\"");
            add_field(&mut json, "url", &quote_option(url));
        },
        WebSearchAction::FindInPage { url, pattern } => {
            json = String::from_str("{\"type\":\"find_in_page\"");
            add_field(&mut json, "url", &quote_option(url));
            add_field(&mut json, "pattern", &quote_option(pattern));
        },
        WebSearchAction::Other => {
            json = String::from_str("{\"type\":\"other\"");
        },
    }
    json.append("}");
    json
}

/// The JSON form of a shell command.
pub open spec fn shell_command_json(action: ShellView) -> Seq<char> {
    field(
        field(
            field(
                field(
                    "{\"type\":\"exec\",\"command\":"@ + quoted_list(action.command),
                    "timeout_ms"@,
                    match action.timeout_ms {
                        Some(ms) => Some(decimal(ms as nat)),
                        None => None,
                    },
                ),
                "working_directory"@,
                quoted_option(action.working_directory),
            ),
            "env"@,
            quoted_option_list(action.env),
        ),
        "user"@,
        quoted_option(action.user),
    ) + "}"@
}

fn write_shell_json(action: &LocalShellExecAction) -> (json: String)
    ensures
        json@ == shell_command_json(action@),
{
    let mut json = String::from_str("{\"type\":\"exec\",\"command\":");
    json.append(quote_list(&action.command).as_str());
    let timeout: Option<String> = match action.timeout_ms {
        Some(ms) => Some(decimal_text(ms)),
        None => None,
    };
    add_field(&mut json, "timeout_ms", &timeout);
    add_field(&mut json, "working_directory", &quote_option(&action.working_directory));
    add_field(&mut json, "env", &quote_option_list(&action.env));
    add_field(&mut json, "user", &quote_option(&action.user));
    json.append("}");
    json
}

/// The object with a text field more.
pub open spec fn text_field(object: Seq<char>, name: Seq<char>, text: Seq<char>) -> Seq<char> {
    field(object, name, Some(json_quoted(text)))
}

fn add_text_field(object: &mut String, name: &str, text: &str)
    ensures
        final(object)@ == text_field(old(object)@, name@, text@),
{
    add_field(object, name, &Some(json_string(text)));
}

/// The object with a text field more, if there is a text.
pub open spec fn option_field(object: Seq<char>, name: Seq<char>, text: Option<Seq<char>>) -> Seq<
    char,
> {
    field(object, name, quoted_option(text))
}

fn add_option_field(object: &mut String, name: &str, text: &Option<String>)
    ensures
        final(object)@ == option_field(old(object)@, name@, option_view(*text)),
{
    add_field(object, name, &quote_option(text));
}

/// One part of a message.
pub open spec fn part_json(part: ContentView) -> Seq<char> {
    match part {
        ContentView::InputText { text } => text_field(
            "{\"type\":\"input_text\""@,
            "text"@,
            text,
        ) + "}"@,
        ContentView::OutputText { text } => text_field(
            "{\"type\":\"output_text\""@,
            "text"@,
            text,
        ) + "}"@,
        ContentView::InputImage { image_url, detail } => option_field(
            text_field("{\"type\":\"input_image\""@, "image_url"@, image_url),
            "detail"@,
            detail,
        ) + "}"@,
    }
}

fn write_part(part: &ContentItem) -> (json: String)
    ensures
        json@ == part_json(part@),
{
    let mut json: String;
    match part {
        ContentItem::InputText { text } => {
            json = String::from_str("{\"type\":\"input_text\"");
            add_text_field(&mut json, "text", text.as_str());
        },
        ContentItem::OutputText { text } => {
            json = String::from_str("{\"type\":\"output_text\"");
            add_text_field(&mut json, "text", text.as_str());
        },
        ContentItem::InputImage { image_url, detail } => {
            json = String::from_str("{\"type\":\"input_image\"");
            add_text_field(&mut json, "image_url", image_url.as_str());
            add_option_field(&mut json, "detail", detail);
        },
    }
    json.append("}");
    json
}

pub open spec fn content_json(content: Seq<ContentView>) -> Seq<char> {
    json_array(content.map_values(|p: ContentView| part_json(p)))
}

fn write_content(content: &Vec<ContentItem>) -> (json: String)
    ensures
        json@ == content_json(content_views(content@)),
{
    let ghost all = content_views(content@);
    let mut parts: Vec<String> = Vec::new();
    let mut i: usize = 0;
    while i < content.len()
        invariant
            i <= content@.len(),
            parts@.len() == i,
            all == content_views(content@),
            forall|k: int| 0 <= k < i ==> (#[trigger] parts@[k])@ == part_json(all[k]),
        decreases content@.len() - i,
    {
        assert(all[i as int] == content@[i as int]@);
        parts.push(write_part(&content[i]));
        i += 1;
    }
    assert(list_view(parts@) =~= all.map_values(|p: ContentView| part_json(p)));
    json_array_text(&parts)
}

/// One part of a message between agents.
pub open spec fn agent_part_json(part: AgentContentView) -> Seq<char> {
    match part {
        AgentContentView::InputText { text } => text_field(
            "{\"type\":\"input_text\""@,
            "text"@,
            text,
        ) + "}"@,
        AgentContentView::EncryptedContent { encrypted_content } => text_field(
            "{\"type\":\"encrypted_content\""@,
            "encrypted_content"@,
            encrypted_content,
        ) + "}"@,
    }
}

pub open spec fn agent_json(content: Seq<AgentContentView>) -> Seq<char> {
    json_array(content.map_values(|p: AgentContentView| agent_part_json(p)))
}

fn write_agent(content: &Vec<AgentContent>) -> (json: String)
    ensures
        json@ == agent_json(agent_views(content@)),
{
    let ghost all = agent_views(content@);
    let mut parts: Vec<String> = Vec::new();
    let mut i: usize = 0;
    while i < content.len()
        invariant
            i <= content@.len(),
            parts@.len() == i,
            all == agent_views(content@),
            forall|k: int| 0 <= k < i ==> (#[trigger] parts@[k])@ == agent_part_json(all[k]),
        decreases content@.len() - i,
    {
        assert(all[i as int] == content@[i as int]@);
        let mut part: String;
        match &content[i] {
            AgentContent::InputText { text } => {
                part = String::from_str("{\"type\":\"input_text\"");
                add_text_field(&mut part, "text", text.as_str());
            },
            AgentContent::EncryptedContent { encrypted_content } => {
                part = String::from_str("{\"type\":\"encrypted_content\"");
                add_text_field(&mut part, "encrypted_content", encrypted_content.as_str());
            },
        }
        part.append("}");
        parts.push(part);
        i += 1;
    }
    assert(list_view(parts@) =~= all.map_values(|p: AgentContentView| agent_part_json(p)));
    json_array_text(&parts)
}

/// A tool output: its text, or its content in the form in which it came.
pub open spec fn payload_json(output: PayloadView) -> Seq<char> {
    match output.body {
        OutputBodyView::Text(text) => json_quoted(text),
        OutputBodyView::ContentItems { encoded, text } => encoded,
    }
}

fn write_payload(output: &FunctionCallOutputPayload) -> (json: String)
    ensures
        json@ == payload_json(output@),
{
    match &output.body {
        FunctionCallOutputBody::Text(text) => json_string(text.as_str()),
        FunctionCallOutputBody::ContentItems { encoded, text: _ } => encoded.as_str().to_owned(),
    }
}

pub open spec fn phase_json(phase: Option<MessagePhase>) -> Option<Seq<char>> {
    match phase {
        Some(MessagePhase::Commentary) => Some("\"commentary\""@),
        Some(MessagePhase::FinalAnswer) => Some("\"final_answer\""@),
        None => None,
    }
}

fn write_phase(phase: Option<MessagePhase>) -> (json: Option<String>)
    ensures
        option_view(json) == phase_json(phase),
{
    match phase {
        Some(MessagePhase::Commentary) => Some(String::from_str("\"commentary\"")),
        Some(MessagePhase::FinalAnswer) => Some(String::from_str("\"final_answer\"")),
        None => None,
    }
}

pub open spec fn shell_status_json(status: LocalShellStatus) -> Seq<char> {
    match status {
        LocalShellStatus::Completed => "\"completed\""@,
        LocalShellStatus::InProgress => "\"in_progress\""@,
        LocalShellStatus::Incomplete => "\"incomplete\""@,
    }
}

fn write_shell_status(status: LocalShellStatus) -> (json: String)
    ensures
        json@ == shell_status_json(status),
{
    match status {
        LocalShellStatus::Completed => String::from_str("\"completed\""),
        LocalShellStatus::InProgress => String::from_str("\"in_progress\""),
        LocalShellStatus::Incomplete => String::from_str("\"incomplete\""),
    }
}

/// What an item holds, as an object that is still open.
pub open spec fn open_body_json(body: BodyView) -> Seq<char> {
    match body {
        BodyView::Message { role, content, phase } => field(
            field(
                text_field("{\"type\":\"message\""@, "role"@, role),
                "content"@,
                Some(content_json(content)),
            ),
            "phase"@,
            phase_json(phase),
        ),
        BodyView::AgentMessage { author, recipient, content } => field(
            text_field(
                text_field("{\"type\":\"agent_message\""@, "author"@, author),
                "recipient"@,
                recipient,
            ),
            "content"@,
            Some(agent_json(content)),
        ),
        BodyView::Reasoning { summary, content, encrypted_content } => option_field(
            field(
                field("{\"type\":\"reasoning\""@, "summary"@, Some(quoted_list(summary))),
                "content"@,
                quoted_option_list(content),
            ),
            "encrypted_content"@,
            encrypted_content,
        ),
        BodyView::FunctionCall { name, namespace, arguments, call_id } => text_field(
            text_field(
                option_field(
                    text_field("{\"type\":\"function_call\""@, "name"@, name),
                    "namespace"@,
                    namespace,
                ),
                "arguments"@,
                arguments,
            ),
            "call_id"@,
            call_id,
        ),
        BodyView::FunctionCallOutput { call_id, output } => field(
            text_field("{\"type\":\"function_call_output\""@, "call_id"@, call_id),
            "output"@,
            Some(payload_json(output)),
        ),
        BodyView::CustomToolCall { status, call_id, name, input } => text_field(
            text_field(
                text_field(
                    option_field("{\"type\":\"custom_tool_call\""@, "status"@, status),
                    "call_id"@,
                    call_id,
                ),
                "name"@,
                name,
            ),
            "input"@,
            input,
        ),
        BodyView::CustomToolCallOutput { call_id, name, output } => field(
            option_field(
                text_field("{\"type\":\"custom_tool_call_output\""@, "call_id"@, call_id),
                "name"@,
                name,
            ),
            "output"@,
            Some(payload_json(output)),
        ),
        BodyView::ToolSearchCall { call_id, status, execution, arguments } => field(
            text_field(
                option_field(
                    option_field("{\"type\":\"tool_search_call\""@, "call_id"@, call_id),
                    "status"@,
                    status,
                ),
                "execution"@,
                execution,
            ),
            "arguments"@,
            Some(arguments),
        ),
        BodyView::ToolSearchOutput { call_id, status, execution, tools } => field(
            text_field(
                text_field(
                    option_field("{\"type\":\"tool_search_output\""@, "call_id"@, call_id),
                    "status"@,
                    status,
                ),
                "execution"@,
                execution,
            ),
            "tools"@,
            Some(json_array(tools)),
        ),
        BodyView::LocalShellCall { call_id, status, action } => field(
            field(
                option_field("{\"type\":\"local_shell_call\""@, "call_id"@, call_id),
                "status"@,
                Some(shell_status_json(status)),
            ),
            "action"@,
            Some(shell_command_json(action)),
        ),
        BodyView::WebSearchCall { status, action } => field(
            option_field("{\"type\":\"web_search_call\""@, "status"@, status),
            "action"@,
            Some(search_json(action)),
        ),
        BodyView::ImageGenerationCall { status, revised_prompt, result } => text_field(
            option_field(
                text_field("{\"type\":\"image_generation_call\""@, "status"@, status),
                "revised_prompt"@,
                revised_prompt,
            ),
            "result"@,
            result,
        ),
        BodyView::Compaction { encrypted_content } => text_field(
            "{\"type\":\"compaction\""@,
            "encrypted_content"@,
            encrypted_content,
        ),
        BodyView::CompactionTrigger => "{\"type\":\"compaction_trigger\""@,
        BodyView::ContextCompaction { encrypted_content } => option_field(
            "{\"type\":\"context_compaction\""@,
            "encrypted_content"@,
            encrypted_content,
        ),
        BodyView::Other => "{\"type\":\"other\""@,
    }
}

fn write_open_body(body: &ItemBody) -> (json: String)
    ensures
        json@ == open_body_json(body@),
{
    let mut json: String;
    match body {
        ItemBody::Message { role, content, phase } => {
            json = String::from_str("{\"type\":\"message\"");
            add_text_field(&mut json, "role", role.as_str());
            add_field(&mut json, "content", &Some(write_content(content)));
            add_field(&mut json, "phase", &write_phase(*phase));
        },
        ItemBody::AgentMessage { author, recipient, content } => {
            json = String::from_str("{\"type\":\"agent_message\"");
            add_text_field(&mut json, "author", author.as_str());
            add_text_field(&mut json, "recipient", recipient.as_str());
            add_field(&mut json, "content", &Some(write_agent(content)));
        },
        ItemBody::Reasoning { summary, content, encrypted_content } => {
            json = String::from_str("{\"type\":\"reasoning\"");
            add_field(&mut json, "summary", &Some(quote_list(summary)));
            add_field(&mut json, "content", &quote_option_list(content));
            add_option_field(&mut json, "encrypted_content", encrypted_content);
        },
        ItemBody::FunctionCall { name, namespace, arguments, call_id } => {
            json = String::from_str("{\"type\":\"function_call\"");
            add_text_field(&mut json, "name", name.as_str());
            add_option_field(&mut json, "namespace", namespace);
            add_text_field(&mut json, "arguments", arguments.as_str());
            add_text_field(&mut json, "call_id", call_id.as_str());
        },
        ItemBody::FunctionCallOutput { call_id, output } => {
            json = String::from_str("{\"type\":\"function_call_output\"");
            add_text_field(&mut json, "call_id", call_id.as_str());
            add_field(&mut json, "output", &Some(write_payload(output)));
        },
        ItemBody::CustomToolCall { status, call_id, name, input } => {
            json = String::from_str("{\"type\":\"custom_tool_call\"");
            add_option_field(&mut json, "status", status);
            add_text_field(&mut json, "call_id", call_id.as_str());
            add_text_field(&mut json, "name", name.as_str());
            add_text_field(&mut json, "input", input.as_str());
        },
        ItemBody::CustomToolCallOutput { call_id, name, output } => {
            json = String::from_str("{\"type\":\"custom_tool_call_output\"");
            add_text_field(&mut json, "call_id", call_id.as_str());
            add_option_field(&mut json, "name", name);
            add_field(&mut json, "output", &Some(write_payload(output)));
        },
        ItemBody::ToolSearchCall { call_id, status, execution, arguments } => {
            json = String::from_str("{\"type\":\"tool_search_call\"");
            add_option_field(&mut json, "call_id", call_id);
            add_option_field(&mut json, "status", status);
            add_text_field(&mut json, "execution", execution.as_str());
            add_field(&mut json, "arguments", &Some(arguments.as_str().to_owned()));
        },
        ItemBody::ToolSearchOutput { call_id, status, execution, tools } => {
            json = String::from_str("{\"type\":\"tool_search_output\"");
            add_option_field(&mut json, "call_id", call_id);
            add_text_field(&mut json, "status", status.as_str());
            add_text_field(&mut json, "execution", execution.as_str());
            add_field(&mut json, "tools", &Some(json_array_text(tools)));
        },
        ItemBody::LocalShellCall { call_id, status, action } => {
            json = String::from_str("{\"type\":\"local_shell_call\"");
            add_option_field(&mut json, "call_id", call_id);
            add_field(&mut json, "status", &Some(write_shell_status(*status)));
            add_field(&mut json, "action", &Some(write_shell_json(action)));
        },
        ItemBody::WebSearchCall { status, action } => {
            json = String::from_str("{\"type\":\"web_search_call\"");
            add_option_field(&mut json, "status", status);
            add_field(&mut json, "action", &Some(write_search_json(action)));
        },
        ItemBody::ImageGenerationCall { status, revised_prompt, result } => {
            json = String::from_str("{\"type\":\"image_generation_call\"");
            add_text_field(&mut json, "status", status.as_str());
            add_option_field(&mut json, "revised_prompt", revised_prompt);
            add_text_field(&mut json, "result", result.as_str());
        },
        ItemBody::Compaction { encrypted_content } => {
            json = String::from_str("{\"type\":\"compaction\"");
            add_text_field(&mut json, "encrypted_content", encrypted_content.as_str());
        },
        ItemBody::CompactionTrigger => {
            json = String::from_str("{\"type\":\"compaction_trigger\"");
        },
        ItemBody::ContextCompaction { encrypted_content } => {
            json = String::from_str("{\"type\":\"context_compaction\"");
            add_option_field(&mut json, "encrypted_content", encrypted_content);
        },
        ItemBody::Other => {
            json = String::from_str("{\"type\":\"other\"");
        },
    }
    json
}

/// The JSON form of an item.
pub open spec fn whole_item_json(item: ItemView) -> Seq<char> {
    option_field(
        option_field(open_body_json(item.body), "id"@, item.id),
        "metadata"@,
        item.metadata,
    ) + "}"@
}

fn write_item_json(item: &ResponseItem) -> (json: String)
    ensures
        json@ == whole_item_json(item@),
{
    let mut json = write_open_body(&item.body);
    add_option_field(&mut json, "id", &item.id);
    add_option_field(&mut json, "metadata", &item.metadata);
    json.append("}");
    json
}

// ---------------------------------------------------------------------------------------------
// Generated context.
// ---------------------------------------------------------------------------------------------

impl MarkerModel {
    /// Developer text that is generated.
    pub open spec fn generated_developer_text(&self, text: Seq<char>) -> bool {
        RollingInvariantDeveloperContext::spec_matches_text(text) || marked(
            self.developer_markers@,
            text,
        )
    }

    fn is_generated_developer_text(&self, text: &str) -> (r: bool)
        ensures
            r == self.generated_developer_text(text@),
    {
        RollingInvariantDeveloperContext::matches_text(text) || is_marked(
            &self.developer_markers,
            text,
        )
    }

    pub open spec fn generated_developer_part(&self, part: ContentView) -> bool {
        match part {
            ContentView::InputText { text } => self.generated_developer_text(text),
            _ => false,
        }
    }

    fn is_generated_developer_part(&self, part: &ContentItem) -> (r: bool)
        ensures
            r == self.generated_developer_part(part@),
    {
        match part {
            ContentItem::InputText { text } => self.is_generated_developer_text(text.as_str()),
            _ => false,
        }
    }

    /// User text that is generated.
    pub open spec fn generated_user_text(&self, text: Seq<char>) -> bool {
        ||| between_markers(text, self.environment.start@, self.environment.end@)
        ||| between_markers(text, self.instructions.start@, self.instructions.end@)
        ||| ExtensionContextualUserFragment::spec_matches_text(text)
        ||| RollctxSummaryGroupContext::spec_matches_text(text)
        ||| marked(self.user_markers@, text)
    }

    fn is_generated_user_text(&self, text: &str) -> (r: bool)
        ensures
            r == self.generated_user_text(text@),
    {
        matches_markers(text, self.environment.start.as_str(), self.environment.end.as_str())
            || matches_markers(
            text,
            self.instructions.start.as_str(),
            self.instructions.end.as_str(),
        ) || ExtensionContextualUserFragment::matches_text(text)
            || RollctxSummaryGroupContext::matches_text(text) || is_marked(
            &self.user_markers,
            text,
        )
    }

    pub open spec fn generated_user_part(&self, part: ContentView) -> bool {
        match part {
            ContentView::InputText { text } => self.generated_user_text(text),
            _ => false,
        }
    }

    pub open spec fn hook_part(&self, part: ContentView) -> bool {
        match part {
            ContentView::InputText { text } => between_markers(
                text,
                self.hook_prompt.start@,
                self.hook_prompt.end@,
            ),
            _ => false,
        }
    }

    fn is_hook_part(&self, part: &ContentItem) -> (r: bool)
        ensures
            r == self.hook_part(part@),
    {
        match part {
            ContentItem::InputText { text } => matches_markers(
                text.as_str(),
                self.hook_prompt.start.as_str(),
                self.hook_prompt.end.as_str(),
            ),
            _ => false,
        }
    }
}

// ---------------------------------------------------------------------------------------------
// Runs of items.
// ---------------------------------------------------------------------------------------------

/// The keys by which an item belongs to a tool call.
pub open spec fn tool_key(item: ItemView) -> Option<KeyView> {
    match spec_call_key(item) {
        Some(key) => Some(key),
        None => spec_output_key(item),
    }
}

fn key_of(item: &ResponseItem) -> (r: Option<ToolPairKey>)
    ensures
        key_option(r) == tool_key(item@),
{
    match call_key(item) {
        Some(key) => Some(key),
        None => output_key(item),
    }
}

/// The items without those of a tool call.
pub open spec fn without_key(items: Seq<ItemView>, key: KeyView) -> Seq<ItemView>
    decreases items.len(),
{
    if items.len() == 0 {
        Seq::empty()
    } else {
        let before = without_key(items.drop_last(), key);
        if tool_key(items.last()) == Some(key) {
            before
        } else {
            before.push(items.last())
        }
    }
}

/// The oldest item is taken off, with the rest of its tool call.
pub open spec fn shortened_items(items: Seq<ItemView>) -> Seq<ItemView> {
    if items.len() == 0 {
        items
    } else {
        let rest = items.subrange(1, items.len() as int);
        match tool_key(items[0]) {
            Some(key) => without_key(rest, key),
            None => rest,
        }
    }
}

fn drop_first_item(items: Vec<ResponseItem>) -> (r: Vec<ResponseItem>)
    ensures
        item_views(r@) == shortened_items(item_views(items@)),
{
    let ghost all = item_views(items@);
    if items.len() == 0 {
        return items;
    }
    let key = key_of(&items[0]);
    let ghost rest = all.subrange(1, all.len() as int);
    assert(all[0] == items@[0]@);
    let mut kept: Vec<ResponseItem> = Vec::new();
    let mut i: usize = 1;
    proof {
        assert(item_views(kept@) =~= rest.subrange(0, 0));
        if let Some(k) = key_option(key) {
            assert(item_views(kept@) =~= without_key(rest.subrange(0, 0), k));
        }
    }
    while i < items.len()
        invariant
            1 <= i <= items@.len(),
            all == item_views(items@),
            rest == all.subrange(1, all.len() as int),
            item_views(kept@) == match key_option(key) {
                Some(k) => without_key(rest.subrange(0, i - 1), k),
                None => rest.subrange(0, i - 1),
            },
        decreases items@.len() - i,
    {
        proof {
            let next = rest.subrange(0, i as int);
            assert(next.drop_last() =~= rest.subrange(0, i - 1));
            assert(next.last() == items@[i as int]@);
            assert(next =~= rest.subrange(0, i - 1).push(items@[i as int]@));
        }
        let own = key_of(&items[i]);
        let dropped = match (&key, &own) {
            (Some(a), Some(b)) => a.kind == b.kind && same_text(
                a.call_id.as_str(),
                b.call_id.as_str(),
            ),
            _ => false,
        };
        if !dropped {
            let ghost before = item_views(kept@);
            kept.push(items[i].clone());
            assert(item_views(kept@) =~= before.push(items@[i as int]@));
        }
        i += 1;
    }
    assert(rest.subrange(0, items@.len() - 1) =~= rest);
    kept
}

/// What the assistant said last: the text of the newest message that shows any.
pub open spec fn last_said(items: Seq<ItemView>) -> Option<Seq<char>>
    decreases items.len(),
{
    if items.len() == 0 {
        None
    } else if message_of(items.last(), "assistant"@) && !blank(
        whole_text(items.last().body->Message_content),
    ) {
        Some(whole_text(items.last().body->Message_content))
    } else {
        last_said(items.drop_last())
    }
}

fn find_last_said(items: &Vec<ResponseItem>) -> (r: Option<String>)
    ensures
        option_view(r) == last_said(item_views(items@)),
{
    let ghost all = item_views(items@);
    let mut n: usize = items.len();
    assert(all.subrange(0, n as int) =~= all);
    while n > 0
        invariant
            n <= items@.len(),
            all == item_views(items@),
            last_said(all) == last_said(all.subrange(0, n as int)),
        decreases n,
    {
        proof {
            let part = all.subrange(0, n as int);
            assert(part.last() == items@[n - 1]@);
            assert(part.drop_last() =~= all.subrange(0, n - 1));
        }
        let item = &items[n - 1];
        if is_message_of(item, "assistant") {
            if let ItemBody::Message { role: _, content, phase: _ } = &item.body {
                let mut text = String::new();
                assert(text@ =~= Seq::<char>::empty());
                append_content(&mut text, content);
                assert(text@ =~= whole_text(item@.body->Message_content));
                if !is_blank(text.as_str()) {
                    return Some(text);
                }
            }
        }
        n -= 1;
    }
    assert(all.subrange(0, 0).len() == 0);
    None
}

// ---------------------------------------------------------------------------------------------
// The model.
// ---------------------------------------------------------------------------------------------

impl SessionModel for MarkerModel {
    open spec fn spec_item_tokens(&self, item: ItemView) -> i64 {
        plus_body(self.item_overhead_tokens as i64, item.body)
    }

    fn item_tokens(&self, item: &ResponseItem) -> (tokens: i64) {
        add_body(self.item_overhead_tokens as i64, &item.body)
    }

    /// Items are sent as they were recorded.
    open spec fn spec_prompt_items(
        &self,
        items: Seq<ItemView>,
        modalities: Seq<InputModality>,
    ) -> Seq<ItemView> {
        items
    }

    fn prompt_items(&self, items: Vec<ResponseItem>, modalities: &[InputModality]) -> (sent: Vec<
        ResponseItem,
    >) {
        items
    }

    /// Nothing changes where the newest items stay exact.
    open spec fn spec_exact_tail_prompt_items(
        &self,
        items: Seq<ItemView>,
        modalities: Seq<InputModality>,
    ) -> Seq<ItemView> {
        items
    }

    fn exact_tail_prompt_items(
        &self,
        items: Vec<ResponseItem>,
        modalities: &[InputModality],
    ) -> (sent: Vec<ResponseItem>) {
        items
    }

    open spec fn spec_item_json(&self, item: ItemView) -> Seq<char> {
        whole_item_json(item)
    }

    fn item_json(&self, item: &ResponseItem) -> (json: String) {
        write_item_json(item)
    }

    /// A developer sees what goes over the wire.
    open spec fn spec_item_debug(&self, item: ItemView) -> Seq<char> {
        whole_item_json(item)
    }

    fn item_debug(&self, item: &ResponseItem) -> (text: String) {
        write_item_json(item)
    }

    open spec fn spec_truncate_content(
        &self,
        encoded: Seq<char>,
        text: Option<Seq<char>>,
        tokens: nat,
    ) -> OutputBodyView {
        OutputBodyView::Text(
            truncated(
                match text {
                    Some(text) => text,
                    None => encoded,
                },
                tokens,
            ),
        )
    }

    fn truncate_content(&self, encoded: &str, text: &Option<String>, tokens: usize) -> (body:
        FunctionCallOutputBody) {
        FunctionCallOutputBody::Text(
            match text {
                Some(text) => truncate_text(text.as_str(), tokens),
                None => truncate_text(encoded, tokens),
            },
        )
    }

    open spec fn spec_web_search_json(&self, action: Option<WebSearchView>) -> Seq<char> {
        search_json(action)
    }

    fn web_search_json(&self, action: &Option<WebSearchAction>) -> (json: String) {
        write_search_json(action)
    }

    open spec fn spec_shell_json(&self, action: ShellView) -> Seq<char> {
        shell_command_json(action)
    }

    fn shell_json(&self, action: &LocalShellExecAction) -> (json: String) {
        write_shell_json(action)
    }

    open spec fn spec_contextual_developer(&self, content: Seq<ContentView>) -> bool {
        exists|k: int| 0 <= k < content.len() && self.generated_developer_part(#[trigger] content[k])
    }

    fn contextual_developer(&self, content: &Vec<ContentItem>) -> (r: bool) {
        let ghost parts = content_views(content@);
        let mut i: usize = 0;
        while i < content.len()
            invariant
                i <= content@.len(),
                parts == content_views(content@),
                forall|k: int| 0 <= k < i ==> !self.generated_developer_part(#[trigger] parts[k]),
            decreases content@.len() - i,
        {
            assert(parts[i as int] == content@[i as int]@);
            if self.is_generated_developer_part(&content[i]) {
                return true;
            }
            i += 1;
        }
        false
    }

    open spec fn spec_non_contextual_developer(&self, content: Seq<ContentView>) -> bool {
        exists|k: int|
            0 <= k < content.len() && !self.generated_developer_part(#[trigger] content[k])
    }

    fn non_contextual_developer(&self, content: &Vec<ContentItem>) -> (r: bool) {
        let ghost parts = content_views(content@);
        let mut i: usize = 0;
        while i < content.len()
            invariant
                i <= content@.len(),
                parts == content_views(content@),
                forall|k: int| 0 <= k < i ==> self.generated_developer_part(#[trigger] parts[k]),
            decreases content@.len() - i,
        {
            assert(parts[i as int] == content@[i as int]@);
            if !self.is_generated_developer_part(&content[i]) {
                return true;
            }
            i += 1;
        }
        false
    }

    open spec fn spec_rolling_invariant_developer(&self, content: Seq<ContentView>) -> bool {
        exists|k: int| 0 <= k < content.len() && invariant_mark(#[trigger] content[k])
    }

    fn rolling_invariant_developer(&self, content: &Vec<ContentItem>) -> (r: bool) {
        let ghost parts = content_views(content@);
        let mut i: usize = 0;
        while i < content.len()
            invariant
                i <= content@.len(),
                parts == content_views(content@),
                forall|k: int| 0 <= k < i ==> !invariant_mark(#[trigger] parts[k]),
            decreases content@.len() - i,
        {
            assert(parts[i as int] == content@[i as int]@);
            let found = match &content[i] {
                ContentItem::InputText { text } => RollingInvariantDeveloperContext::matches_text(
                    text.as_str(),
                ),
                _ => false,
            };
            if found {
                return true;
            }
            i += 1;
        }
        false
    }

    open spec fn spec_contextual_user(&self, content: Seq<ContentView>) -> bool {
        exists|k: int| 0 <= k < content.len() && self.generated_user_part(#[trigger] content[k])
    }

    fn contextual_user(&self, content: &Vec<ContentItem>) -> (r: bool) {
        let ghost parts = content_views(content@);
        let mut i: usize = 0;
        while i < content.len()
            invariant
                i <= content@.len(),
                parts == content_views(content@),
                forall|k: int| 0 <= k < i ==> !self.generated_user_part(#[trigger] parts[k]),
            decreases content@.len() - i,
        {
            assert(parts[i as int] == content@[i as int]@);
            if self.contextual_fragment(&content[i]) {
                return true;
            }
            i += 1;
        }
        false
    }

    open spec fn spec_contextual_fragment(&self, part: ContentView) -> bool {
        self.generated_user_part(part)
    }

    fn contextual_fragment(&self, part: &ContentItem) -> (r: bool) {
        match part {
            ContentItem::InputText { text } => self.is_generated_user_text(text.as_str()),
            _ => false,
        }
    }

    /// A prompt of a hook consists of nothing else.
    open spec fn spec_hook_prompt(&self, id: Option<Seq<char>>, content: Seq<ContentView>) -> bool {
        content.len() > 0 && forall|k: int|
            0 <= k < content.len() ==> self.hook_part(#[trigger] content[k])
    }

    fn hook_prompt(&self, id: &Option<String>, content: &Vec<ContentItem>) -> (r: bool) {
        let ghost parts = content_views(content@);
        if content.len() == 0 {
            return false;
        }
        let mut i: usize = 0;
        while i < content.len()
            invariant
                i <= content@.len(),
                parts == content_views(content@),
                forall|k: int| 0 <= k < i ==> self.hook_part(#[trigger] parts[k]),
            decreases content@.len() - i,
        {
            assert(parts[i as int] == content@[i as int]@);
            if !self.is_hook_part(&content[i]) {
                return false;
            }
            i += 1;
        }
        true
    }

    open spec fn spec_environment_context(&self, text: Seq<char>) -> bool {
        between_markers(text, self.environment.start@, self.environment.end@)
    }

    fn environment_context(&self, text: &str) -> (r: bool) {
        matches_markers(text, self.environment.start.as_str(), self.environment.end.as_str())
    }

    open spec fn spec_user_instructions(&self, text: Seq<char>) -> bool {
        between_markers(text, self.instructions.start@, self.instructions.end@)
    }

    fn user_instructions(&self, text: &str) -> (r: bool) {
        matches_markers(text, self.instructions.start.as_str(), self.instructions.end.as_str())
    }

    open spec fn spec_agent_text(&self, content: Seq<AgentContentView>) -> Option<Seq<char>> {
        if blank(agent_readable(content)) {
            None
        } else {
            Some(agent_readable(content))
        }
    }

    fn agent_text(&self, content: &Vec<AgentContent>) -> (r: Option<String>) {
        let text = read_agent_text(content);
        if is_blank(text.as_str()) {
            None
        } else {
            Some(text)
        }
    }

    open spec fn spec_user_text(&self, item: ItemView) -> Option<Seq<char>> {
        if message_of(item, "user"@) && !self.spec_contextual_user(item.body->Message_content)
            && !self.spec_hook_prompt(item.id, item.body->Message_content) {
            Some(whole_text(item.body->Message_content))
        } else {
            None
        }
    }

    fn user_text(&self, item: &ResponseItem) -> (r: Option<String>) {
        if !is_message_of(item, "user") {
            return None;
        }
        match &item.body {
            ItemBody::Message { role: _, content, phase: _ } => {
                if self.contextual_user(content) || self.hook_prompt(&item.id, content) {
                    return None;
                }
                let mut text = String::new();
                assert(text@ =~= Seq::<char>::empty());
                append_content(&mut text, content);
                assert(text@ =~= whole_text(item@.body->Message_content));
                Some(text)
            },
            _ => None,
        }
    }

    /// A message of the user, of another agent, or by which an agent instructs another.
    open spec fn spec_user_turn_boundary(&self, item: ItemView) -> bool {
        ||| item.body is AgentMessage
        ||| self.spec_user_text(item) is Some
        ||| message_of(item, "assistant"@) && between_markers(
            whole_text(item.body->Message_content),
            self.delegation.start@,
            self.delegation.end@,
        )
    }

    fn user_turn_boundary(&self, item: &ResponseItem) -> (r: bool) {
        if let ItemBody::AgentMessage { .. } = &item.body {
            return true;
        }
        let text = self.user_text(item);
        if text.is_some() {
            return true;
        }
        if !is_message_of(item, "assistant") {
            return false;
        }
        match &item.body {
            ItemBody::Message { role: _, content, phase: _ } => {
                let mut text = String::new();
                assert(text@ =~= Seq::<char>::empty());
                append_content(&mut text, content);
                assert(text@ =~= whole_text(item@.body->Message_content));
                matches_markers(
                    text.as_str(),
                    self.delegation.start.as_str(),
                    self.delegation.end.as_str(),
                )
            },
            _ => false,
        }
    }

    /// What people, agents and summaries said stays; context and tool traffic do not.
    open spec fn spec_keep_compacted(&self, item: ItemView) -> bool {
        match item.body {
            BodyView::Message { role, content, phase } => if role == "user"@ {
                self.spec_hook_prompt(item.id, content) || !self.spec_contextual_user(content)
            } else {
                role == "assistant"@
            },
            BodyView::AgentMessage { .. } => true,
            BodyView::Compaction { .. } => true,
            BodyView::ContextCompaction { .. } => true,
            _ => false,
        }
    }

    fn keep_compacted(&self, item: &ResponseItem) -> (r: bool) {
        match &item.body {
            ItemBody::Message { role, content, phase: _ } => {
                if same_text(role.as_str(), "user") {
                    self.hook_prompt(&item.id, content) || !self.contextual_user(content)
                } else {
                    same_text(role.as_str(), "assistant")
                }
            },
            ItemBody::AgentMessage { .. } => true,
            ItemBody::Compaction { .. } => true,
            ItemBody::ContextCompaction { .. } => true,
            _ => false,
        }
    }

    open spec fn spec_request_tokens(
        &self,
        items: Seq<ItemView>,
        base_instructions: Seq<char>,
    ) -> Option<i64> {
        Some(plus(plus_items(self.item_overhead_tokens as i64, items), base_instructions))
    }

    fn request_tokens(&self, items: &Vec<ResponseItem>, base_instructions: &str) -> (r: Option<
        i64,
    >) {
        Some(add_text(add_items(self.item_overhead_tokens as i64, items), base_instructions))
    }

    open spec fn spec_without_first(&self, items: Seq<ItemView>) -> Seq<ItemView> {
        shortened_items(items)
    }

    fn without_first(&self, items: Vec<ResponseItem>) -> (r: Vec<ResponseItem>) {
        drop_first_item(items)
    }

    open spec fn spec_last_assistant_text(&self, items: Seq<ItemView>) -> Option<Seq<char>> {
        last_said(items)
    }

    fn last_assistant_text(&self, items: &Vec<ResponseItem>) -> (r: Option<String>) {
        find_last_said(items)
    }

    open spec fn spec_summary_prefix(&self) -> Seq<char> {
        self.summary_prefix@
    }

    fn summary_prefix(&self) -> (prefix: &str) {
        self.summary_prefix.as_str()
    }

    open spec fn spec_code_tool_name(&self) -> Seq<char> {
        self.code_tool_name@
    }

    fn code_tool_name(&self) -> (name: &str) {
        self.code_tool_name.as_str()
    }
}

/// The part marks a developer message that is rebuilt for every request.
pub open spec fn invariant_mark(part: ContentView) -> bool {
    match part {
        ContentView::InputText { text } => RollingInvariantDeveloperContext::spec_matches_text(
            text,
        ),
        _ => false,
    }
}

/// What can be read of a message between agents.
pub open spec fn agent_readable(content: Seq<AgentContentView>) -> Seq<char>
    decreases content.len(),
{
    if content.len() == 0 {
        Seq::empty()
    } else {
        agent_readable(content.drop_last()) + match content.last() {
            AgentContentView::InputText { text } => text,
            AgentContentView::EncryptedContent { .. } => Seq::empty(),
        }
    }
}

fn read_agent_text(content: &Vec<AgentContent>) -> (text: String)
    ensures
        text@ == agent_readable(agent_views(content@)),
{
    let ghost all = agent_views(content@);
    let mut text = String::new();
    let mut i: usize = 0;
    assert(text@ =~= agent_readable(all.subrange(0, 0)));
    while i < content.len()
        invariant
            i <= content@.len(),
            all == agent_views(content@),
            text@ == agent_readable(all.subrange(0, i as int)),
        decreases content@.len() - i,
    {
        proof {
            let next = all.subrange(0, i + 1);
            assert(next.drop_last() =~= all.subrange(0, i as int));
            assert(next.last() == content@[i as int]@);
        }
        match &content[i] {
            AgentContent::InputText { text: t } => {
                text.append(t.as_str());
            },
            AgentContent::EncryptedContent { .. } => {},
        }
        assert(text@ =~= agent_readable(all.subrange(0, i + 1)));
        i += 1;
    }
    assert(all.subrange(0, i as int) =~= all);
    text
}

// -- laws -------------------------------------------------------------------------------------

proof fn lemma_same_total(model: MarkerModel, items: Seq<ItemView>)
    ensures
        plus_items(model.item_overhead_tokens as i64, items) == total_tokens(model, items),
    decreases items.len(),
{
    if items.len() > 0 {
        lemma_same_total(model, items.drop_last());
    }
}

/// A request takes the tokens of its items and of the base instructions.
pub proof fn law_request_takes_items_and_instructions(
    model: MarkerModel,
    items: Seq<ItemView>,
    base_instructions: Seq<char>,
)
    ensures
        model.spec_request_tokens(items, base_instructions) == Some(
            plus(total_tokens(model, items), base_instructions),
        ),
{
    lemma_same_total(model, items);
}

proof fn lemma_without_key_len(items: Seq<ItemView>, key: KeyView)
    ensures
        without_key(items, key).len() <= items.len(),
    decreases items.len(),
{
    if items.len() > 0 {
        lemma_without_key_len(items.drop_last(), key);
    }
}

/// Taking the oldest item off leaves fewer items, so that a history can be shortened only so often.
pub proof fn law_shortening_ends(model: MarkerModel, items: Seq<ItemView>)
    requires
        items.len() > 0,
    ensures
        model.spec_without_first(items).len() < items.len(),
{
    if let Some(key) = tool_key(items[0]) {
        lemma_without_key_len(items.subrange(1, items.len() as int), key);
    }
}

} // verus!
