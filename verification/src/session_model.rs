//! What planning needs to know of the session around it: how large an item is for the model, in
//! which form it is sent, and which messages are generated context.

use crate::item::{
    agent_views, content_views, item_views, option_view, web_search_option, AgentContent,
    AgentContentView, ContentItem, ContentView, FunctionCallOutputBody, FunctionCallOutputPayload,
    ItemView, LocalShellExecAction, OutputBodyView, PayloadView, ResponseItem, ShellView,
    WebSearchAction, WebSearchView,
};
use crate::tokens::{truncate_text, truncated};
use vstd::prelude::*;
use vstd::string::*;

verus! {

/// What a model can take as input.
#[derive(Debug, Clone, Copy, PartialEq, Eq, Hash, Structural)]
pub enum InputModality {
    Text,
    Image,
}

/// The session's own rules. Each method is a function of the model and of its arguments alone:
/// asked twice, it answers the same.
pub trait SessionModel {
    /// How many tokens an item takes in a request.
    spec fn spec_item_tokens(&self, item: ItemView) -> i64;

    fn item_tokens(&self, item: &ResponseItem) -> (tokens: i64)
        ensures
            tokens == self.spec_item_tokens(item@),
    ;

    /// The form in which a run of recorded items is sent to a model with the given modalities.
    spec fn spec_prompt_items(
        &self,
        items: Seq<ItemView>,
        modalities: Seq<InputModality>,
    ) -> Seq<ItemView>;

    fn prompt_items(&self, items: Vec<ResponseItem>, modalities: &[InputModality]) -> (sent: Vec<
        ResponseItem,
    >)
        ensures
            item_views(sent@) == self.spec_prompt_items(item_views(items@), modalities@),
    ;

    /// The form in which a run of recorded items is sent where their newest part stays exact.
    spec fn spec_exact_tail_prompt_items(
        &self,
        items: Seq<ItemView>,
        modalities: Seq<InputModality>,
    ) -> Seq<ItemView>;

    fn exact_tail_prompt_items(
        &self,
        items: Vec<ResponseItem>,
        modalities: &[InputModality],
    ) -> (sent: Vec<ResponseItem>)
        ensures
            item_views(sent@) == self.spec_exact_tail_prompt_items(
                item_views(items@),
                modalities@,
            ),
    ;

    /// The JSON form in which an item goes over the wire.
    spec fn spec_item_json(&self, item: ItemView) -> Seq<char>;

    fn item_json(&self, item: &ResponseItem) -> (json: String)
        ensures
            json@ == self.spec_item_json(item@),
    ;

    /// The form in which an item is shown to a developer.
    spec fn spec_item_debug(&self, item: ItemView) -> Seq<char>;

    fn item_debug(&self, item: &ResponseItem) -> (text: String)
        ensures
            text@ == self.spec_item_debug(item@),
    ;

    /// Structured tool output cut down to a token budget.
    spec fn spec_truncate_content(
        &self,
        encoded: Seq<char>,
        text: Option<Seq<char>>,
        tokens: nat,
    ) -> OutputBodyView;

    fn truncate_content(&self, encoded: &str, text: &Option<String>, tokens: usize) -> (body:
        FunctionCallOutputBody)
        ensures
            body@ == self.spec_truncate_content(encoded@, option_view(*text), tokens as nat),
    ;

    /// The JSON form of a web search.
    spec fn spec_web_search_json(&self, action: Option<WebSearchView>) -> Seq<char>;

    fn web_search_json(&self, action: &Option<WebSearchAction>) -> (json: String)
        ensures
            json@ == self.spec_web_search_json(web_search_option(*action)),
    ;

    /// The JSON form of a shell command.
    spec fn spec_shell_json(&self, action: ShellView) -> Seq<char>;

    fn shell_json(&self, action: &LocalShellExecAction) -> (json: String)
        ensures
            json@ == self.spec_shell_json(action@),
    ;

    /// The content of a developer message holds generated context.
    spec fn spec_contextual_developer(&self, content: Seq<ContentView>) -> bool;

    fn contextual_developer(&self, content: &Vec<ContentItem>) -> (r: bool)
        ensures
            r == self.spec_contextual_developer(content_views(content@)),
    ;

    /// The content of a developer message holds something that is not generated context.
    spec fn spec_non_contextual_developer(&self, content: Seq<ContentView>) -> bool;

    fn non_contextual_developer(&self, content: &Vec<ContentItem>) -> (r: bool)
        ensures
            r == self.spec_non_contextual_developer(content_views(content@)),
    ;

    /// The content of a developer message is rebuilt for every request.
    spec fn spec_rolling_invariant_developer(&self, content: Seq<ContentView>) -> bool;

    fn rolling_invariant_developer(&self, content: &Vec<ContentItem>) -> (r: bool)
        ensures
            r == self.spec_rolling_invariant_developer(content_views(content@)),
    ;

    /// The content of a user message is generated context.
    spec fn spec_contextual_user(&self, content: Seq<ContentView>) -> bool;

    fn contextual_user(&self, content: &Vec<ContentItem>) -> (r: bool)
        ensures
            r == self.spec_contextual_user(content_views(content@)),
    ;

    /// One part of a user message is generated context.
    spec fn spec_contextual_fragment(&self, part: ContentView) -> bool;

    fn contextual_fragment(&self, part: &ContentItem) -> (r: bool)
        ensures
            r == self.spec_contextual_fragment(part@),
    ;

    /// The message is a prompt that a hook put into the conversation.
    spec fn spec_hook_prompt(&self, id: Option<Seq<char>>, content: Seq<ContentView>) -> bool;

    fn hook_prompt(&self, id: &Option<String>, content: &Vec<ContentItem>) -> (r: bool)
        ensures
            r == self.spec_hook_prompt(option_view(*id), content_views(content@)),
    ;

    /// The text describes the session's environment.
    spec fn spec_environment_context(&self, text: Seq<char>) -> bool;

    fn environment_context(&self, text: &str) -> (r: bool)
        ensures
            r == self.spec_environment_context(text@),
    ;

    /// The text holds the user's standing instructions.
    spec fn spec_user_instructions(&self, text: Seq<char>) -> bool;

    fn user_instructions(&self, text: &str) -> (r: bool)
        ensures
            r == self.spec_user_instructions(text@),
    ;

    /// The readable text of a message between agents.
    spec fn spec_agent_text(&self, content: Seq<AgentContentView>) -> Option<Seq<char>>;

    fn agent_text(&self, content: &Vec<AgentContent>) -> (r: Option<String>)
        ensures
            option_view(r) == self.spec_agent_text(agent_views(content@)),
    ;

    /// What the user wrote, if the item is a message of the user.
    spec fn spec_user_text(&self, item: ItemView) -> Option<Seq<char>>;

    fn user_text(&self, item: &ResponseItem) -> (r: Option<String>)
        ensures
            option_view(r) == self.spec_user_text(item@),
    ;

    /// The item starts a turn of the user.
    spec fn spec_user_turn_boundary(&self, item: ItemView) -> bool;

    fn user_turn_boundary(&self, item: &ResponseItem) -> (r: bool)
        ensures
            r == self.spec_user_turn_boundary(item@),
    ;

    /// The item stays when a history is replaced by its compacted form.
    spec fn spec_keep_compacted(&self, item: ItemView) -> bool;

    fn keep_compacted(&self, item: &ResponseItem) -> (r: bool)
        ensures
            r == self.spec_keep_compacted(item@),
    ;

    /// The tokens of a request with the items and the base instructions, where they can be told.
    spec fn spec_request_tokens(
        &self,
        items: Seq<ItemView>,
        base_instructions: Seq<char>,
    ) -> Option<i64>;

    fn request_tokens(&self, items: &Vec<ResponseItem>, base_instructions: &str) -> (r: Option<i64>)
        ensures
            r == self.spec_request_tokens(item_views(items@), base_instructions@),
    ;

    /// The items without the oldest one, and without what cannot stand without it.
    spec fn spec_without_first(&self, items: Seq<ItemView>) -> Seq<ItemView>;

    fn without_first(&self, items: Vec<ResponseItem>) -> (r: Vec<ResponseItem>)
        ensures
            item_views(r@) == self.spec_without_first(item_views(items@)),
    ;

    /// What the assistant said last.
    spec fn spec_last_assistant_text(&self, items: Seq<ItemView>) -> Option<Seq<char>>;

    fn last_assistant_text(&self, items: &Vec<ResponseItem>) -> (r: Option<String>)
        ensures
            option_view(r) == self.spec_last_assistant_text(item_views(items@)),
    ;

    /// The line that opens every summary message.
    spec fn spec_summary_prefix(&self) -> Seq<char>;

    fn summary_prefix(&self) -> (prefix: &str)
        ensures
            prefix@ == self.spec_summary_prefix(),
    ;

    /// The name of the custom tool under which code runs.
    spec fn spec_code_tool_name(&self) -> Seq<char>;

    fn code_tool_name(&self) -> (name: &str)
        ensures
            name@ == self.spec_code_tool_name(),
    ;
}

// ---------------------------------------------------------------------------------------------
// Sums and truncation over a model.
// ---------------------------------------------------------------------------------------------

/// The sum, held within the range of `i64`.
pub open spec fn saturating(n: int) -> i64 {
    if n > i64::MAX {
        i64::MAX
    } else if n < i64::MIN {
        i64::MIN
    } else {
        n as i64
    }
}

pub fn saturating_add(a: i64, b: i64) -> (r: i64)
    ensures
        r == saturating(a + b),
{
    match a.checked_add(b) {
        Some(sum) => sum,
        None => if b > 0 {
            i64::MAX
        } else {
            i64::MIN
        },
    }
}

pub fn saturating_sub(a: i64, b: i64) -> (r: i64)
    ensures
        r == saturating(a - b),
{
    match a.checked_sub(b) {
        Some(difference) => difference,
        None => if b > 0 {
            i64::MIN
        } else {
            i64::MAX
        },
    }
}

/// The tokens of the items together.
pub open spec fn total_tokens<M: SessionModel>(model: M, items: Seq<ItemView>) -> i64
    decreases items.len(),
{
    if items.len() == 0 {
        0
    } else {
        saturating(
            total_tokens(model, items.drop_last()) + model.spec_item_tokens(items.last()),
        )
    }
}

/// Adds up the tokens of the items, in order.
pub fn estimate_items_tokens<M: SessionModel>(model: &M, items: &[ResponseItem]) -> (total: i64)
    ensures
        total == total_tokens(*model, item_views(items@)),
{
    let ghost all = item_views(items@);
    let mut total: i64 = 0;
    let mut i: usize = 0;
    assert(all.subrange(0, 0) =~= Seq::<ItemView>::empty());
    while i < items.len()
        invariant
            i <= items@.len(),
            all == item_views(items@),
            total == total_tokens(*model, all.subrange(0, i as int)),
        decreases items@.len() - i,
    {
        proof {
            let next = all.subrange(0, i + 1);
            assert(next.drop_last() =~= all.subrange(0, i as int));
            assert(next.last() == items@[i as int]@);
        }
        total = saturating_add(total, model.item_tokens(&items[i]));
        i += 1;
    }
    assert(all.subrange(0, i as int) =~= all);
    total
}

/// Tool output cut down to a token budget.
pub open spec fn truncated_payload<M: SessionModel>(
    model: M,
    output: PayloadView,
    tokens: nat,
) -> PayloadView {
    PayloadView {
        body: match output.body {
            OutputBodyView::Text(text) => OutputBodyView::Text(truncated(text, tokens)),
            OutputBodyView::ContentItems { encoded, text } => model.spec_truncate_content(
                encoded,
                text,
                tokens,
            ),
        },
        success: output.success,
    }
}

pub fn truncate_function_output_payload<M: SessionModel>(
    model: &M,
    output: &FunctionCallOutputPayload,
    tokens: usize,
) -> (r: FunctionCallOutputPayload)
    ensures
        r@ == truncated_payload(*model, output@, tokens as nat),
{
    let body = match &output.body {
        FunctionCallOutputBody::Text(text) => FunctionCallOutputBody::Text(
            truncate_text(text.as_str(), tokens),
        ),
        FunctionCallOutputBody::ContentItems { encoded, text } => model.truncate_content(
            encoded.as_str(),
            text,
            tokens,
        ),
    };
    FunctionCallOutputPayload { body, success: output.success }
}

} // verus!
