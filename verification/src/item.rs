//! The items of a conversation, as they are recorded and sent to a model.

use crate::text::texts;
use vstd::prelude::*;
use vstd::string::*;

verus! {

// ---------------------------------------------------------------------------------------------
// Optional texts and lists of texts.
// ---------------------------------------------------------------------------------------------

pub open spec fn option_view(text: Option<String>) -> Option<Seq<char>> {
    match text {
        Some(t) => Some(t@),
        None => None,
    }
}

pub fn clone_option(text: &Option<String>) -> (r: Option<String>)
    ensures
        option_view(r) == option_view(*text),
{
    match text {
        Some(t) => Some(t.clone()),
        None => None,
    }
}

pub fn same_option(a: &Option<String>, b: &Option<String>) -> (r: bool)
    ensures
        r == (option_view(*a) == option_view(*b)),
{
    match (a, b) {
        (Some(x), Some(y)) => *x == *y,
        (None, None) => true,
        _ => false,
    }
}

pub open spec fn list_view(list: Seq<String>) -> Seq<Seq<char>> {
    texts(list)
}

pub fn clone_list(list: &Vec<String>) -> (r: Vec<String>)
    ensures
        list_view(r@) == list_view(list@),
{
    let mut r: Vec<String> = Vec::new();
    let mut i: usize = 0;
    while i < list.len()
        invariant
            i <= list@.len(),
            r@.len() == i,
            forall|k: int| 0 <= k < i ==> (#[trigger] r@[k])@ == list@[k]@,
        decreases list@.len() - i,
    {
        r.push(list[i].clone());
        i += 1;
    }
    assert(list_view(r@) =~= list_view(list@));
    r
}

pub fn same_list(a: &Vec<String>, b: &Vec<String>) -> (r: bool)
    ensures
        r == (list_view(a@) == list_view(b@)),
{
    if a.len() != b.len() {
        assert(list_view(a@).len() != list_view(b@).len());
        return false;
    }
    let mut i: usize = 0;
    while i < a.len()
        invariant
            i <= a@.len() == b@.len(),
            forall|k: int| 0 <= k < i ==> (#[trigger] a@[k])@ == b@[k]@,
        decreases a@.len() - i,
    {
        if a[i] != b[i] {
            assert(list_view(a@)[i as int] != list_view(b@)[i as int]);
            return false;
        }
        i += 1;
    }
    assert(list_view(a@) =~= list_view(b@));
    true
}

pub open spec fn option_list_view(list: Option<Vec<String>>) -> Option<Seq<Seq<char>>> {
    match list {
        Some(l) => Some(list_view(l@)),
        None => None,
    }
}

pub fn clone_option_list(list: &Option<Vec<String>>) -> (r: Option<Vec<String>>)
    ensures
        option_list_view(r) == option_list_view(*list),
{
    match list {
        Some(l) => Some(clone_list(l)),
        None => None,
    }
}

pub fn same_option_list(a: &Option<Vec<String>>, b: &Option<Vec<String>>) -> (r: bool)
    ensures
        r == (option_list_view(*a) == option_list_view(*b)),
{
    match (a, b) {
        (Some(x), Some(y)) => same_list(x, y),
        (None, None) => true,
        _ => false,
    }
}

// ---------------------------------------------------------------------------------------------
// Message content.
// ---------------------------------------------------------------------------------------------

/// One part of a message.
#[derive(Debug, PartialEq, Eq)]
pub enum ContentItem {
    InputText { text: String },
    InputImage { image_url: String, detail: Option<String> },
    OutputText { text: String },
}

pub enum ContentView {
    InputText { text: Seq<char> },
    InputImage { image_url: Seq<char>, detail: Option<Seq<char>> },
    OutputText { text: Seq<char> },
}

impl View for ContentItem {
    type V = ContentView;

    open spec fn view(&self) -> ContentView {
        match self {
            ContentItem::InputText { text } => ContentView::InputText { text: text@ },
            ContentItem::InputImage { image_url, detail } => ContentView::InputImage {
                image_url: image_url@,
                detail: option_view(*detail),
            },
            ContentItem::OutputText { text } => ContentView::OutputText { text: text@ },
        }
    }
}

impl Clone for ContentItem {
    fn clone(&self) -> (r: Self)
        ensures
            r@ == self@,
    {
        match self {
            ContentItem::InputText { text } => ContentItem::InputText { text: text.clone() },
            ContentItem::InputImage { image_url, detail } => ContentItem::InputImage {
                image_url: image_url.clone(),
                detail: clone_option(detail),
            },
            ContentItem::OutputText { text } => ContentItem::OutputText { text: text.clone() },
        }
    }
}

pub fn same_content_item(a: &ContentItem, b: &ContentItem) -> (r: bool)
    ensures
        r == (a@ == b@),
{
    match (a, b) {
        (ContentItem::InputText { text: x }, ContentItem::InputText { text: y }) => *x == *y,
        (
            ContentItem::InputImage { image_url: x, detail: d },
            ContentItem::InputImage { image_url: y, detail: e },
        ) => *x == *y && same_option(d, e),
        (ContentItem::OutputText { text: x }, ContentItem::OutputText { text: y }) => *x == *y,
        _ => false,
    }
}

pub open spec fn content_views(content: Seq<ContentItem>) -> Seq<ContentView> {
    content.map_values(|c: ContentItem| c@)
}

pub fn clone_content(content: &Vec<ContentItem>) -> (r: Vec<ContentItem>)
    ensures
        content_views(r@) == content_views(content@),
{
    let mut r: Vec<ContentItem> = Vec::new();
    let mut i: usize = 0;
    while i < content.len()
        invariant
            i <= content@.len(),
            r@.len() == i,
            forall|k: int| 0 <= k < i ==> (#[trigger] r@[k])@ == content@[k]@,
        decreases content@.len() - i,
    {
        r.push(content[i].clone());
        i += 1;
    }
    assert(content_views(r@) =~= content_views(content@));
    r
}

pub fn same_content(a: &Vec<ContentItem>, b: &Vec<ContentItem>) -> (r: bool)
    ensures
        r == (content_views(a@) == content_views(b@)),
{
    if a.len() != b.len() {
        assert(content_views(a@).len() != content_views(b@).len());
        return false;
    }
    let mut i: usize = 0;
    while i < a.len()
        invariant
            i <= a@.len() == b@.len(),
            forall|k: int| 0 <= k < i ==> (#[trigger] a@[k])@ == b@[k]@,
        decreases a@.len() - i,
    {
        if !same_content_item(&a[i], &b[i]) {
            assert(content_views(a@)[i as int] != content_views(b@)[i as int]);
            return false;
        }
        i += 1;
    }
    assert(content_views(a@) =~= content_views(b@));
    true
}

/// One part of a message between agents.
#[derive(Debug, PartialEq, Eq)]
pub enum AgentContent {
    InputText { text: String },
    EncryptedContent { encrypted_content: String },
}

pub enum AgentContentView {
    InputText { text: Seq<char> },
    EncryptedContent { encrypted_content: Seq<char> },
}

impl View for AgentContent {
    type V = AgentContentView;

    open spec fn view(&self) -> AgentContentView {
        match self {
            AgentContent::InputText { text } => AgentContentView::InputText { text: text@ },
            AgentContent::EncryptedContent { encrypted_content } => {
                AgentContentView::EncryptedContent { encrypted_content: encrypted_content@ }
            },
        }
    }
}

impl Clone for AgentContent {
    fn clone(&self) -> (r: Self)
        ensures
            r@ == self@,
    {
        match self {
            AgentContent::InputText { text } => AgentContent::InputText { text: text.clone() },
            AgentContent::EncryptedContent { encrypted_content } => {
                AgentContent::EncryptedContent { encrypted_content: encrypted_content.clone() }
            },
        }
    }
}

fn same_agent_part(a: &AgentContent, b: &AgentContent) -> (r: bool)
    ensures
        r == (a@ == b@),
{
    match (a, b) {
        (AgentContent::InputText { text: x }, AgentContent::InputText { text: y }) => *x == *y,
        (
            AgentContent::EncryptedContent { encrypted_content: x },
            AgentContent::EncryptedContent { encrypted_content: y },
        ) => *x == *y,
        _ => false,
    }
}

pub open spec fn agent_views(content: Seq<AgentContent>) -> Seq<AgentContentView> {
    content.map_values(|c: AgentContent| c@)
}

fn clone_agent_content(content: &Vec<AgentContent>) -> (r: Vec<AgentContent>)
    ensures
        agent_views(r@) == agent_views(content@),
{
    let mut r: Vec<AgentContent> = Vec::new();
    let mut i: usize = 0;
    while i < content.len()
        invariant
            i <= content@.len(),
            r@.len() == i,
            forall|k: int| 0 <= k < i ==> (#[trigger] r@[k])@ == content@[k]@,
        decreases content@.len() - i,
    {
        r.push(content[i].clone());
        i += 1;
    }
    assert(agent_views(r@) =~= agent_views(content@));
    r
}

fn same_agent_content(a: &Vec<AgentContent>, b: &Vec<AgentContent>) -> (r: bool)
    ensures
        r == (agent_views(a@) == agent_views(b@)),
{
    if a.len() != b.len() {
        assert(agent_views(a@).len() != agent_views(b@).len());
        return false;
    }
    let mut i: usize = 0;
    while i < a.len()
        invariant
            i <= a@.len() == b@.len(),
            forall|k: int| 0 <= k < i ==> (#[trigger] a@[k])@ == b@[k]@,
        decreases a@.len() - i,
    {
        if !same_agent_part(&a[i], &b[i]) {
            assert(agent_views(a@)[i as int] != agent_views(b@)[i as int]);
            return false;
        }
        i += 1;
    }
    assert(agent_views(a@) =~= agent_views(b@));
    true
}

// ---------------------------------------------------------------------------------------------
// Tool payloads and actions.
// ---------------------------------------------------------------------------------------------

/// What a tool call gave back.
#[derive(Debug, PartialEq, Eq)]
pub enum FunctionCallOutputBody {
    Text(String),
    /// Structured content in its wire form, with the text that it shows, if any.
    ContentItems { encoded: String, text: Option<String> },
}

pub enum OutputBodyView {
    Text(Seq<char>),
    ContentItems { encoded: Seq<char>, text: Option<Seq<char>> },
}

impl View for FunctionCallOutputBody {
    type V = OutputBodyView;

    open spec fn view(&self) -> OutputBodyView {
        match self {
            FunctionCallOutputBody::Text(t) => OutputBodyView::Text(t@),
            FunctionCallOutputBody::ContentItems { encoded, text } => OutputBodyView::ContentItems {
                encoded: encoded@,
                text: option_view(*text),
            },
        }
    }
}

impl Clone for FunctionCallOutputBody {
    fn clone(&self) -> (r: Self)
        ensures
            r@ == self@,
    {
        match self {
            FunctionCallOutputBody::Text(t) => FunctionCallOutputBody::Text(t.clone()),
            FunctionCallOutputBody::ContentItems { encoded, text } => {
                FunctionCallOutputBody::ContentItems {
                    encoded: encoded.clone(),
                    text: clone_option(text),
                }
            },
        }
    }
}

/// The text that a body shows.
pub open spec fn body_text(body: OutputBodyView) -> Option<Seq<char>> {
    match body {
        OutputBodyView::Text(t) => Some(t),
        OutputBodyView::ContentItems { encoded, text } => text,
    }
}

impl FunctionCallOutputBody {
    pub fn to_text(&self) -> (r: Option<String>)
        ensures
            option_view(r) == body_text(self@),
    {
        match self {
            FunctionCallOutputBody::Text(t) => Some(t.clone()),
            FunctionCallOutputBody::ContentItems { encoded: _, text } => clone_option(text),
        }
    }
}

#[derive(Debug, PartialEq, Eq)]
pub struct FunctionCallOutputPayload {
    pub body: FunctionCallOutputBody,
    pub success: Option<bool>,
}

pub struct PayloadView {
    pub body: OutputBodyView,
    pub success: Option<bool>,
}

impl View for FunctionCallOutputPayload {
    type V = PayloadView;

    open spec fn view(&self) -> PayloadView {
        PayloadView { body: self.body@, success: self.success }
    }
}

impl Clone for FunctionCallOutputPayload {
    fn clone(&self) -> (r: Self)
        ensures
            r@ == self@,
    {
        FunctionCallOutputPayload { body: self.body.clone(), success: self.success }
    }
}

impl FunctionCallOutputPayload {
    pub fn from_text(text: String) -> (r: Self)
        ensures
            r@ == (PayloadView { body: OutputBodyView::Text(text@), success: None }),
    {
        FunctionCallOutputPayload { body: FunctionCallOutputBody::Text(text), success: None }
    }

    /// The text of a plain text body.
    pub fn text_content(&self) -> (r: Option<&str>)
        ensures
            match self@.body {
                OutputBodyView::Text(t) => r is Some && r->Some_0@ == t,
                _ => r is None,
            },
    {
        match &self.body {
            FunctionCallOutputBody::Text(t) => Some(t.as_str()),
            _ => None,
        }
    }
}

fn same_bool_option(a: Option<bool>, b: Option<bool>) -> (r: bool)
    ensures
        r == (a == b),
{
    match (a, b) {
        (Some(x), Some(y)) => x == y,
        (None, None) => true,
        _ => false,
    }
}

fn same_payload(a: &FunctionCallOutputPayload, b: &FunctionCallOutputPayload) -> (r: bool)
    ensures
        r == (a@ == b@),
{
    let body = match (&a.body, &b.body) {
        (FunctionCallOutputBody::Text(x), FunctionCallOutputBody::Text(y)) => *x == *y,
        (
            FunctionCallOutputBody::ContentItems { encoded: x, text: t },
            FunctionCallOutputBody::ContentItems { encoded: y, text: u },
        ) => *x == *y && same_option(t, u),
        _ => false,
    };
    body && same_bool_option(a.success, b.success)
}

#[derive(Debug, PartialEq, Eq)]
pub enum WebSearchAction {
    Search { query: Option<String>, queries: Option<Vec<String>> },
    OpenPage { url: Option<String> },
    FindInPage { url: Option<String>, pattern: Option<String> },
    Other,
}

pub enum WebSearchView {
    Search { query: Option<Seq<char>>, queries: Option<Seq<Seq<char>>> },
    OpenPage { url: Option<Seq<char>> },
    FindInPage { url: Option<Seq<char>>, pattern: Option<Seq<char>> },
    Other,
}

impl View for WebSearchAction {
    type V = WebSearchView;

    open spec fn view(&self) -> WebSearchView {
        match self {
            WebSearchAction::Search { query, queries } => WebSearchView::Search {
                query: option_view(*query),
                queries: option_list_view(*queries),
            },
            WebSearchAction::OpenPage { url } => WebSearchView::OpenPage { url: option_view(*url) },
            WebSearchAction::FindInPage { url, pattern } => WebSearchView::FindInPage {
                url: option_view(*url),
                pattern: option_view(*pattern),
            },
            WebSearchAction::Other => WebSearchView::Other,
        }
    }
}

impl Clone for WebSearchAction {
    fn clone(&self) -> (r: Self)
        ensures
            r@ == self@,
    {
        match self {
            WebSearchAction::Search { query, queries } => WebSearchAction::Search {
                query: clone_option(query),
                queries: clone_option_list(queries),
            },
            WebSearchAction::OpenPage { url } => WebSearchAction::OpenPage {
                url: clone_option(url),
            },
            WebSearchAction::FindInPage { url, pattern } => WebSearchAction::FindInPage {
                url: clone_option(url),
                pattern: clone_option(pattern),
            },
            WebSearchAction::Other => WebSearchAction::Other,
        }
    }
}

fn same_web_search(a: &WebSearchAction, b: &WebSearchAction) -> (r: bool)
    ensures
        r == (a@ == b@),
{
    match (a, b) {
        (
            WebSearchAction::Search { query: q, queries: qs },
            WebSearchAction::Search { query: p, queries: ps },
        ) => same_option(q, p) && same_option_list(qs, ps),
        (WebSearchAction::OpenPage { url: x }, WebSearchAction::OpenPage { url: y }) => same_option(
            x,
            y,
        ),
        (
            WebSearchAction::FindInPage { url: x, pattern: p },
            WebSearchAction::FindInPage { url: y, pattern: q },
        ) => same_option(x, y) && same_option(p, q),
        (WebSearchAction::Other, WebSearchAction::Other) => true,
        _ => false,
    }
}

pub open spec fn web_search_option(action: Option<WebSearchAction>) -> Option<WebSearchView> {
    match action {
        Some(a) => Some(a@),
        None => None,
    }
}

pub fn clone_web_search_option(action: &Option<WebSearchAction>) -> (r: Option<WebSearchAction>)
    ensures
        web_search_option(r) == web_search_option(*action),
{
    match action {
        Some(a) => Some(a.clone()),
        None => None,
    }
}

#[derive(Debug, Clone, Copy, PartialEq, Eq, Structural)]
pub enum LocalShellStatus {
    Completed,
    InProgress,
    Incomplete,
}

/// A command that the session's own shell runs. Environment entries are `NAME=value`.
#[derive(Debug, PartialEq, Eq)]
pub struct LocalShellExecAction {
    pub command: Vec<String>,
    pub timeout_ms: Option<u64>,
    pub working_directory: Option<String>,
    pub env: Option<Vec<String>>,
    pub user: Option<String>,
}

pub struct ShellView {
    pub command: Seq<Seq<char>>,
    pub timeout_ms: Option<u64>,
    pub working_directory: Option<Seq<char>>,
    pub env: Option<Seq<Seq<char>>>,
    pub user: Option<Seq<char>>,
}

impl View for LocalShellExecAction {
    type V = ShellView;

    open spec fn view(&self) -> ShellView {
        ShellView {
            command: list_view(self.command@),
            timeout_ms: self.timeout_ms,
            working_directory: option_view(self.working_directory),
            env: option_list_view(self.env),
            user: option_view(self.user),
        }
    }
}

impl Clone for LocalShellExecAction {
    fn clone(&self) -> (r: Self)
        ensures
            r@ == self@,
    {
        LocalShellExecAction {
            command: clone_list(&self.command),
            timeout_ms: self.timeout_ms,
            working_directory: clone_option(&self.working_directory),
            env: clone_option_list(&self.env),
            user: clone_option(&self.user),
        }
    }
}

fn same_shell(a: &LocalShellExecAction, b: &LocalShellExecAction) -> (r: bool)
    ensures
        r == (a@ == b@),
{
    let timeout = match (a.timeout_ms, b.timeout_ms) {
        (Some(x), Some(y)) => x == y,
        (None, None) => true,
        _ => false,
    };
    same_list(&a.command, &b.command) && timeout && same_option(
        &a.working_directory,
        &b.working_directory,
    ) && same_option_list(&a.env, &b.env) && same_option(&a.user, &b.user)
}

// ---------------------------------------------------------------------------------------------
// Items.
// ---------------------------------------------------------------------------------------------

#[derive(Debug, Clone, Copy, PartialEq, Eq, Structural)]
pub enum MessagePhase {
    Commentary,
    FinalAnswer,
}

fn same_phase(a: Option<MessagePhase>, b: Option<MessagePhase>) -> (r: bool)
    ensures
        r == (a == b),
{
    match (a, b) {
        (Some(x), Some(y)) => x == y,
        (None, None) => true,
        _ => false,
    }
}

/// What an item holds. JSON values (the arguments of a tool search, the tools that it found) are
/// held in their compact textual form, object keys in order.
#[allow(inconsistent_fields)]
#[derive(Debug, PartialEq, Eq)]
pub enum ItemBody {
    Message { role: String, content: Vec<ContentItem>, phase: Option<MessagePhase> },
    AgentMessage { author: String, recipient: String, content: Vec<AgentContent> },
    Reasoning {
        summary: Vec<String>,
        content: Option<Vec<String>>,
        encrypted_content: Option<String>,
    },
    FunctionCall { name: String, namespace: Option<String>, arguments: String, call_id: String },
    FunctionCallOutput { call_id: String, output: FunctionCallOutputPayload },
    CustomToolCall { status: Option<String>, call_id: String, name: String, input: String },
    CustomToolCallOutput {
        call_id: String,
        name: Option<String>,
        output: FunctionCallOutputPayload,
    },
    ToolSearchCall {
        call_id: Option<String>,
        status: Option<String>,
        execution: String,
        arguments: String,
    },
    ToolSearchOutput {
        call_id: Option<String>,
        status: String,
        execution: String,
        tools: Vec<String>,
    },
    LocalShellCall {
        call_id: Option<String>,
        status: LocalShellStatus,
        action: LocalShellExecAction,
    },
    WebSearchCall { status: Option<String>, action: Option<WebSearchAction> },
    ImageGenerationCall { status: String, revised_prompt: Option<String>, result: String },
    Compaction { encrypted_content: String },
    CompactionTrigger,
    ContextCompaction { encrypted_content: Option<String> },
    Other,
}

#[allow(inconsistent_fields)]
pub enum BodyView {
    Message { role: Seq<char>, content: Seq<ContentView>, phase: Option<MessagePhase> },
    AgentMessage { author: Seq<char>, recipient: Seq<char>, content: Seq<AgentContentView> },
    Reasoning {
        summary: Seq<Seq<char>>,
        content: Option<Seq<Seq<char>>>,
        encrypted_content: Option<Seq<char>>,
    },
    FunctionCall {
        name: Seq<char>,
        namespace: Option<Seq<char>>,
        arguments: Seq<char>,
        call_id: Seq<char>,
    },
    FunctionCallOutput { call_id: Seq<char>, output: PayloadView },
    CustomToolCall {
        status: Option<Seq<char>>,
        call_id: Seq<char>,
        name: Seq<char>,
        input: Seq<char>,
    },
    CustomToolCallOutput { call_id: Seq<char>, name: Option<Seq<char>>, output: PayloadView },
    ToolSearchCall {
        call_id: Option<Seq<char>>,
        status: Option<Seq<char>>,
        execution: Seq<char>,
        arguments: Seq<char>,
    },
    ToolSearchOutput {
        call_id: Option<Seq<char>>,
        status: Seq<char>,
        execution: Seq<char>,
        tools: Seq<Seq<char>>,
    },
    LocalShellCall { call_id: Option<Seq<char>>, status: LocalShellStatus, action: ShellView },
    WebSearchCall { status: Option<Seq<char>>, action: Option<WebSearchView> },
    ImageGenerationCall {
        status: Seq<char>,
        revised_prompt: Option<Seq<char>>,
        result: Seq<char>,
    },
    Compaction { encrypted_content: Seq<char> },
    CompactionTrigger,
    ContextCompaction { encrypted_content: Option<Seq<char>> },
    Other,
}

impl View for ItemBody {
    type V = BodyView;

    open spec fn view(&self) -> BodyView {
        match self {
            ItemBody::Message { role, content, phase } => BodyView::Message {
                role: role@,
                content: content_views(content@),
                phase: *phase,
            },
            ItemBody::AgentMessage { author, recipient, content } => BodyView::AgentMessage {
                author: author@,
                recipient: recipient@,
                content: agent_views(content@),
            },
            ItemBody::Reasoning { summary, content, encrypted_content } => BodyView::Reasoning {
                summary: list_view(summary@),
                content: option_list_view(*content),
                encrypted_content: option_view(*encrypted_content),
            },
            ItemBody::FunctionCall { name, namespace, arguments, call_id } => {
                BodyView::FunctionCall {
                    name: name@,
                    namespace: option_view(*namespace),
                    arguments: arguments@,
                    call_id: call_id@,
                }
            },
            ItemBody::FunctionCallOutput { call_id, output } => BodyView::FunctionCallOutput {
                call_id: call_id@,
                output: output@,
            },
            ItemBody::CustomToolCall { status, call_id, name, input } => BodyView::CustomToolCall {
                status: option_view(*status),
                call_id: call_id@,
                name: name@,
                input: input@,
            },
            ItemBody::CustomToolCallOutput { call_id, name, output } => {
                BodyView::CustomToolCallOutput {
                    call_id: call_id@,
                    name: option_view(*name),
                    output: output@,
                }
            },
            ItemBody::ToolSearchCall { call_id, status, execution, arguments } => {
                BodyView::ToolSearchCall {
                    call_id: option_view(*call_id),
                    status: option_view(*status),
                    execution: execution@,
                    arguments: arguments@,
                }
            },
            ItemBody::ToolSearchOutput { call_id, status, execution, tools } => {
                BodyView::ToolSearchOutput {
                    call_id: option_view(*call_id),
                    status: status@,
                    execution: execution@,
                    tools: list_view(tools@),
                }
            },
            ItemBody::LocalShellCall { call_id, status, action } => BodyView::LocalShellCall {
                call_id: option_view(*call_id),
                status: *status,
                action: action@,
            },
            ItemBody::WebSearchCall { status, action } => BodyView::WebSearchCall {
                status: option_view(*status),
                action: web_search_option(*action),
            },
            ItemBody::ImageGenerationCall { status, revised_prompt, result } => {
                BodyView::ImageGenerationCall {
                    status: status@,
                    revised_prompt: option_view(*revised_prompt),
                    result: result@,
                }
            },
            ItemBody::Compaction { encrypted_content } => BodyView::Compaction {
                encrypted_content: encrypted_content@,
            },
            ItemBody::CompactionTrigger => BodyView::CompactionTrigger,
            ItemBody::ContextCompaction { encrypted_content } => BodyView::ContextCompaction {
                encrypted_content: option_view(*encrypted_content),
            },
            ItemBody::Other => BodyView::Other,
        }
    }
}

impl Clone for ItemBody {
    fn clone(&self) -> (r: Self)
        ensures
            r@ == self@,
    {
        match self {
            ItemBody::Message { role, content, phase } => ItemBody::Message {
                role: role.clone(),
                content: clone_content(content),
                phase: *phase,
            },
            ItemBody::AgentMessage { author, recipient, content } => ItemBody::AgentMessage {
                author: author.clone(),
                recipient: recipient.clone(),
                content: clone_agent_content(content),
            },
            ItemBody::Reasoning { summary, content, encrypted_content } => ItemBody::Reasoning {
                summary: clone_list(summary),
                content: clone_option_list(content),
                encrypted_content: clone_option(encrypted_content),
            },
            ItemBody::FunctionCall { name, namespace, arguments, call_id } => {
                ItemBody::FunctionCall {
                    name: name.clone(),
                    namespace: clone_option(namespace),
                    arguments: arguments.clone(),
                    call_id: call_id.clone(),
                }
            },
            ItemBody::FunctionCallOutput { call_id, output } => ItemBody::FunctionCallOutput {
                call_id: call_id.clone(),
                output: output.clone(),
            },
            ItemBody::CustomToolCall { status, call_id, name, input } => ItemBody::CustomToolCall {
                status: clone_option(status),
                call_id: call_id.clone(),
                name: name.clone(),
                input: input.clone(),
            },
            ItemBody::CustomToolCallOutput { call_id, name, output } => {
                ItemBody::CustomToolCallOutput {
                    call_id: call_id.clone(),
                    name: clone_option(name),
                    output: output.clone(),
                }
            },
            ItemBody::ToolSearchCall { call_id, status, execution, arguments } => {
                ItemBody::ToolSearchCall {
                    call_id: clone_option(call_id),
                    status: clone_option(status),
                    execution: execution.clone(),
                    arguments: arguments.clone(),
                }
            },
            ItemBody::ToolSearchOutput { call_id, status, execution, tools } => {
                ItemBody::ToolSearchOutput {
                    call_id: clone_option(call_id),
                    status: status.clone(),
                    execution: execution.clone(),
                    tools: clone_list(tools),
                }
            },
            ItemBody::LocalShellCall { call_id, status, action } => ItemBody::LocalShellCall {
                call_id: clone_option(call_id),
                status: *status,
                action: action.clone(),
            },
            ItemBody::WebSearchCall { status, action } => ItemBody::WebSearchCall {
                status: clone_option(status),
                action: clone_web_search_option(action),
            },
            ItemBody::ImageGenerationCall { status, revised_prompt, result } => {
                ItemBody::ImageGenerationCall {
                    status: status.clone(),
                    revised_prompt: clone_option(revised_prompt),
                    result: result.clone(),
                }
            },
            ItemBody::Compaction { encrypted_content } => ItemBody::Compaction {
                encrypted_content: encrypted_content.clone(),
            },
            ItemBody::CompactionTrigger => ItemBody::CompactionTrigger,
            ItemBody::ContextCompaction { encrypted_content } => ItemBody::ContextCompaction {
                encrypted_content: clone_option(encrypted_content),
            },
            ItemBody::Other => ItemBody::Other,
        }
    }
}

fn same_body(a: &ItemBody, b: &ItemBody) -> (r: bool)
    ensures
        r == (a@ == b@),
{
    match (a, b) {
        (
            ItemBody::Message { role: r1, content: c1, phase: p1 },
            ItemBody::Message { role: r2, content: c2, phase: p2 },
        ) => *r1 == *r2 && same_content(c1, c2) && same_phase(*p1, *p2),
        (
            ItemBody::AgentMessage { author: a1, recipient: r1, content: c1 },
            ItemBody::AgentMessage { author: a2, recipient: r2, content: c2 },
        ) => *a1 == *a2 && *r1 == *r2 && same_agent_content(c1, c2),
        (
            ItemBody::Reasoning { summary: s1, content: c1, encrypted_content: e1 },
            ItemBody::Reasoning { summary: s2, content: c2, encrypted_content: e2 },
        ) => same_list(s1, s2) && same_option_list(c1, c2) && same_option(e1, e2),
        (
            ItemBody::FunctionCall { name: n1, namespace: s1, arguments: a1, call_id: c1 },
            ItemBody::FunctionCall { name: n2, namespace: s2, arguments: a2, call_id: c2 },
        ) => *n1 == *n2 && same_option(s1, s2) && *a1 == *a2 && *c1 == *c2,
        (
            ItemBody::FunctionCallOutput { call_id: c1, output: o1 },
            ItemBody::FunctionCallOutput { call_id: c2, output: o2 },
        ) => *c1 == *c2 && same_payload(o1, o2),
        (
            ItemBody::CustomToolCall { status: s1, call_id: c1, name: n1, input: i1 },
            ItemBody::CustomToolCall { status: s2, call_id: c2, name: n2, input: i2 },
        ) => same_option(s1, s2) && *c1 == *c2 && *n1 == *n2 && *i1 == *i2,
        (
            ItemBody::CustomToolCallOutput { call_id: c1, name: n1, output: o1 },
            ItemBody::CustomToolCallOutput { call_id: c2, name: n2, output: o2 },
        ) => *c1 == *c2 && same_option(n1, n2) && same_payload(o1, o2),
        (
            ItemBody::ToolSearchCall { call_id: c1, status: s1, execution: e1, arguments: a1 },
            ItemBody::ToolSearchCall { call_id: c2, status: s2, execution: e2, arguments: a2 },
        ) => same_option(c1, c2) && same_option(s1, s2) && *e1 == *e2 && *a1 == *a2,
        (
            ItemBody::ToolSearchOutput { call_id: c1, status: s1, execution: e1, tools: t1 },
            ItemBody::ToolSearchOutput { call_id: c2, status: s2, execution: e2, tools: t2 },
        ) => same_option(c1, c2) && *s1 == *s2 && *e1 == *e2 && same_list(t1, t2),
        (
            ItemBody::LocalShellCall { call_id: c1, status: s1, action: a1 },
            ItemBody::LocalShellCall { call_id: c2, status: s2, action: a2 },
        ) => same_option(c1, c2) && *s1 == *s2 && same_shell(a1, a2),
        (
            ItemBody::WebSearchCall { status: s1, action: a1 },
            ItemBody::WebSearchCall { status: s2, action: a2 },
        ) => same_option(s1, s2) && match (a1, a2) {
            (Some(x), Some(y)) => same_web_search(x, y),
            (None, None) => true,
            _ => false,
        },
        (
            ItemBody::ImageGenerationCall { status: s1, revised_prompt: p1, result: r1 },
            ItemBody::ImageGenerationCall { status: s2, revised_prompt: p2, result: r2 },
        ) => *s1 == *s2 && same_option(p1, p2) && *r1 == *r2,
        (
            ItemBody::Compaction { encrypted_content: e1 },
            ItemBody::Compaction { encrypted_content: e2 },
        ) => *e1 == *e2,
        (ItemBody::CompactionTrigger, ItemBody::CompactionTrigger) => true,
        (
            ItemBody::ContextCompaction { encrypted_content: e1 },
            ItemBody::ContextCompaction { encrypted_content: e2 },
        ) => same_option(e1, e2),
        (ItemBody::Other, ItemBody::Other) => true,
        _ => false,
    }
}

/// One item of a conversation.
#[derive(Debug, PartialEq, Eq)]
pub struct ResponseItem {
    pub id: Option<String>,
    /// Data of the transport that goes with the item unread.
    pub metadata: Option<String>,
    pub body: ItemBody,
}

pub struct ItemView {
    pub id: Option<Seq<char>>,
    pub metadata: Option<Seq<char>>,
    pub body: BodyView,
}

impl View for ResponseItem {
    type V = ItemView;

    open spec fn view(&self) -> ItemView {
        ItemView {
            id: option_view(self.id),
            metadata: option_view(self.metadata),
            body: self.body@,
        }
    }
}

impl Clone for ResponseItem {
    fn clone(&self) -> (r: Self)
        ensures
            r@ == self@,
    {
        ResponseItem {
            id: clone_option(&self.id),
            metadata: clone_option(&self.metadata),
            body: self.body.clone(),
        }
    }
}

/// An item with no id and no transport data.
pub open spec fn plain_item(body: BodyView) -> ItemView {
    ItemView { id: None, metadata: None, body }
}

/// A message that holds one text part.
pub open spec fn text_message(role: Seq<char>, text: Seq<char>) -> ItemView {
    plain_item(
        BodyView::Message {
            role,
            content: seq![ContentView::InputText { text }],
            phase: None,
        },
    )
}

impl ResponseItem {
    pub fn new(body: ItemBody) -> (r: Self)
        ensures
            r@ == plain_item(body@),
    {
        ResponseItem { id: None, metadata: None, body }
    }

    pub fn text_message(role: &str, text: String) -> (r: Self)
        ensures
            r@ == text_message(role@, text@),
    {
        let mut content: Vec<ContentItem> = Vec::new();
        content.push(ContentItem::InputText { text });
        assert(content_views(content@) =~= seq![ContentView::InputText { text: text@ }]);
        ResponseItem::new(
            ItemBody::Message { role: role.to_owned(), content, phase: None },
        )
    }

    /// Whether the two items are the same in every field.
    pub fn same(&self, other: &Self) -> (r: bool)
        ensures
            r == (self@ == other@),
    {
        same_option(&self.id, &other.id) && same_option(&self.metadata, &other.metadata)
            && same_body(&self.body, &other.body)
    }
}

pub open spec fn item_views(items: Seq<ResponseItem>) -> Seq<ItemView> {
    items.map_values(|i: ResponseItem| i@)
}

pub fn clone_items(items: &[ResponseItem]) -> (r: Vec<ResponseItem>)
    ensures
        item_views(r@) == item_views(items@),
{
    let mut r: Vec<ResponseItem> = Vec::new();
    let mut i: usize = 0;
    while i < items.len()
        invariant
            i <= items@.len(),
            r@.len() == i,
            forall|k: int| 0 <= k < i ==> (#[trigger] r@[k])@ == items@[k]@,
        decreases items@.len() - i,
    {
        r.push(items[i].clone());
        i += 1;
    }
    assert(item_views(r@) =~= item_views(items@));
    r
}

/// Puts copies of `more` behind the items.
pub fn extend_items(items: &mut Vec<ResponseItem>, more: &[ResponseItem])
    ensures
        item_views(final(items)@) == item_views(old(items)@) + item_views(more@),
{
    let ghost before = items@;
    let mut i: usize = 0;
    while i < more.len()
        invariant
            i <= more@.len(),
            items@.len() == before.len() + i,
            forall|k: int| 0 <= k < before.len() ==> #[trigger] items@[k] == before[k],
            forall|k: int| 0 <= k < i ==> (#[trigger] items@[before.len() + k])@ == more@[k]@,
        decreases more@.len() - i,
    {
        items.push(more[i].clone());
        i += 1;
    }
    assert forall|k: int| 0 <= k < items@.len() implies item_views(items@)[k] == (item_views(before)
        + item_views(more@))[k] by {
        if k >= before.len() {
            assert(items@[before.len() + (k - before.len())]@ == more@[k - before.len()]@);
        }
    }
    assert(item_views(items@) =~= item_views(before) + item_views(more@));
}

/// Whether `items` holds an item equal to `item`.
pub fn contains_item(items: &[ResponseItem], item: &ResponseItem) -> (r: bool)
    ensures
        r == item_views(items@).contains(item@),
{
    let mut i: usize = 0;
    while i < items.len()
        invariant
            i <= items@.len(),
            forall|k: int| 0 <= k < i ==> (#[trigger] items@[k])@ != item@,
        decreases items@.len() - i,
    {
        if items[i].same(item) {
            assert(item_views(items@)[i as int] == item@);
            return true;
        }
        i += 1;
    }
    false
}

} // verus!
