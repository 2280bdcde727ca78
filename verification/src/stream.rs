//! Reading what a model streams back while a history is compacted.

use crate::item::{
    content_views, item_views, ContentItem, ContentView, ItemBody, ItemView, ResponseItem,
};
use crate::rolling_context_filter::{is_message_of, message_of};
use crate::session_model::SessionModel;
use crate::text::{blank, decimal, decimal_text, is_blank};
use vstd::prelude::*;
use vstd::string::*;

verus! {

/// What a request cost.
#[derive(Clone, Copy, Debug, Eq, PartialEq, Structural)]
pub struct TokenUsage {
    pub input_tokens: i64,
    pub cached_input_tokens: i64,
    pub output_tokens: i64,
    pub reasoning_output_tokens: i64,
    pub total_tokens: i64,
}

/// Why a compaction did not come to an end.
#[derive(Debug, PartialEq, Eq)]
pub enum CompactError {
    Interrupted,
    TurnAborted,
    ContextWindowExceeded,
    InvalidRequest(String),
    /// The stream broke off, or the request cannot be answered as it stands.
    Stream(String),
    /// The answer cannot be used.
    Fatal(String),
    /// The exact tail could not be kept.
    ExactTailCompactionFailed(String),
    /// Anything else that the service reported.
    Backend(String),
}

pub enum CompactErrorView {
    Interrupted,
    TurnAborted,
    ContextWindowExceeded,
    InvalidRequest(Seq<char>),
    Stream(Seq<char>),
    Fatal(Seq<char>),
    ExactTailCompactionFailed(Seq<char>),
    Backend(Seq<char>),
}

impl View for CompactError {
    type V = CompactErrorView;

    open spec fn view(&self) -> CompactErrorView {
        match self {
            CompactError::Interrupted => CompactErrorView::Interrupted,
            CompactError::TurnAborted => CompactErrorView::TurnAborted,
            CompactError::ContextWindowExceeded => CompactErrorView::ContextWindowExceeded,
            CompactError::InvalidRequest(m) => CompactErrorView::InvalidRequest(m@),
            CompactError::Stream(m) => CompactErrorView::Stream(m@),
            CompactError::Fatal(m) => CompactErrorView::Fatal(m@),
            CompactError::ExactTailCompactionFailed(m) => {
                CompactErrorView::ExactTailCompactionFailed(m@)
            },
            CompactError::Backend(m) => CompactErrorView::Backend(m@),
        }
    }
}

/// One event of a stream.
#[derive(Debug, PartialEq)]
pub enum ResponseEvent {
    OutputTextDelta(String),
    OutputItemAdded(ResponseItem),
    OutputItemDone(ResponseItem),
    ServerReasoningIncluded(bool),
    RateLimits,
    Completed { token_usage: Option<TokenUsage> },
    /// An event that carries no output.
    Other,
}

pub enum EventView {
    OutputTextDelta(Seq<char>),
    OutputItemAdded(ItemView),
    OutputItemDone(ItemView),
    ServerReasoningIncluded(bool),
    RateLimits,
    Completed { token_usage: Option<TokenUsage> },
    Other,
}

impl View for ResponseEvent {
    type V = EventView;

    open spec fn view(&self) -> EventView {
        match self {
            ResponseEvent::OutputTextDelta(delta) => EventView::OutputTextDelta(delta@),
            ResponseEvent::OutputItemAdded(item) => EventView::OutputItemAdded(item@),
            ResponseEvent::OutputItemDone(item) => EventView::OutputItemDone(item@),
            ResponseEvent::ServerReasoningIncluded(b) => EventView::ServerReasoningIncluded(*b),
            ResponseEvent::RateLimits => EventView::RateLimits,
            ResponseEvent::Completed { token_usage } => EventView::Completed {
                token_usage: *token_usage,
            },
            ResponseEvent::Other => EventView::Other,
        }
    }
}

// ---------------------------------------------------------------------------------------------
// Collecting a compaction.
// ---------------------------------------------------------------------------------------------

/// What was collected so far.
pub struct CollectedView {
    pub outputs: nat,
    pub compactions: nat,
    pub first: Option<ItemView>,
    /// The usage that came with the end of the stream, once that came.
    pub completed: Option<Option<TokenUsage>>,
}

pub open spec fn nothing_collected() -> CollectedView {
    CollectedView { outputs: 0, compactions: 0, first: None, completed: None }
}

/// One more, as far as a `usize` reaches.
pub open spec fn one_more(n: nat) -> nat {
    if n < usize::MAX {
        n + 1
    } else {
        n
    }
}

/// One event more. Nothing counts after the end of the stream.
pub open spec fn collect(state: CollectedView, event: EventView) -> CollectedView {
    if state.completed is Some {
        state
    } else {
        match event {
            EventView::OutputItemDone(item) => if item.body is Compaction {
                CollectedView {
                    outputs: one_more(state.outputs),
                    compactions: one_more(state.compactions),
                    first: match state.first {
                        Some(first) => Some(first),
                        None => Some(item),
                    },
                    completed: None,
                }
            } else {
                CollectedView { outputs: one_more(state.outputs), ..state }
            },
            EventView::Completed { token_usage } => CollectedView {
                completed: Some(token_usage),
                ..state
            },
            _ => state,
        }
    }
}

pub open spec fn collect_all(events: Seq<EventView>) -> CollectedView
    decreases events.len(),
{
    if events.len() == 0 {
        nothing_collected()
    } else {
        collect(collect_all(events.drop_last()), events.last())
    }
}

/// What the collected events come to: the stream must have ended, with exactly one compaction
/// among its items.
pub open spec fn collected_output(state: CollectedView) -> Result<
    (ItemView, Option<TokenUsage>),
    CompactErrorView,
> {
    match (state.completed, state.first) {
        (None, _) => Err(
            CompactErrorView::Stream(
                "remote compaction v2 stream closed before response.completed"@,
            ),
        ),
        (Some(usage), Some(item)) if state.compactions == 1 => Ok((item, usage)),
        _ => Err(
            CompactErrorView::Fatal(
                "remote compaction v2 expected exactly one compaction output item, got "@ + decimal(
                    state.compactions,
                ) + " from "@ + decimal(state.outputs) + " output items"@,
            ),
        ),
    }
}

/// Collects the compaction out of a stream, event by event.
pub struct CompactionCollector {
    output_item_count: usize,
    compaction_count: usize,
    compaction_output: Option<ResponseItem>,
    completed: Option<Option<TokenUsage>>,
}

/// What the remote service returned.
#[derive(Debug)]
pub struct RemoteCompactionV2Output {
    pub compaction_output: ResponseItem,
    pub token_usage: Option<TokenUsage>,
}

impl View for CompactionCollector {
    type V = CollectedView;

    closed spec fn view(&self) -> CollectedView {
        CollectedView {
            outputs: self.output_item_count as nat,
            compactions: self.compaction_count as nat,
            first: match self.compaction_output {
                Some(item) => Some(item@),
                None => None,
            },
            completed: self.completed,
        }
    }
}

impl CompactionCollector {
    pub fn new() -> (r: Self)
        ensures
            r@ == nothing_collected(),
    {
        CompactionCollector {
            output_item_count: 0,
            compaction_count: 0,
            compaction_output: None,
            completed: None,
        }
    }

    /// Takes one event; says whether the stream has ended.
    pub fn take(&mut self, event: ResponseEvent) -> (ended: bool)
        ensures
            final(self)@ == collect(old(self)@, event@),
            ended == (final(self)@.completed is Some),
    {
        if self.completed.is_some() {
            return true;
        }
        match event {
            ResponseEvent::OutputItemDone(item) => {
                self.output_item_count = self.output_item_count.saturating_add(1);
                let is_compaction = match &item.body {
                    ItemBody::Compaction { .. } => true,
                    _ => false,
                };
                if is_compaction {
                    self.compaction_count = self.compaction_count.saturating_add(1);
                    if self.compaction_output.is_none() {
                        self.compaction_output = Some(item);
                    }
                }
                false
            },
            ResponseEvent::Completed { token_usage } => {
                self.completed = Some(token_usage);
                true
            },
            _ => false,
        }
    }

    /// What the stream came to.
    pub fn finish(self) -> (r: Result<RemoteCompactionV2Output, CompactError>)
        ensures
            match r {
                Ok(output) => collected_output(self@) == Ok::<
                    (ItemView, Option<TokenUsage>),
                    CompactErrorView,
                >((output.compaction_output@, output.token_usage)),
                Err(error) => collected_output(self@) == Err::<
                    (ItemView, Option<TokenUsage>),
                    CompactErrorView,
                >(error@),
            },
    {
        match self.completed {
            None => Err(
                CompactError::Stream(
                    String::from_str(
                        "remote compaction v2 stream closed before response.completed",
                    ),
                ),
            ),
            Some(token_usage) => {
                if self.compaction_count == 1 {
                    if let Some(compaction_output) = self.compaction_output {
                        return Ok(RemoteCompactionV2Output { compaction_output, token_usage });
                    }
                }
                let mut message = String::from_str(
                    "remote compaction v2 expected exactly one compaction output item, got ",
                );
                message.append(decimal_text(self.compaction_count as u64).as_str());
                message.append(" from ");
                message.append(decimal_text(self.output_item_count as u64).as_str());
                message.append(" output items");
                Err(CompactError::Fatal(message))
            },
        }
    }
}

pub open spec fn event_views(events: Seq<ResponseEvent>) -> Seq<EventView> {
    events.map_values(|e: ResponseEvent| e@)
}

/// Collects the compaction out of the events of a stream.
pub fn collect_compaction_output(events: Vec<ResponseEvent>) -> (r: Result<
    RemoteCompactionV2Output,
    CompactError,
>)
    ensures
        match r {
            Ok(output) => collected_output(collect_all(event_views(events@))) == Ok::<
                (ItemView, Option<TokenUsage>),
                CompactErrorView,
            >((output.compaction_output@, output.token_usage)),
            Err(error) => collected_output(collect_all(event_views(events@))) == Err::<
                (ItemView, Option<TokenUsage>),
                CompactErrorView,
            >(error@),
        },
{
    let ghost all = event_views(events@);
    let mut collector = CompactionCollector::new();
    let mut rest = events;
    let ghost mut done: int = 0;
    assert(all.subrange(0, 0) =~= Seq::<EventView>::empty());
    assert(event_views(rest@) =~= all.subrange(0, all.len() as int));
    while rest.len() > 0
        invariant
            0 <= done <= all.len(),
            event_views(rest@) == all.subrange(done, all.len() as int),
            collector@ == collect_all(all.subrange(0, done)),
        decreases rest@.len(),
    {
        let ghost before = rest@;
        let event = rest.remove(0);
        proof {
            assert(event@ == event_views(before)[0]);
            assert(event_views(before).len() == all.len() - done);
            let next = all.subrange(0, done + 1);
            assert(next.drop_last() =~= all.subrange(0, done));
            assert(next.last() == event@);
            assert forall|k: int| 0 <= k < rest@.len() implies #[trigger] event_views(rest@)[k]
                == all[done + 1 + k] by {
                assert(event_views(rest@)[k] == event_views(before)[k + 1]);
            }
            assert(event_views(rest@) =~= all.subrange(done + 1, all.len() as int));
            done = done + 1;
        }
        let _ = collector.take(event);
    }
    proof {
        assert(event_views(rest@).len() == 0);
        assert(done == all.len());
        assert(all.subrange(0, done) =~= all);
    }
    collector.finish()
}

// ---------------------------------------------------------------------------------------------
// Collecting the text of a pair summary.
// ---------------------------------------------------------------------------------------------

/// The summary so far.
pub struct SummaryTextView {
    /// What came in pieces.
    pub pieces: Seq<char>,
    /// What came in whole messages.
    pub messages: Seq<char>,
    pub ended: bool,
    /// An item that has no place in a summary.
    pub unexpected: Option<ItemView>,
}

pub open spec fn no_summary_text() -> SummaryTextView {
    SummaryTextView {
        pieces: Seq::empty(),
        messages: Seq::empty(),
        ended: false,
        unexpected: None,
    }
}

/// All the text of a message.
pub open spec fn whole_text(content: Seq<ContentView>) -> Seq<char>
    decreases content.len(),
{
    if content.len() == 0 {
        Seq::empty()
    } else {
        whole_text(content.drop_last()) + match content.last() {
            ContentView::InputText { text } => text,
            ContentView::OutputText { text } => text,
            ContentView::InputImage { .. } => Seq::empty(),
        }
    }
}

/// One event more. Nothing counts after the end of the stream or an unexpected item.
pub open spec fn collect_summary(state: SummaryTextView, event: EventView) -> SummaryTextView {
    if state.ended || state.unexpected is Some {
        state
    } else {
        match event {
            EventView::OutputTextDelta(delta) => SummaryTextView {
                pieces: state.pieces + delta,
                ..state
            },
            EventView::OutputItemAdded(item) => if item.body is Message || item.body is Reasoning {
                state
            } else {
                SummaryTextView { unexpected: Some(item), ..state }
            },
            EventView::OutputItemDone(item) => if item.body is Reasoning {
                state
            } else if message_of(item, "assistant"@) {
                SummaryTextView {
                    messages: state.messages + whole_text(item.body->Message_content),
                    ..state
                }
            } else {
                SummaryTextView { unexpected: Some(item), ..state }
            },
            EventView::Completed { token_usage } => SummaryTextView { ended: true, ..state },
            _ => state,
        }
    }
}

pub open spec fn collect_summary_all(events: Seq<EventView>) -> SummaryTextView
    decreases events.len(),
{
    if events.len() == 0 {
        no_summary_text()
    } else {
        collect_summary(collect_summary_all(events.drop_last()), events.last())
    }
}

/// The text of the summary: what came in pieces, or else the whole messages.
pub open spec fn chosen_text(state: SummaryTextView) -> Seq<char> {
    if state.pieces.len() > 0 {
        state.pieces
    } else {
        state.messages
    }
}

/// What the collected events come to.
pub open spec fn summary_text<M: SessionModel>(model: M, state: SummaryTextView) -> Result<
    Seq<char>,
    CompactErrorView,
> {
    match state.unexpected {
        Some(item) => Err(
            CompactErrorView::Fatal(
                "rollctx pair-summary received unexpected output item: "@ + model.spec_item_debug(
                    item,
                ),
            ),
        ),
        None => if !state.ended {
            Err(
                CompactErrorView::Stream(
                    "rollctx pair-summary stream closed before response.completed"@,
                ),
            )
        } else if blank(chosen_text(state)) {
            Err(CompactErrorView::Fatal("rollctx pair-summary produced empty assistant text"@))
        } else {
            Ok(chosen_text(state))
        },
    }
}

/// Collects the text of a pair summary, event by event.
pub struct PairSummaryCollector {
    pieces: String,
    messages: String,
    ended: bool,
    unexpected: Option<ResponseItem>,
}

impl View for PairSummaryCollector {
    type V = SummaryTextView;

    closed spec fn view(&self) -> SummaryTextView {
        SummaryTextView {
            pieces: self.pieces@,
            messages: self.messages@,
            ended: self.ended,
            unexpected: match self.unexpected {
                Some(item) => Some(item@),
                None => None,
            },
        }
    }
}

pub fn append_content(text: &mut String, content: &Vec<ContentItem>)
    ensures
        final(text)@ == old(text)@ + whole_text(content_views(content@)),
{
    let ghost all = content_views(content@);
    let ghost before = text@;
    let mut i: usize = 0;
    assert(all.subrange(0, 0) =~= Seq::<ContentView>::empty());
    assert(before + whole_text(all.subrange(0, 0)) =~= before);
    while i < content.len()
        invariant
            i <= content@.len(),
            all == content_views(content@),
            text@ == before + whole_text(all.subrange(0, i as int)),
        decreases content@.len() - i,
    {
        proof {
            let next = all.subrange(0, i + 1);
            assert(next.drop_last() =~= all.subrange(0, i as int));
            assert(next.last() == content@[i as int]@);
        }
        match &content[i] {
            ContentItem::InputText { text: t } | ContentItem::OutputText { text: t } => {
                text.append(t.as_str());
            },
            ContentItem::InputImage { .. } => {},
        }
        assert(text@ =~= before + whole_text(all.subrange(0, i + 1)));
        i += 1;
    }
    assert(all.subrange(0, i as int) =~= all);
}

impl PairSummaryCollector {
    pub fn new() -> (r: Self)
        ensures
            r@ == no_summary_text(),
    {
        PairSummaryCollector {
            pieces: String::new(),
            messages: String::new(),
            ended: false,
            unexpected: None,
        }
    }

    /// Takes one event; says whether there is nothing more to read.
    pub fn take(&mut self, event: ResponseEvent) -> (done: bool)
        ensures
            final(self)@ == collect_summary(old(self)@, event@),
            done == (final(self)@.ended || final(self)@.unexpected is Some),
    {
        if self.ended || self.unexpected.is_some() {
            return true;
        }
        match event {
            ResponseEvent::OutputTextDelta(delta) => {
                self.pieces.append(delta.as_str());
                false
            },
            ResponseEvent::OutputItemAdded(item) => {
                let expected = match &item.body {
                    ItemBody::Message { .. } | ItemBody::Reasoning { .. } => true,
                    _ => false,
                };
                if !expected {
                    self.unexpected = Some(item);
                }
                !expected
            },
            ResponseEvent::OutputItemDone(item) => {
                let is_reasoning = match &item.body {
                    ItemBody::Reasoning { .. } => true,
                    _ => false,
                };
                if is_reasoning {
                    return false;
                }
                if is_message_of(&item, "assistant") {
                    match &item.body {
                        ItemBody::Message { role: _, content, phase: _ } => {
                            append_content(&mut self.messages, content);
                        },
                        _ => {},
                    }
                    return false;
                }
                self.unexpected = Some(item);
                true
            },
            ResponseEvent::Completed { token_usage: _ } => {
                self.ended = true;
                true
            },
            _ => false,
        }
    }

    /// What the stream came to.
    pub fn finish<M: SessionModel>(self, model: &M) -> (r: Result<String, CompactError>)
        ensures
            match r {
                Ok(text) => summary_text(*model, self@) == Ok::<Seq<char>, CompactErrorView>(text@),
                Err(error) => summary_text(*model, self@) == Err::<Seq<char>, CompactErrorView>(
                    error@,
                ),
            },
    {
        match self.unexpected {
            Some(item) => {
                let mut message = String::from_str(
                    "rollctx pair-summary received unexpected output item: ",
                );
                message.append(model.item_debug(&item).as_str());
                return Err(CompactError::Fatal(message));
            },
            None => {},
        }
        if !self.ended {
            return Err(
                CompactError::Stream(
                    String::from_str(
                        "rollctx pair-summary stream closed before response.completed",
                    ),
                ),
            );
        }
        let text = if !self.pieces.as_str().is_empty() {
            self.pieces
        } else {
            self.messages
        };
        if is_blank(text.as_str()) {
            return Err(
                CompactError::Fatal(
                    String::from_str("rollctx pair-summary produced empty assistant text"),
                ),
            );
        }
        Ok(text)
    }
}

/// Collects the text of a pair summary out of the events of a stream.
pub fn collect_rollctx_pair_summary_text<M: SessionModel>(
    model: &M,
    events: Vec<ResponseEvent>,
) -> (r: Result<String, CompactError>)
    ensures
        match r {
            Ok(text) => summary_text(*model, collect_summary_all(event_views(events@))) == Ok::<
                Seq<char>,
                CompactErrorView,
            >(text@),
            Err(error) => summary_text(*model, collect_summary_all(event_views(events@))) == Err::<
                Seq<char>,
                CompactErrorView,
            >(error@),
        },
{
    let ghost all = event_views(events@);
    let mut collector = PairSummaryCollector::new();
    let mut rest = events;
    let ghost mut done: int = 0;
    assert(all.subrange(0, 0) =~= Seq::<EventView>::empty());
    assert(event_views(rest@) =~= all.subrange(0, all.len() as int));
    while rest.len() > 0
        invariant
            0 <= done <= all.len(),
            event_views(rest@) == all.subrange(done, all.len() as int),
            collector@ == collect_summary_all(all.subrange(0, done)),
        decreases rest@.len(),
    {
        let ghost before = rest@;
        let event = rest.remove(0);
        proof {
            assert(event@ == event_views(before)[0]);
            assert(event_views(before).len() == all.len() - done);
            let next = all.subrange(0, done + 1);
            assert(next.drop_last() =~= all.subrange(0, done));
            assert(next.last() == event@);
            assert forall|k: int| 0 <= k < rest@.len() implies #[trigger] event_views(rest@)[k]
                == all[done + 1 + k] by {
                assert(event_views(rest@)[k] == event_views(before)[k + 1]);
            }
            assert(event_views(rest@) =~= all.subrange(done + 1, all.len() as int));
            done = done + 1;
        }
        let _ = collector.take(event);
    }
    proof {
        assert(event_views(rest@).len() == 0);
        assert(done == all.len());
        assert(all.subrange(0, done) =~= all);
    }
    collector.finish(model)
}

// ---------------------------------------------------------------------------------------------
// Draining a local compaction.
// ---------------------------------------------------------------------------------------------

/// What becomes of the items of a local compaction.
#[derive(Clone, Copy, Debug, Eq, PartialEq, Structural)]
pub enum LocalCompactionDrainMode {
    RecordToSession,
    BufferOnly,
}

/// What the session has to do about an event.
#[derive(Debug)]
pub enum DrainAction {
    Continue,
    Record(ResponseItem),
    SetServerReasoningIncluded(bool),
    UpdateRateLimits,
    /// The stream has ended: the usage is recorded, and the items are complete.
    Complete(Option<TokenUsage>),
}

pub enum DrainActionView {
    Continue,
    Record(ItemView),
    SetServerReasoningIncluded(bool),
    UpdateRateLimits,
    Complete(Option<TokenUsage>),
}

impl View for DrainAction {
    type V = DrainActionView;

    open spec fn view(&self) -> DrainActionView {
        match self {
            DrainAction::Continue => DrainActionView::Continue,
            DrainAction::Record(item) => DrainActionView::Record(item@),
            DrainAction::SetServerReasoningIncluded(b) => {
                DrainActionView::SetServerReasoningIncluded(*b)
            },
            DrainAction::UpdateRateLimits => DrainActionView::UpdateRateLimits,
            DrainAction::Complete(usage) => DrainActionView::Complete(*usage),
        }
    }
}

/// What an event asks of the session.
pub open spec fn drained(event: EventView, mode: LocalCompactionDrainMode) -> DrainActionView {
    match event {
        EventView::OutputItemDone(item) => match mode {
            LocalCompactionDrainMode::RecordToSession => DrainActionView::Record(item),
            LocalCompactionDrainMode::BufferOnly => DrainActionView::Continue,
        },
        EventView::ServerReasoningIncluded(included) => {
            DrainActionView::SetServerReasoningIncluded(included)
        },
        EventView::RateLimits => DrainActionView::UpdateRateLimits,
        EventView::Completed { token_usage } => DrainActionView::Complete(token_usage),
        _ => DrainActionView::Continue,
    }
}

/// The buffered items after an event.
pub open spec fn buffered(
    items: Seq<ItemView>,
    event: EventView,
    mode: LocalCompactionDrainMode,
) -> Seq<ItemView> {
    match event {
        EventView::OutputItemDone(item) => match mode {
            LocalCompactionDrainMode::RecordToSession => items,
            LocalCompactionDrainMode::BufferOnly => items.push(item),
        },
        _ => items,
    }
}

/// Takes one event of a local compaction: an item goes to the session or into the buffer.
pub fn drain_event(
    event: ResponseEvent,
    mode: LocalCompactionDrainMode,
    completed_items: &mut Vec<ResponseItem>,
) -> (action: DrainAction)
    ensures
        action@ == drained(event@, mode),
        item_views(final(completed_items)@) == buffered(
            item_views(old(completed_items)@),
            event@,
            mode,
        ),
{
    match event {
        ResponseEvent::OutputItemDone(item) => match mode {
            LocalCompactionDrainMode::RecordToSession => DrainAction::Record(item),
            LocalCompactionDrainMode::BufferOnly => {
                let ghost before = item_views(completed_items@);
                completed_items.push(item);
                assert(item_views(completed_items@) =~= before.push(item@));
                DrainAction::Continue
            },
        },
        ResponseEvent::ServerReasoningIncluded(included) => {
            DrainAction::SetServerReasoningIncluded(included)
        },
        ResponseEvent::RateLimits => DrainAction::UpdateRateLimits,
        ResponseEvent::Completed { token_usage } => DrainAction::Complete(token_usage),
        _ => DrainAction::Continue,
    }
}

/// The error of a stream that broke off before it ended.
pub fn drain_closed_error() -> (error: CompactError)
    ensures
        error@ == CompactErrorView::Stream("stream closed before response.completed"@),
{
    CompactError::Stream(String::from_str("stream closed before response.completed"))
}

// -- laws -------------------------------------------------------------------------------------

/// Nothing that comes after the end of a stream changes what was collected.
pub proof fn law_nothing_counts_after_the_end(events: Seq<EventView>, more: Seq<EventView>)
    requires
        collect_all(events).completed is Some,
    ensures
        collect_all(events + more) == collect_all(events),
    decreases more.len(),
{
    if more.len() == 0 {
        assert(events + more =~= events);
    } else {
        law_nothing_counts_after_the_end(events, more.drop_last());
        assert((events + more).drop_last() =~= events + more.drop_last());
    }
}

proof fn lemma_collected(events: Seq<EventView>)
    ensures
        ({
            let state = collect_all(events);
            &&& state.compactions > 0 ==> state.first is Some
            &&& state.first is Some ==> state.compactions > 0 && state.first->Some_0.body
                is Compaction
        }),
    decreases events.len(),
{
    if events.len() > 0 {
        lemma_collected(events.drop_last());
    }
}

/// What is collected is always a compaction item, and a stream that ended with exactly one always
/// gives it.
pub proof fn law_single_compaction_is_collected(events: Seq<EventView>)
    ensures
        match collected_output(collect_all(events)) {
            Ok((item, _)) => item.body is Compaction,
            Err(_) => collect_all(events).completed is None || collect_all(events).compactions != 1,
        },
{
    lemma_collected(events);
}

} // verus!
