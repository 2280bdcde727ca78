//! A compaction whose summary the session's own model writes.

use crate::compact::{
    build_compacted_history, collect_user_messages, compacted_history,
    insert_initial_context_before_last_real_user_or_summary, insertion_index, spliced,
    user_message_views, user_messages, CompactedUserMessage, InitialContextInjection,
    UserMessageView, COMPACT_USER_MESSAGE_MAX_TOKENS,
};
use crate::exact_tail::{ErrorView, ExactTailError};
use crate::exact_tail_replacement::{
    build_exact_tail_replacement, cold_input_failure, ends_with_items,
    ensure_non_empty_local_summary, no_summary_error, prepared_plan, replacement_outcome, ExactTailReplacementDiagnostics, PreparedExactTailPlan, PreparedView,
};
use crate::item::{clone_items, item_views, option_view, ItemView, ResponseItem};
use crate::session_model::{estimate_items_tokens, total_tokens, InputModality, SessionModel};
use crate::stream::{CompactError, CompactErrorView, LocalCompactionDrainMode};
use crate::task::{
    backend_failure, check_compaction_request, diagnostics_of, exact_tail_failure,
    fail_exact_tail, prepare_input, prepared_view, request_failure, service_failure, source_items,
    start_compaction, summarised, CompactFailure, CompactionTask, FailureView,
};
use crate::text::{blank, decimal, decimal_text};
use vstd::prelude::*;
use vstd::string::*;

verus! {

/// With a plan nothing of the summariser's output goes into the session's history.
pub open spec fn mode_of(has_plan: bool) -> LocalCompactionDrainMode {
    if has_plan {
        LocalCompactionDrainMode::BufferOnly
    } else {
        LocalCompactionDrainMode::RecordToSession
    }
}

pub fn drain_mode(has_plan: bool) -> (mode: LocalCompactionDrainMode)
    ensures
        mode == mode_of(has_plan),
{
    if has_plan {
        LocalCompactionDrainMode::BufferOnly
    } else {
        LocalCompactionDrainMode::RecordToSession
    }
}

// ---------------------------------------------------------------------------------------------
// After a failed attempt.
// ---------------------------------------------------------------------------------------------

/// What a failed attempt leads to.
#[derive(Debug)]
pub enum AfterFailure {
    /// The task ends, and nothing is reported.
    Stop(CompactError),
    /// The task fails, and the error is reported.
    Fail(CompactFailure),
    /// Even the last item alone is too large: the window counts as full, and the task fails.
    FailWithFullWindow(CompactError),
    /// The next attempt has a shorter history, and the count of retries starts again.
    Shorten(Vec<ResponseItem>),
    /// The next attempt is the same once more.
    Retry { retries: u64, notice: String, error: CompactError },
}

pub enum AfterFailureView {
    Stop(CompactErrorView),
    Fail(FailureView),
    FailWithFullWindow(CompactErrorView),
    Shorten(Seq<ItemView>),
    Retry { retries: u64, notice: Seq<char>, error: CompactErrorView },
}

impl View for AfterFailure {
    type V = AfterFailureView;

    open spec fn view(&self) -> AfterFailureView {
        match self {
            AfterFailure::Stop(error) => AfterFailureView::Stop(error@),
            AfterFailure::Fail(failure) => AfterFailureView::Fail(failure@),
            AfterFailure::FailWithFullWindow(error) => {
                AfterFailureView::FailWithFullWindow(error@)
            },
            AfterFailure::Shorten(items) => AfterFailureView::Shorten(item_views(items@)),
            AfterFailure::Retry { retries, notice, error } => AfterFailureView::Retry {
                retries: *retries,
                notice: notice@,
                error: error@,
            },
        }
    }
}

/// The user's notice of a retry.
pub open spec fn retry_notice(retries: u64, max_retries: u64) -> Seq<char> {
    "Reconnecting... "@ + decimal(retries as nat) + "/"@ + decimal(max_retries as nat)
}

/// An interrupted attempt ends the task. One that was too large is tried again without its oldest
/// item, unless a plan forbids it or nothing else is left. Any other is tried again as often as
/// the provider allows.
pub open spec fn after_failure<M: SessionModel>(
    model: M,
    error: CompactErrorView,
    history: Seq<ItemView>,
    prompt_len: usize,
    has_plan: bool,
    retries: u64,
    max_retries: u64,
) -> AfterFailureView {
    match error {
        CompactErrorView::Interrupted => AfterFailureView::Stop(error),
        CompactErrorView::TurnAborted => AfterFailureView::Stop(error),
        CompactErrorView::ContextWindowExceeded => if has_plan {
            AfterFailureView::Fail(service_failure(error, has_plan))
        } else if prompt_len > 1 {
            AfterFailureView::Shorten(model.spec_without_first(history))
        } else {
            AfterFailureView::FailWithFullWindow(error)
        },
        _ => if retries < max_retries {
            AfterFailureView::Retry {
                retries: (retries + 1) as u64,
                notice: retry_notice((retries + 1) as u64, max_retries),
                error,
            }
        } else {
            AfterFailureView::Fail(FailureView { error, reason: None })
        },
    }
}

pub fn after_failed_attempt<M: SessionModel>(
    model: &M,
    error: CompactError,
    history: Vec<ResponseItem>,
    prompt_len: usize,
    has_plan: bool,
    retries: u64,
    max_retries: u64,
) -> (next: AfterFailure)
    ensures
        next@ == after_failure(
            *model,
            error@,
            item_views(history@),
            prompt_len,
            has_plan,
            retries,
            max_retries,
        ),
{
    match error {
        CompactError::Interrupted => AfterFailure::Stop(CompactError::Interrupted),
        CompactError::TurnAborted => AfterFailure::Stop(CompactError::TurnAborted),
        CompactError::ContextWindowExceeded => {
            if has_plan {
                AfterFailure::Fail(backend_failure(CompactError::ContextWindowExceeded, has_plan))
            } else if prompt_len > 1 {
                AfterFailure::Shorten(model.without_first(history))
            } else {
                AfterFailure::FailWithFullWindow(CompactError::ContextWindowExceeded)
            }
        },
        error => {
            if retries < max_retries {
                let retries: u64 = retries + 1;
                let mut notice = String::from_str("Reconnecting... ");
                notice.append(decimal_text(retries).as_str());
                notice.append("/");
                notice.append(decimal_text(max_retries).as_str());
                AfterFailure::Retry { retries, notice, error }
            } else {
                AfterFailure::Fail(CompactFailure { error, reason: None })
            }
        },
    }
}

// ---------------------------------------------------------------------------------------------
// The end.
// ---------------------------------------------------------------------------------------------

/// The last item belongs to the turn of the compaction; data that it has already stays.
pub open spec fn stamped(items: Seq<ItemView>, metadata: Option<Seq<char>>) -> Seq<ItemView> {
    if items.len() == 0 {
        items
    } else {
        let last = items.last();
        items.drop_last().push(
            ItemView {
                metadata: match last.metadata {
                    Some(own) => Some(own),
                    None => metadata,
                },
                ..last
            },
        )
    }
}

fn stamp_last(items: Vec<ResponseItem>, metadata: Option<String>) -> (r: Vec<ResponseItem>)
    ensures
        item_views(r@) == stamped(item_views(items@), option_view(metadata)),
{
    let ghost all = item_views(items@);
    let mut items = items;
    match items.pop() {
        None => {
            assert(item_views(items@) =~= all);
            items
        },
        Some(last) => {
            assert(all.last() == last@);
            assert(item_views(items@) =~= all.drop_last());
            let own = last.metadata;
            let metadata = match own {
                Some(own) => Some(own),
                None => metadata,
            };
            let last = ResponseItem { id: last.id, metadata, body: last.body };
            items.push(last);
            assert(item_views(items@) =~= all.drop_last().push(last@));
            items
        },
    }
}

/// A finished local compaction.
#[derive(Debug)]
pub struct LocalCompaction {
    /// What the summariser wrote.
    pub summary_suffix: String,
    /// The summary with its opening line, as the session records it.
    pub summary_text: String,
    pub new_history: Vec<ResponseItem>,
    /// The numbers of the replacement, where a plan was carried out.
    pub replacement: Option<ExactTailReplacementDiagnostics>,
}

pub struct LocalView {
    pub summary_suffix: Seq<char>,
    pub summary_text: Seq<char>,
    pub new_history: Seq<ItemView>,
    pub replacement: Option<ExactTailReplacementDiagnostics>,
}

impl View for LocalCompaction {
    type V = LocalView;

    open spec fn view(&self) -> LocalView {
        LocalView {
            summary_suffix: self.summary_suffix@,
            summary_text: self.summary_text@,
            new_history: item_views(self.new_history@),
            replacement: self.replacement,
        }
    }
}

pub open spec fn or_empty(text: Option<Seq<char>>) -> Seq<char> {
    match text {
        Some(text) => text,
        None => Seq::empty(),
    }
}

/// The kept messages of the user and the summary.
pub open spec fn local_history(
    messages: Seq<UserMessageView>,
    summary_text: Seq<char>,
    metadata: Option<Seq<char>>,
) -> Seq<ItemView> {
    stamped(
        compacted_history(
            Seq::empty(),
            messages,
            summary_text,
            COMPACT_USER_MESSAGE_MAX_TOKENS as nat,
        ),
        metadata,
    )
}

pub open spec fn summary_text_of<M: SessionModel>(model: M, suffix: Seq<char>) -> Seq<char> {
    model.spec_summary_prefix() + "\n"@ + suffix
}

/// What a local compaction comes to: with a plan the summary is in what the summariser wrote now,
/// must say something, and the exact tail follows it; without one it is the last thing that the
/// session's history has from the assistant.
pub open spec fn local_outcome<M: SessionModel>(
    model: M,
    prepared: Option<PreparedView>,
    completed: Seq<ItemView>,
    session_history: Seq<ItemView>,
    initial_context: Seq<ItemView>,
    injection: InitialContextInjection,
    metadata: Option<Seq<char>>,
) -> Result<LocalView, FailureView> {
    match prepared {
        Some(prepared) => {
            let suffix = or_empty(model.spec_last_assistant_text(completed));
            let text = summary_text_of(model, suffix);
            if blank(suffix) {
                Err(exact_tail_failure(no_summary_error()))
            } else {
                match replacement_outcome(
                    model,
                    prepared,
                    local_history(prepared.plan.cold_user_messages, text, metadata),
                    injection,
                    total_tokens(model, completed),
                ) {
                    Err(error) => Err(exact_tail_failure(error)),
                    Ok((items, diagnostics)) => Ok(
                        LocalView {
                            summary_suffix: suffix,
                            summary_text: text,
                            new_history: items,
                            replacement: Some(diagnostics),
                        },
                    ),
                }
            }
        },
        None => {
            let suffix = or_empty(model.spec_last_assistant_text(session_history));
            let text = summary_text_of(model, suffix);
            let items = local_history(user_messages(model, session_history), text, metadata);
            Ok(
                LocalView {
                    summary_suffix: suffix,
                    summary_text: text,
                    new_history: match injection {
                        InitialContextInjection::DoNotInject => items,
                        InitialContextInjection::BeforeLastUserMessage => spliced(
                            items,
                            insertion_index(model, items),
                            initial_context,
                        ),
                    },
                    replacement: None,
                },
            )
        },
    }
}

/// Without a plan, the context is put in at the end where it is injected.
pub open spec fn context_at_end(
    prepared: Option<PreparedView>,
    injection: InitialContextInjection,
) -> bool {
    prepared is None && injection == InitialContextInjection::BeforeLastUserMessage
}

fn text_or_empty(text: Option<String>) -> (r: String)
    ensures
        r@ == or_empty(option_view(text)),
{
    match text {
        Some(text) => text,
        None => {
            let empty = String::new();
            assert(empty@ =~= Seq::<char>::empty());
            empty
        },
    }
}

fn build_local_history(
    messages: &Vec<CompactedUserMessage>,
    summary_text: &str,
    metadata: Option<String>,
) -> (r: Vec<ResponseItem>)
    ensures
        item_views(r@) == local_history(
            user_message_views(messages@),
            summary_text@,
            option_view(metadata),
        ),
{
    let none: Vec<ResponseItem> = Vec::new();
    assert(item_views(none@) =~= Seq::<ItemView>::empty());
    stamp_last(build_compacted_history(none, messages, summary_text), metadata)
}

fn summary_with_prefix<M: SessionModel>(model: &M, suffix: &str) -> (text: String)
    ensures
        text@ == summary_text_of(*model, suffix@),
{
    let mut text = String::from_str(model.summary_prefix());
    text.append("\n");
    text.append(suffix);
    text
}

/// Finishes a local compaction. `completed_items` is what the summariser wrote, `session_history`
/// the session's history after that, `turn_metadata` the transport data of the turn.
pub fn finish_local_compaction<M: SessionModel>(
    model: &M,
    prepared: &Option<PreparedExactTailPlan>,
    completed_items: &Vec<ResponseItem>,
    session_history: &Vec<ResponseItem>,
    initial_context: Vec<ResponseItem>,
    initial_context_injection: InitialContextInjection,
    turn_metadata: Option<String>,
) -> (r: Result<LocalCompaction, CompactFailure>)
    ensures
        ({
            let outcome = local_outcome(
                *model,
                prepared_view(*prepared),
                item_views(completed_items@),
                item_views(session_history@),
                item_views(initial_context@),
                initial_context_injection,
                option_view(turn_metadata),
            );
            match r {
                Ok(done) => outcome == Ok::<LocalView, FailureView>(done@),
                Err(failure) => outcome == Err::<LocalView, FailureView>(failure@),
            }
        }),
{
    match prepared {
        Some(prepared) => {
            let summary_suffix = text_or_empty(model.last_assistant_text(completed_items));
            if let Err(error) = ensure_non_empty_local_summary(summary_suffix.as_str()) {
                return Err(fail_exact_tail(error));
            }
            let summary_text = summary_with_prefix(model, summary_suffix.as_str());
            let compacted = build_local_history(
                &prepared.plan.cold_user_messages,
                summary_text.as_str(),
                turn_metadata,
            );
            match build_exact_tail_replacement(
                model,
                prepared,
                compacted,
                initial_context_injection,
                estimate_items_tokens(model, completed_items.as_slice()),
            ) {
                Err(error) => Err(fail_exact_tail(error)),
                Ok(replacement) => Ok(
                    LocalCompaction {
                        summary_suffix,
                        summary_text,
                        new_history: replacement.replacement_history,
                        replacement: Some(replacement.diagnostics),
                    },
                ),
            }
        },
        None => {
            let summary_suffix = text_or_empty(model.last_assistant_text(session_history));
            let summary_text = summary_with_prefix(model, summary_suffix.as_str());
            let messages = collect_user_messages(model, session_history.as_slice());
            let items = build_local_history(&messages, summary_text.as_str(), turn_metadata);
            let new_history = match initial_context_injection {
                InitialContextInjection::DoNotInject => items,
                InitialContextInjection::BeforeLastUserMessage => {
                    insert_initial_context_before_last_real_user_or_summary(
                        model,
                        items,
                        initial_context,
                    )
                },
            };
            Ok(LocalCompaction { summary_suffix, summary_text, new_history, replacement: None })
        },
    }
}

// ---------------------------------------------------------------------------------------------
// A task from beginning to end.
// ---------------------------------------------------------------------------------------------

/// A local compaction under way: what is sent to the summariser next, and how often the same was
/// tried again.
#[derive(Debug)]
pub struct LocalTask {
    pub prepared: Option<PreparedExactTailPlan>,
    pub history: Vec<ResponseItem>,
    pub retries: u64,
}

pub struct LocalTaskView {
    pub prepared: Option<PreparedView>,
    pub history: Seq<ItemView>,
    pub retries: u64,
}

impl View for LocalTask {
    type V = LocalTaskView;

    open spec fn view(&self) -> LocalTaskView {
        LocalTaskView {
            prepared: prepared_view(self.prepared),
            history: item_views(self.history@),
            retries: self.retries,
        }
    }
}

/// How a local compaction begins.
#[derive(Debug)]
pub enum LocalBegin {
    /// There is no plan for this history.
    Unplanned(ExactTailError),
    /// There is a plan, but what it sends to the summariser is too large.
    Refused { prepared: Option<PreparedExactTailPlan>, failure: CompactFailure },
    Ready(LocalTask),
}

pub enum LocalBeginView {
    Unplanned(ErrorView),
    Refused { prepared: Option<PreparedView>, failure: FailureView },
    Ready(LocalTaskView),
}

impl View for LocalBegin {
    type V = LocalBeginView;

    open spec fn view(&self) -> LocalBeginView {
        match self {
            LocalBegin::Unplanned(error) => LocalBeginView::Unplanned(error@),
            LocalBegin::Refused { prepared, failure } => LocalBeginView::Refused {
                prepared: prepared_view(*prepared),
                failure: failure@,
            },
            LocalBegin::Ready(task) => LocalBeginView::Ready(task@),
        }
    }
}

/// The beginning: the plan is made, the request for a summary is put after what is summarised, and
/// with a plan that must fit before anything is sent.
pub open spec fn local_begin<M: SessionModel>(
    model: M,
    history: Seq<ItemView>,
    request: ItemView,
    context: Seq<ItemView>,
    base_instructions: Seq<char>,
    task: CompactionTask,
) -> LocalBeginView {
    let source = source_items(model, history, task);
    match prepared_plan(
        model,
        source,
        context,
        base_instructions,
        prepare_input(model, history, task),
    ) {
        Err(error) => LocalBeginView::Unplanned(error),
        Ok(prepared) => {
            let sent = summarised(source, prepared).push(request);
            match request_failure(
                model,
                diagnostics_of(prepared),
                sent,
                task.model_context_window,
                base_instructions,
            ) {
                Some(failure) => LocalBeginView::Refused { prepared, failure },
                None => LocalBeginView::Ready(
                    LocalTaskView { prepared, history: sent, retries: 0 },
                ),
            }
        },
    }
}

/// Begins a local compaction. `request` is the message that asks for the summary.
pub fn begin_local_compaction<M: SessionModel>(
    model: &M,
    history: Vec<ResponseItem>,
    request: ResponseItem,
    current_context: Vec<ResponseItem>,
    base_instructions: &str,
    task: CompactionTask,
) -> (r: LocalBegin)
    ensures
        r@ == local_begin(
            *model,
            item_views(history@),
            request@,
            item_views(current_context@),
            base_instructions@,
            task,
        ),
{
    match start_compaction(model, history, current_context, base_instructions, task) {
        Err(error) => LocalBegin::Unplanned(error),
        Ok(started) => {
            let prepared = started.prepared;
            let mut sent = started.history;
            let ghost before = item_views(sent@);
            let ghost asked = request@;
            sent.push(request);
            assert(item_views(sent@) =~= before.push(asked));
            match check_compaction_request(
                model,
                &prepared,
                &sent,
                task.model_context_window,
                base_instructions,
            ) {
                Err(failure) => LocalBegin::Refused { prepared, failure },
                Ok(_) => LocalBegin::Ready(LocalTask { prepared, history: sent, retries: 0 }),
            }
        },
    }
}

/// The task after a failed attempt; where it ends there is nothing left to change.
pub open spec fn task_after(task: LocalTaskView, next: AfterFailureView) -> LocalTaskView {
    match next {
        AfterFailureView::Shorten(items) => LocalTaskView { history: items, retries: 0, ..task },
        AfterFailureView::Retry { retries, .. } => LocalTaskView { retries, ..task },
        _ => task,
    }
}

/// What is done about a failed attempt.
#[derive(Debug)]
pub enum LocalNext {
    Stop(CompactError),
    Fail(CompactFailure),
    FailWithFullWindow(CompactError),
    /// The next attempt is made at once, with less history.
    AttemptShorter,
    /// The next attempt is made after a while; the user is told.
    AttemptAgain { notice: String, error: CompactError },
}

pub enum LocalNextView {
    Stop(CompactErrorView),
    Fail(FailureView),
    FailWithFullWindow(CompactErrorView),
    AttemptShorter,
    AttemptAgain { notice: Seq<char>, error: CompactErrorView },
}

impl View for LocalNext {
    type V = LocalNextView;

    open spec fn view(&self) -> LocalNextView {
        match self {
            LocalNext::Stop(error) => LocalNextView::Stop(error@),
            LocalNext::Fail(failure) => LocalNextView::Fail(failure@),
            LocalNext::FailWithFullWindow(error) => LocalNextView::FailWithFullWindow(error@),
            LocalNext::AttemptShorter => LocalNextView::AttemptShorter,
            LocalNext::AttemptAgain { notice, error } => LocalNextView::AttemptAgain {
                notice: notice@,
                error: error@,
            },
        }
    }
}

pub open spec fn next_of(after: AfterFailureView) -> LocalNextView {
    match after {
        AfterFailureView::Stop(error) => LocalNextView::Stop(error),
        AfterFailureView::Fail(failure) => LocalNextView::Fail(failure),
        AfterFailureView::FailWithFullWindow(error) => LocalNextView::FailWithFullWindow(error),
        AfterFailureView::Shorten(_) => LocalNextView::AttemptShorter,
        AfterFailureView::Retry { retries, notice, error } => LocalNextView::AttemptAgain {
            notice,
            error,
        },
    }
}

impl LocalTask {
    /// What the next attempt sends.
    pub fn prompt<M: SessionModel>(&self, model: &M, modalities: &[InputModality]) -> (prompt: Vec<
        ResponseItem,
    >)
        ensures
            item_views(prompt@) == model.spec_prompt_items(self@.history, modalities@),
    {
        model.prompt_items(clone_items(self.history.as_slice()), modalities)
    }

    /// What becomes of what the summariser writes.
    pub fn drain_mode(&self) -> (mode: LocalCompactionDrainMode)
        ensures
            mode == mode_of(self@.prepared is Some),
    {
        drain_mode(self.prepared.is_some())
    }

    /// Takes the failure of an attempt whose prompt had `prompt_len` items.
    pub fn on_failure<M: SessionModel>(
        &mut self,
        model: &M,
        error: CompactError,
        prompt_len: usize,
        max_retries: u64,
    ) -> (next: LocalNext)
        ensures
            ({
                let after = after_failure(
                    *model,
                    error@,
                    old(self)@.history,
                    prompt_len,
                    old(self)@.prepared is Some,
                    old(self)@.retries,
                    max_retries,
                );
                next@ == next_of(after) && final(self)@ == task_after(old(self)@, after)
            }),
    {
        let after = after_failed_attempt(
            model,
            error,
            clone_items(self.history.as_slice()),
            prompt_len,
            self.prepared.is_some(),
            self.retries,
            max_retries,
        );
        match after {
            AfterFailure::Stop(error) => LocalNext::Stop(error),
            AfterFailure::Fail(failure) => LocalNext::Fail(failure),
            AfterFailure::FailWithFullWindow(error) => LocalNext::FailWithFullWindow(error),
            AfterFailure::Shorten(items) => {
                self.history = items;
                self.retries = 0;
                LocalNext::AttemptShorter
            },
            AfterFailure::Retry { retries, notice, error } => {
                self.retries = retries;
                LocalNext::AttemptAgain { notice, error }
            },
        }
    }

    /// Whether the end of the task puts the current context into the history itself: a plan
    /// carries its own.
    pub fn takes_context(&self, initial_context_injection: InitialContextInjection) -> (r: bool)
        ensures
            r == context_at_end(self@.prepared, initial_context_injection),
    {
        match (&self.prepared, initial_context_injection) {
            (None, InitialContextInjection::BeforeLastUserMessage) => true,
            _ => false,
        }
    }

    /// Takes what the summariser wrote.
    pub fn on_completed<M: SessionModel>(
        &self,
        model: &M,
        completed_items: &Vec<ResponseItem>,
        session_history: &Vec<ResponseItem>,
        initial_context: Vec<ResponseItem>,
        initial_context_injection: InitialContextInjection,
        turn_metadata: Option<String>,
    ) -> (r: Result<LocalCompaction, CompactFailure>)
        ensures
            ({
                let outcome = local_outcome(
                    *model,
                    self@.prepared,
                    item_views(completed_items@),
                    item_views(session_history@),
                    item_views(initial_context@),
                    initial_context_injection,
                    option_view(turn_metadata),
                );
                match r {
                    Ok(done) => outcome == Ok::<LocalView, FailureView>(done@),
                    Err(failure) => outcome == Err::<LocalView, FailureView>(failure@),
                }
            }),
    {
        finish_local_compaction(
            model,
            &self.prepared,
            completed_items,
            session_history,
            initial_context,
            initial_context_injection,
            turn_metadata,
        )
    }
}

// -- laws -------------------------------------------------------------------------------------

/// Where no context is put in at the end, the outcome is the same with any.
pub proof fn law_untaken_context_changes_nothing<M: SessionModel>(
    model: M,
    prepared: Option<PreparedView>,
    completed: Seq<ItemView>,
    session_history: Seq<ItemView>,
    context: Seq<ItemView>,
    other: Seq<ItemView>,
    injection: InitialContextInjection,
    metadata: Option<Seq<char>>,
)
    requires
        !context_at_end(prepared, injection),
    ensures
        local_outcome(
            model,
            prepared,
            completed,
            session_history,
            context,
            injection,
            metadata,
        ) == local_outcome(
            model,
            prepared,
            completed,
            session_history,
            other,
            injection,
            metadata,
        ),
{
}

/// With a plan, a local compaction that succeeds ends with the exact tail, item for item.
pub proof fn law_local_compaction_keeps_the_exact_tail<M: SessionModel>(
    model: M,
    prepared: PreparedView,
    completed: Seq<ItemView>,
    session_history: Seq<ItemView>,
    initial_context: Seq<ItemView>,
    injection: InitialContextInjection,
    metadata: Option<Seq<char>>,
)
    ensures
        match local_outcome(
            model,
            Some(prepared),
            completed,
            session_history,
            initial_context,
            injection,
            metadata,
        ) {
            Ok(done) => ends_with_items(
                done.new_history,
                prepared.plan.hot_suffix,
            ) && !blank(done.summary_suffix),
            Err(failure) => failure.reason is Some,
        },
{
}

/// A task with a plan sends exactly the plan's cold history and the request, on every attempt, and
/// what it sends was checked to fit.
pub proof fn law_planned_task_sends_the_whole_cold_history<M: SessionModel>(
    model: M,
    history: Seq<ItemView>,
    request: ItemView,
    context: Seq<ItemView>,
    base_instructions: Seq<char>,
    task: CompactionTask,
    error: CompactErrorView,
    prompt_len: usize,
    max_retries: u64,
)
    ensures
        match local_begin(model, history, request, context, base_instructions, task) {
            LocalBeginView::Ready(begun) => match begun.prepared {
                Some(prepared) => {
                    &&& begun.history == prepared.plan.cold_history.push(request)
                    &&& cold_input_failure(
                        model,
                        prepared.plan.diagnostics,
                        begun.history,
                        task.model_context_window,
                    ) is None
                    &&& task_after(
                        begun,
                        after_failure(
                            model,
                            error,
                            begun.history,
                            prompt_len,
                            true,
                            begun.retries,
                            max_retries,
                        ),
                    ).history == begun.history
                },
                None => begun.history == source_items(model, history, task).push(request),
            },
            LocalBeginView::Refused { prepared, failure } => prepared is Some
                && failure.reason is Some,
            LocalBeginView::Unplanned(_) => true,
        },
{
}

/// Retries do not go on for ever: what is tried again unchanged has one retry more each time, and
/// never more than the provider allows.
pub proof fn law_retries_are_counted<M: SessionModel>(
    model: M,
    error: CompactErrorView,
    history: Seq<ItemView>,
    prompt_len: usize,
    has_plan: bool,
    retries: u64,
    max_retries: u64,
)
    ensures
        match after_failure(model, error, history, prompt_len, has_plan, retries, max_retries) {
            AfterFailureView::Retry { retries: next, .. } => retries < next <= max_retries,
            AfterFailureView::Shorten(_) => !has_plan && prompt_len > 1,
            _ => true,
        },
{
}

} // verus!
