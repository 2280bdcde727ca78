//! A compaction whose summary a remote service writes.

use crate::compact::InitialContextInjection;
use crate::exact_tail::{ErrorView, ExactTailError, ExactTailImplementation};
use crate::exact_tail_replacement::{
    build_exact_tail_replacement, ends_with_items, ensure_replacement_has_cold_summary,
    has_usable_summary, no_summary_error, prepared_plan, replacement_outcome,
    ExactTailReplacementDiagnostics, PreparedExactTailPlan, PreparedView,
};
use crate::item::{
    clone_items, item_views, option_view, plain_item, BodyView, ItemBody, ItemView, ResponseItem,
};
use crate::retention::{build_v2_compacted_history, image_count, v2_history};
use crate::session_model::{
    estimate_items_tokens, saturating, saturating_sub, total_tokens, InputModality, SessionModel,
};
use crate::stream::{CompactError, CompactErrorView, RemoteCompactionV2Output, TokenUsage};
use crate::task::{
    backend_failure, check_compaction_request, diagnostics_of, exact_tail_failure, fail_exact_tail,
    prepare_input, prepared_view, request_failure, service_failure, source_items, start_compaction,
    summarised, CompactFailure, CompactionTask, FailureView,
};
use vstd::prelude::*;
use vstd::string::*;

verus! {

/// Compaction requests run long, so a stream is retried less often than others are.
pub const MAX_REMOTE_COMPACTION_V2_STREAM_RETRIES: u64 = 2;

/// What a service may be asked to do again.
#[derive(Clone, Copy, Debug, Eq, PartialEq, Structural)]
pub enum AfterRequestFailure {
    Fail,
    /// The request may be repeated, as long as fewer than `max_retries` retries were made.
    RetryUpTo { max_retries: u64 },
}

/// A failed request is repeated only where its error allows it, and within both limits.
pub fn after_failed_request(retryable: bool, provider_max_retries: u64) -> (next:
    AfterRequestFailure)
    ensures
        next == if !retryable {
            AfterRequestFailure::Fail
        } else if provider_max_retries < MAX_REMOTE_COMPACTION_V2_STREAM_RETRIES {
            AfterRequestFailure::RetryUpTo { max_retries: provider_max_retries }
        } else {
            AfterRequestFailure::RetryUpTo { max_retries: MAX_REMOTE_COMPACTION_V2_STREAM_RETRIES }
        },
{
    if !retryable {
        AfterRequestFailure::Fail
    } else if provider_max_retries < MAX_REMOTE_COMPACTION_V2_STREAM_RETRIES {
        AfterRequestFailure::RetryUpTo { max_retries: provider_max_retries }
    } else {
        AfterRequestFailure::RetryUpTo { max_retries: MAX_REMOTE_COMPACTION_V2_STREAM_RETRIES }
    }
}

/// The input of a compaction request: the prompt, and the item that asks for the compaction.
pub fn compaction_request_input(prompt_input: &Vec<ResponseItem>) -> (input: Vec<ResponseItem>)
    ensures
        item_views(input@) == item_views(prompt_input@).push(
            plain_item(BodyView::CompactionTrigger),
        ),
{
    let mut input = clone_items(prompt_input.as_slice());
    let trigger = ResponseItem::new(ItemBody::CompactionTrigger);
    let ghost before = item_views(input@);
    input.push(trigger);
    assert(item_views(input@) =~= before.push(trigger@));
    input
}

/// The key under which an isolated request caches its prompt.
pub open spec fn cache_key(implementation: ExactTailImplementation, turn_id: Seq<char>) -> Seq<
    char,
> {
    if implementation == ExactTailImplementation::SemanticTranscript {
        "semantic-transcript-v2-compaction:"@ + turn_id
    } else {
        "exact-tail-v2-compaction:"@ + turn_id
    }
}

pub fn isolated_prompt_cache_key(implementation: ExactTailImplementation, turn_id: &str) -> (key:
    String)
    ensures
        key@ == cache_key(implementation, turn_id@),
{
    let mut key = if implementation == ExactTailImplementation::SemanticTranscript {
        String::from_str("semantic-transcript-v2-compaction:")
    } else {
        String::from_str("exact-tail-v2-compaction:")
    };
    key.append(turn_id);
    key
}

/// Requests that an API key pays for have no service tier.
pub fn compaction_service_tier(api_key: bool, configured: Option<String>) -> (tier: Option<String>)
    ensures
        tier == if api_key {
            None
        } else {
            configured
        },
{
    if api_key {
        None
    } else {
        configured
    }
}

// ---------------------------------------------------------------------------------------------
// What is measured.
// ---------------------------------------------------------------------------------------------

/// What an attempt tells beside its outcome.
#[derive(Clone, Copy, Debug, Eq, PartialEq, Structural)]
pub struct CompactionAnalyticsDetails {
    pub active_context_tokens_before: Option<i64>,
    pub retained_image_count: Option<usize>,
    pub compaction_summary_tokens: Option<i64>,
    pub cached_input_tokens: Option<i64>,
}

impl Default for CompactionAnalyticsDetails {
    fn default() -> (r: Self)
        ensures
            r == (CompactionAnalyticsDetails {
                active_context_tokens_before: None,
                retained_image_count: None,
                compaction_summary_tokens: None,
                cached_input_tokens: None,
            }),
    {
        CompactionAnalyticsDetails {
            active_context_tokens_before: None,
            retained_image_count: None,
            compaction_summary_tokens: None,
            cached_input_tokens: None,
        }
    }
}

pub open spec fn lesser(a: i64, b: i64) -> i64 {
    if a < b {
        a
    } else {
        b
    }
}

impl CompactionAnalyticsDetails {
    /// Takes off what was deleted from the history before the request; no more than what was added
    /// since the model last answered counts.
    pub open spec fn less_deleted(self, deleted: i64, max_local: i64) -> Self {
        CompactionAnalyticsDetails {
            active_context_tokens_before: match self.active_context_tokens_before {
                Some(before) => if deleted > 0 {
                    Some(saturating(before - lesser(deleted, max_local)))
                } else {
                    Some(before)
                },
                None => None,
            },
            ..self
        }
    }

    pub fn deduct_deleted_tokens(&mut self, estimated_deleted_tokens: i64, max_local: i64)
        ensures
            *final(self) == old(self).less_deleted(estimated_deleted_tokens, max_local),
    {
        if let Some(before) = self.active_context_tokens_before {
            if estimated_deleted_tokens > 0 {
                let deleted: i64 = if estimated_deleted_tokens < max_local {
                    estimated_deleted_tokens
                } else {
                    max_local
                };
                self.active_context_tokens_before = Some(saturating_sub(before, deleted));
            }
        }
    }

    /// What a request cost; with a plan it did not carry the whole context, so it does not tell
    /// how large that was.
    pub open spec fn with_usage(self, usage: Option<TokenUsage>, has_plan: bool) -> Self {
        match usage {
            None => self,
            Some(usage) => CompactionAnalyticsDetails {
                active_context_tokens_before: if has_plan {
                    self.active_context_tokens_before
                } else {
                    Some(usage.input_tokens)
                },
                compaction_summary_tokens: Some(usage.output_tokens),
                cached_input_tokens: Some(usage.cached_input_tokens),
                ..self
            },
        }
    }

    pub fn record_usage(&mut self, usage: Option<TokenUsage>, has_plan: bool)
        ensures
            *final(self) == old(self).with_usage(usage, has_plan),
    {
        if let Some(usage) = usage {
            if !has_plan {
                self.active_context_tokens_before = Some(usage.input_tokens);
            }
            self.compaction_summary_tokens = Some(usage.output_tokens);
            self.cached_input_tokens = Some(usage.cached_input_tokens);
        }
    }

    /// The size of the context before the attempt, as reported.
    pub fn reported_tokens_before(&self, measured: i64) -> (tokens: i64)
        ensures
            tokens == match self.active_context_tokens_before {
                Some(tokens) => tokens,
                None => measured,
            },
    {
        match self.active_context_tokens_before {
            Some(tokens) => tokens,
            None => measured,
        }
    }
}

// ---------------------------------------------------------------------------------------------
// The history as it is.
// ---------------------------------------------------------------------------------------------

/// A finished remote compaction.
#[derive(Debug)]
pub struct RemoteCompaction {
    pub new_history: Vec<ResponseItem>,
    pub retained_images: usize,
    /// The numbers of the replacement, where a plan was carried out.
    pub replacement: Option<ExactTailReplacementDiagnostics>,
}

pub struct RemoteView {
    pub new_history: Seq<ItemView>,
    pub retained_images: nat,
    pub replacement: Option<ExactTailReplacementDiagnostics>,
}

impl View for RemoteCompaction {
    type V = RemoteView;

    open spec fn view(&self) -> RemoteView {
        RemoteView {
            new_history: item_views(self.new_history@),
            retained_images: self.retained_images as nat,
            replacement: self.replacement,
        }
    }
}

/// What the service's answer comes to: with a plan it must be usable, and the exact tail follows.
pub open spec fn remote_v2_outcome<M: SessionModel>(
    model: M,
    prepared: Option<PreparedView>,
    prompt_input: Seq<ItemView>,
    output: ItemView,
    injection: InitialContextInjection,
) -> Result<RemoteView, FailureView> {
    let compacted = v2_history(model, prompt_input, output);
    let images = image_count(compacted.drop_last());
    match prepared {
        None => Ok(
            RemoteView { new_history: compacted, retained_images: images, replacement: None },
        ),
        Some(prepared) => if !has_usable_summary(model, seq![output]) {
            Err(exact_tail_failure(no_summary_error()))
        } else {
            match replacement_outcome(
                model,
                prepared,
                compacted,
                injection,
                total_tokens(model, seq![output]),
            ) {
                Err(error) => Err(exact_tail_failure(error)),
                Ok((items, diagnostics)) => Ok(
                    RemoteView {
                        new_history: items,
                        retained_images: images,
                        replacement: Some(diagnostics),
                    },
                ),
            }
        },
    }
}

pub fn one_item(item: &ResponseItem) -> (items: Vec<ResponseItem>)
    ensures
        item_views(items@) == seq![item@],
{
    let mut items: Vec<ResponseItem> = Vec::new();
    items.push(item.clone());
    assert(item_views(items@) =~= seq![item@]);
    items
}

/// Finishes a compaction of the second remote protocol. Without a plan the session still puts the
/// compacted history into its own form.
pub fn finish_remote_v2_compaction<M: SessionModel>(
    model: &M,
    prepared: &Option<PreparedExactTailPlan>,
    prompt_input: &Vec<ResponseItem>,
    compaction_output: ResponseItem,
    initial_context_injection: InitialContextInjection,
) -> (r: Result<RemoteCompaction, CompactFailure>)
    ensures
        ({
            let outcome = remote_v2_outcome(
                *model,
                prepared_view(*prepared),
                item_views(prompt_input@),
                compaction_output@,
                initial_context_injection,
            );
            match r {
                Ok(done) => outcome == Ok::<RemoteView, FailureView>(done@),
                Err(failure) => outcome == Err::<RemoteView, FailureView>(failure@),
            }
        }),
{
    let alone = one_item(&compaction_output);
    if prepared.is_some() {
        if let Err(error) = ensure_replacement_has_cold_summary(model, alone.as_slice()) {
            return Err(fail_exact_tail(error));
        }
    }
    let summary_tokens: i64 = estimate_items_tokens(model, alone.as_slice());
    let (compacted, retained_images) = build_v2_compacted_history(
        model,
        prompt_input.as_slice(),
        compaction_output,
    );
    match prepared {
        None => Ok(
            RemoteCompaction { new_history: compacted, retained_images, replacement: None },
        ),
        Some(prepared) => match build_exact_tail_replacement(
            model,
            prepared,
            compacted,
            initial_context_injection,
            summary_tokens,
        ) {
            Err(error) => Err(fail_exact_tail(error)),
            Ok(done) => Ok(
                RemoteCompaction {
                    new_history: done.replacement_history,
                    retained_images,
                    replacement: Some(done.diagnostics),
                },
            ),
        },
    }
}

// ---------------------------------------------------------------------------------------------
// A task from beginning to end.
// ---------------------------------------------------------------------------------------------

/// A remote compaction under way.
#[derive(Debug)]
pub struct RemoteTask {
    pub prepared: Option<PreparedExactTailPlan>,
    pub history: Vec<ResponseItem>,
    pub details: CompactionAnalyticsDetails,
}

pub struct RemoteTaskView {
    pub prepared: Option<PreparedView>,
    pub history: Seq<ItemView>,
    pub details: CompactionAnalyticsDetails,
}

impl View for RemoteTask {
    type V = RemoteTaskView;

    open spec fn view(&self) -> RemoteTaskView {
        RemoteTaskView {
            prepared: prepared_view(self.prepared),
            history: item_views(self.history@),
            details: self.details,
        }
    }
}

/// How a remote compaction begins.
#[derive(Debug)]
pub enum RemoteBegin {
    /// There is no plan for this history.
    Unplanned(ExactTailError),
    /// There is a plan, but what it sends to the service is too large.
    Refused { prepared: Option<PreparedExactTailPlan>, failure: CompactFailure },
    Ready(RemoteTask),
}

pub enum RemoteBeginView {
    Unplanned(ErrorView),
    Refused { prepared: Option<PreparedView>, failure: FailureView },
    Ready(RemoteTaskView),
}

impl View for RemoteBegin {
    type V = RemoteBeginView;

    open spec fn view(&self) -> RemoteBeginView {
        match self {
            RemoteBegin::Unplanned(error) => RemoteBeginView::Unplanned(error@),
            RemoteBegin::Refused { prepared, failure } => RemoteBeginView::Refused {
                prepared: prepared_view(*prepared),
                failure: failure@,
            },
            RemoteBegin::Ready(task) => RemoteBeginView::Ready(task@),
        }
    }
}

/// What is checked: the items, or the form in which a model with the given modalities gets what
/// stands before an exact tail.
pub open spec fn checked_items<M: SessionModel>(
    model: M,
    items: Seq<ItemView>,
    sent_to: Option<Seq<InputModality>>,
) -> Seq<ItemView> {
    match sent_to {
        Some(modalities) => model.spec_exact_tail_prompt_items(items, modalities),
        None => items,
    }
}

/// The beginning: the plan is made, and with a plan what it sends must fit.
pub open spec fn remote_begin<M: SessionModel>(
    model: M,
    history: Seq<ItemView>,
    context: Seq<ItemView>,
    base_instructions: Seq<char>,
    task: CompactionTask,
    sent_to: Option<Seq<InputModality>>,
    details: CompactionAnalyticsDetails,
) -> RemoteBeginView {
    let source = source_items(model, history, task);
    match prepared_plan(
        model,
        source,
        context,
        base_instructions,
        prepare_input(model, history, task),
    ) {
        Err(error) => RemoteBeginView::Unplanned(error),
        Ok(prepared) => {
            let items = summarised(source, prepared);
            match request_failure(
                model,
                diagnostics_of(prepared),
                checked_items(model, items, sent_to),
                task.model_context_window,
                base_instructions,
            ) {
                Some(failure) => RemoteBeginView::Refused { prepared, failure },
                None => RemoteBeginView::Ready(
                    RemoteTaskView { prepared, history: items, details },
                ),
            }
        },
    }
}

/// Begins a compaction of the second remote protocol.
pub fn begin_remote_v2_compaction<M: SessionModel>(
    model: &M,
    history: Vec<ResponseItem>,
    current_context: Vec<ResponseItem>,
    base_instructions: &str,
    task: CompactionTask,
    details: CompactionAnalyticsDetails,
) -> (r: RemoteBegin)
    ensures
        r@ == remote_begin(
            *model,
            item_views(history@),
            item_views(current_context@),
            base_instructions@,
            task,
            None,
            details,
        ),
{
    match start_compaction(model, history, current_context, base_instructions, task) {
        Err(error) => RemoteBegin::Unplanned(error),
        Ok(started) => {
            let prepared = started.prepared;
            match check_compaction_request(
                model,
                &prepared,
                &started.history,
                task.model_context_window,
                base_instructions,
            ) {
                Err(failure) => RemoteBegin::Refused { prepared, failure },
                Ok(_) => RemoteBegin::Ready(
                    RemoteTask { prepared, history: started.history, details },
                ),
            }
        },
    }
}

/// Begins a compaction of the first remote protocol, which checks what it sends in the form in
/// which it is sent.
pub fn begin_remote_legacy_compaction<M: SessionModel>(
    model: &M,
    history: Vec<ResponseItem>,
    current_context: Vec<ResponseItem>,
    base_instructions: &str,
    task: CompactionTask,
    modalities: &[InputModality],
    details: CompactionAnalyticsDetails,
) -> (r: RemoteBegin)
    ensures
        r@ == remote_begin(
            *model,
            item_views(history@),
            item_views(current_context@),
            base_instructions@,
            task,
            Some(modalities@),
            details,
        ),
{
    match start_compaction(model, history, current_context, base_instructions, task) {
        Err(error) => RemoteBegin::Unplanned(error),
        Ok(started) => {
            let prepared = started.prepared;
            let sent = model.exact_tail_prompt_items(
                clone_items(started.history.as_slice()),
                modalities,
            );
            match check_compaction_request(
                model,
                &prepared,
                &sent,
                task.model_context_window,
                base_instructions,
            ) {
                Err(failure) => RemoteBegin::Refused { prepared, failure },
                Ok(_) => RemoteBegin::Ready(
                    RemoteTask { prepared, history: started.history, details },
                ),
            }
        },
    }
}

/// What is sent to the service.
#[derive(Debug)]
pub struct RemoteRequest {
    pub prompt_input: Vec<ResponseItem>,
    /// The prompt and the item that asks for the compaction.
    pub input: Vec<ResponseItem>,
    /// A plan is carried out in a session of its own, with this cache key.
    pub isolated_cache_key: Option<String>,
}

/// What the service answered.
pub open spec fn reply_view(reply: Result<RemoteCompactionV2Output, CompactError>) -> Result<
    (ItemView, Option<TokenUsage>),
    CompactErrorView,
> {
    match reply {
        Ok(output) => Ok((output.compaction_output@, output.token_usage)),
        Err(error) => Err(error@),
    }
}

/// What the answer comes to.
pub open spec fn reply_outcome<M: SessionModel>(
    model: M,
    task: RemoteTaskView,
    reply: Result<(ItemView, Option<TokenUsage>), CompactErrorView>,
    prompt_input: Seq<ItemView>,
    injection: InitialContextInjection,
) -> Result<RemoteView, FailureView> {
    match reply {
        Err(error) => Err(service_failure(error, task.prepared is Some)),
        Ok((output, _)) => remote_v2_outcome(
            model,
            task.prepared,
            prompt_input,
            output,
            injection,
        ),
    }
}

/// What the answer adds to what is measured.
pub open spec fn reply_details<M: SessionModel>(
    model: M,
    task: RemoteTaskView,
    reply: Result<(ItemView, Option<TokenUsage>), CompactErrorView>,
    prompt_input: Seq<ItemView>,
) -> CompactionAnalyticsDetails {
    match reply {
        Err(_) => task.details,
        Ok((output, usage)) => {
            let details = task.details.with_usage(usage, task.prepared is Some);
            if task.prepared is Some && !has_usable_summary(model, seq![output]) {
                details
            } else {
                CompactionAnalyticsDetails {
                    retained_image_count: Some(
                        image_count(v2_history(model, prompt_input, output).drop_last()) as usize,
                    ),
                    ..details
                }
            }
        },
    }
}

impl RemoteTask {
    /// Without a plan the session may shorten tool outputs first; what that took off is not counted.
    pub fn on_trimmed(
        &mut self,
        history: Vec<ResponseItem>,
        estimated_deleted_tokens: i64,
        max_local_deleted_tokens: i64,
    )
        requires
            old(self)@.prepared is None,
        ensures
            final(self)@ == (RemoteTaskView {
                prepared: None,
                history: item_views(history@),
                details: old(self)@.details.less_deleted(
                    estimated_deleted_tokens,
                    max_local_deleted_tokens,
                ),
            }),
    {
        self.history = history;
        self.details.deduct_deleted_tokens(estimated_deleted_tokens, max_local_deleted_tokens);
    }

    pub fn request<M: SessionModel>(
        &self,
        model: &M,
        modalities: &[InputModality],
        turn_id: &str,
    ) -> (request: RemoteRequest)
        ensures
            item_views(request.prompt_input@) == model.spec_prompt_items(
                self@.history,
                modalities@,
            ),
            item_views(request.input@) == item_views(request.prompt_input@).push(
                plain_item(BodyView::CompactionTrigger),
            ),
            option_view(request.isolated_cache_key) == if self@.prepared is Some {
                Some(cache_key(ExactTailImplementation::RemoteV2, turn_id@))
            } else {
                None
            },
    {
        let prompt_input = model.prompt_items(clone_items(self.history.as_slice()), modalities);
        let input = compaction_request_input(&prompt_input);
        let isolated_cache_key = if self.prepared.is_some() {
            Some(isolated_prompt_cache_key(ExactTailImplementation::RemoteV2, turn_id))
        } else {
            None
        };
        RemoteRequest { prompt_input, input, isolated_cache_key }
    }

    /// Takes the answer of the second remote protocol.
    pub fn on_reply<M: SessionModel>(
        &mut self,
        model: &M,
        reply: Result<RemoteCompactionV2Output, CompactError>,
        prompt_input: &Vec<ResponseItem>,
        initial_context_injection: InitialContextInjection,
    ) -> (r: Result<RemoteCompaction, CompactFailure>)
        ensures
            ({
                let outcome = reply_outcome(
                    *model,
                    old(self)@,
                    reply_view(reply),
                    item_views(prompt_input@),
                    initial_context_injection,
                );
                match r {
                    Ok(done) => outcome == Ok::<RemoteView, FailureView>(done@),
                    Err(failure) => outcome == Err::<RemoteView, FailureView>(failure@),
                }
            }),
            final(self)@ == (RemoteTaskView {
                details: reply_details(
                    *model,
                    old(self)@,
                    reply_view(reply),
                    item_views(prompt_input@),
                ),
                ..old(self)@
            }),
    {
        match reply {
            Err(error) => Err(backend_failure(error, self.prepared.is_some())),
            Ok(output) => {
                self.details.record_usage(output.token_usage, self.prepared.is_some());
                let item = output.compaction_output;
                let alone = one_item(&item);
                let usable = match ensure_replacement_has_cold_summary(model, alone.as_slice()) {
                    Ok(_) => true,
                    Err(_) => false,
                };
                if usable || self.prepared.is_none() {
                    let (_, images) = build_v2_compacted_history(
                        model,
                        prompt_input.as_slice(),
                        item.clone(),
                    );
                    self.details.retained_image_count = Some(images);
                }
                finish_remote_v2_compaction(
                    model,
                    &self.prepared,
                    prompt_input,
                    item,
                    initial_context_injection,
                )
            },
        }
    }

    /// What the first remote protocol sends: with a plan in the form that was checked.
    pub fn legacy_prompt<M: SessionModel>(&self, model: &M, modalities: &[InputModality]) -> (
        prompt: Vec<ResponseItem>)
        ensures
            item_views(prompt@) == if self@.prepared is Some {
                model.spec_exact_tail_prompt_items(self@.history, modalities@)
            } else {
                model.spec_prompt_items(self@.history, modalities@)
            },
    {
        let items = clone_items(self.history.as_slice());
        if self.prepared.is_some() {
            model.exact_tail_prompt_items(items, modalities)
        } else {
            model.prompt_items(items, modalities)
        }
    }

    /// Takes the answer of the first remote protocol: the compacted history as it is.
    pub fn on_legacy_reply(&self, reply: Result<Vec<ResponseItem>, CompactError>) -> (r: Result<
        Vec<ResponseItem>,
        CompactFailure,
    >)
        ensures
            match reply {
                Ok(items) => r is Ok && item_views(r->Ok_0@) == item_views(items@),
                Err(error) => r is Err && r->Err_0@ == service_failure(
                    error@,
                    self@.prepared is Some,
                ),
            },
    {
        match reply {
            Ok(items) => Ok(items),
            Err(error) => Err(backend_failure(error, self.prepared.is_some())),
        }
    }
}

// -- laws -------------------------------------------------------------------------------------

/// With a plan, a remote compaction that succeeds ends with the exact tail, item for item, and a
/// failure always has its reason.
pub proof fn law_remote_compaction_keeps_the_exact_tail<M: SessionModel>(
    model: M,
    prepared: PreparedView,
    prompt_input: Seq<ItemView>,
    output: ItemView,
    injection: InitialContextInjection,
)
    ensures
        match remote_v2_outcome(model, Some(prepared), prompt_input, output, injection) {
            Ok(done) => ends_with_items(done.new_history, prepared.plan.hot_suffix),
            Err(failure) => failure.reason is Some,
        },
{
}

} // verus!
