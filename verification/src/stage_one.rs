//! The first stage of the memories: finding the scratchpads of a repository, drawing a memory from
//! each session or scratchpad, and counting how that went.

use crate::compact::{content_items_to_text, content_text};
use crate::item::{option_view, BodyView, ItemBody};
use crate::rolling_context_filter::same_text;
use crate::rolling_state::saturating_mul;
use crate::scratchpad::{
    build_scratchpad_rollout_summary, document_of, is_scratchpad, parse_scratchpad_document,
    rollout_summary, scratchpad_rollout_slug, scratchpad_title_from_path, slug_of, title_from_name,
};
use crate::scratchpad_memory::{
    before, build_scratchpad_raw_memory, law_order_is_total, law_order_is_transitive,
    lemma_not_before_itself, lines_text, memory_lines, text_before,
};
use crate::session_model::{saturating, saturating_add, saturating_sub};
use crate::stream::{EventView, ResponseEvent, TokenUsage};
use crate::text::has_prefix;
use vstd::prelude::*;
use vstd::string::*;

verus! {

// ---------------------------------------------------------------------------------------------
// Sources.
// ---------------------------------------------------------------------------------------------

/// Where memories come from.
#[derive(Debug, PartialEq, Eq)]
pub enum MemoriesStageOneSource {
    Scratchpad,
    /// Sessions that were started in the named way.
    Session(String),
}

impl MemoriesStageOneSource {
    /// The name of the source in the state database.
    pub open spec fn name(self) -> Seq<char> {
        match self {
            MemoriesStageOneSource::Scratchpad => "scratchpad"@,
            MemoriesStageOneSource::Session(name) => name@,
        }
    }

    pub fn as_db_source_str(&self) -> (r: &str)
        ensures
            r@ == self.name(),
    {
        match self {
            MemoriesStageOneSource::Scratchpad => "scratchpad",
            MemoriesStageOneSource::Session(name) => name.as_str(),
        }
    }
}

/// Whether scratchpads are among the sources.
pub fn has_scratchpad_stage_one_source(sources: &Vec<MemoriesStageOneSource>) -> (r: bool)
    ensures
        r == exists|k: int| 0 <= k < sources@.len() && #[trigger] sources@[k] is Scratchpad,
{
    let mut i: usize = 0;
    while i < sources.len()
        invariant
            i <= sources@.len(),
            forall|k: int| 0 <= k < i ==> !(#[trigger] sources@[k] is Scratchpad),
        decreases sources@.len() - i,
    {
        if let MemoriesStageOneSource::Scratchpad = &sources[i] {
            return true;
        }
        i += 1;
    }
    false
}

/// The first place that holds.
pub open spec fn first_true(flags: Seq<bool>, from: int) -> Option<int>
    decreases flags.len() - from,
{
    if from < 0 || from >= flags.len() {
        None
    } else if flags[from] {
        Some(from)
    } else {
        first_true(flags, from + 1)
    }
}

/// The nearest directory, from the working directory upwards, that has scratchpads: the flags tell
/// it of each.
pub fn find_repo_root_with_scratchpad(has_scratchpads: &Vec<bool>) -> (r: Option<usize>)
    ensures
        first_true(has_scratchpads@, 0) == match r {
            Some(at) => Some(at as int),
            None => None,
        },
{
    let mut i: usize = 0;
    while i < has_scratchpads.len()
        invariant
            i <= has_scratchpads@.len(),
            first_true(has_scratchpads@, 0) == first_true(has_scratchpads@, i as int),
        decreases has_scratchpads@.len() - i,
    {
        if has_scratchpads[i] {
            return Some(i);
        }
        i += 1;
    }
    None
}

// ---------------------------------------------------------------------------------------------
// Candidates.
// ---------------------------------------------------------------------------------------------

/// A point in time: seconds since the epoch, and what is beyond them.
#[derive(Clone, Copy, Debug, PartialEq, Eq, Structural)]
pub struct FileTime {
    pub secs: i64,
    pub nanos: u32,
}

pub open spec fn later(a: FileTime, b: FileTime) -> bool {
    a.secs > b.secs || (a.secs == b.secs && a.nanos > b.nanos)
}

/// The times between which a file must have changed last.
#[derive(Clone, Copy, Debug, PartialEq, Eq, Structural)]
pub struct UpdateWindow {
    pub min_updated_at: i64,
    pub max_updated_at: i64,
}

pub open spec fn window_at(now: i64, max_age_days: i64, min_idle_hours: i64) -> UpdateWindow {
    UpdateWindow {
        min_updated_at: saturating(now - saturating(saturating(max_age_days * 24) * 3_600)),
        max_updated_at: saturating(now - saturating(min_idle_hours * 3_600)),
    }
}

/// A file must be young enough to matter and old enough to be left alone.
pub fn update_window(now: i64, max_rollout_age_days: i64, min_rollout_idle_hours: i64) -> (r:
    UpdateWindow)
    ensures
        r == window_at(now, max_rollout_age_days, min_rollout_idle_hours),
{
    UpdateWindow {
        min_updated_at: saturating_sub(
            now,
            saturating_mul(saturating_mul(max_rollout_age_days, 24), 3_600),
        ),
        max_updated_at: saturating_sub(now, saturating_mul(min_rollout_idle_hours, 3_600)),
    }
}

/// A directory entry, as far as it could be read.
#[derive(Debug)]
pub struct ScratchpadFile {
    pub path: String,
    pub is_file: bool,
    pub extension: Option<String>,
    pub updated_at: Option<FileTime>,
    pub contents: Option<String>,
}

/// A scratchpad to draw a memory from.
#[derive(Debug, PartialEq, Eq)]
pub struct ScratchpadCandidate {
    pub path: String,
    pub updated_at: FileTime,
}

pub struct CandidateView {
    pub path: Seq<char>,
    pub updated_at: FileTime,
}

impl View for ScratchpadCandidate {
    type V = CandidateView;

    open spec fn view(&self) -> CandidateView {
        CandidateView { path: self.path@, updated_at: self.updated_at }
    }
}

pub open spec fn candidate_views(list: Seq<ScratchpadCandidate>) -> Seq<CandidateView> {
    list.map_values(|c: ScratchpadCandidate| c@)
}

/// The file is a Markdown file that changed within the window.
pub open spec fn in_window(file: ScratchpadFile, window: UpdateWindow) -> bool {
    &&& file.is_file
    &&& option_view(file.extension) == Some("md"@)
    &&& match file.updated_at {
        Some(at) => window.min_updated_at <= at.secs <= window.max_updated_at,
        None => false,
    }
}

/// Whether a file is worth reading.
pub fn is_worth_reading(file: &ScratchpadFile, window: UpdateWindow) -> (r: bool)
    ensures
        r == in_window(*file, window),
{
    if !file.is_file {
        return false;
    }
    match &file.extension {
        Some(extension) => if !same_text(extension.as_str(), "md") {
            return false;
        },
        None => {
            return false;
        },
    }
    match file.updated_at {
        Some(at) => window.min_updated_at <= at.secs && at.secs <= window.max_updated_at,
        None => false,
    }
}

/// The candidate that a file is, if it is one.
pub open spec fn candidate_of(file: ScratchpadFile, window: UpdateWindow) -> Option<CandidateView> {
    match (file.updated_at, file.contents) {
        (Some(at), Some(contents)) => if in_window(file, window) && has_prefix(
            contents@,
            "# Codex Scratchpad"@,
        ) {
            Some(CandidateView { path: file.path@, updated_at: at })
        } else {
            None
        },
        _ => None,
    }
}

/// The candidate comes first: it is newer, or as old and its path comes first.
pub open spec fn precedes(a: CandidateView, b: CandidateView) -> bool {
    later(a.updated_at, b.updated_at) || (a.updated_at == b.updated_at && before(a.path, b.path))
}

/// The list with one candidate more, in its place.
pub open spec fn with_candidate(list: Seq<CandidateView>, candidate: CandidateView) -> Seq<
    CandidateView,
>
    decreases list.len(),
{
    if list.len() == 0 || !precedes(candidate, list.last()) {
        list.push(candidate)
    } else {
        with_candidate(list.drop_last(), candidate).push(list.last())
    }
}

/// The candidates among the files, in order.
pub open spec fn arranged(files: Seq<ScratchpadFile>, window: UpdateWindow) -> Seq<CandidateView>
    decreases files.len(),
{
    if files.len() == 0 {
        Seq::empty()
    } else {
        let rest = arranged(files.drop_last(), window);
        match candidate_of(files.last(), window) {
            Some(candidate) => with_candidate(rest, candidate),
            None => rest,
        }
    }
}

fn comes_first(a: &ScratchpadCandidate, b: &ScratchpadCandidate) -> (r: bool)
    ensures
        r == precedes(a@, b@),
{
    if a.updated_at.secs != b.updated_at.secs {
        return a.updated_at.secs > b.updated_at.secs;
    }
    if a.updated_at.nanos != b.updated_at.nanos {
        return a.updated_at.nanos > b.updated_at.nanos;
    }
    text_before(a.path.as_str(), b.path.as_str())
}

proof fn lemma_with_candidate_splits(
    list: Seq<CandidateView>,
    candidate: CandidateView,
    at: int,
)
    requires
        0 <= at <= list.len(),
        forall|k: int| at <= k < list.len() ==> precedes(candidate, #[trigger] list[k]),
        at == 0 || !precedes(candidate, list[at - 1]),
    ensures
        with_candidate(list, candidate) == list.subrange(0, at).push(candidate) + list.subrange(
            at,
            list.len() as int,
        ),
    decreases list.len() - at,
{
    if at == list.len() {
        assert(list.subrange(0, at) =~= list);
        assert(list.push(candidate) + list.subrange(at, at) =~= list.push(candidate));
    } else {
        let front = list.drop_last();
        assert(precedes(candidate, list[list.len() - 1]));
        assert forall|k: int| at <= k < front.len() implies precedes(
            candidate,
            #[trigger] front[k],
        ) by {
            assert(front[k] == list[k]);
        }
        lemma_with_candidate_splits(front, candidate, at);
        assert(front.subrange(0, at) =~= list.subrange(0, at));
        assert((list.subrange(0, at).push(candidate) + front.subrange(
            at,
            front.len() as int,
        )).push(list.last()) =~= list.subrange(0, at).push(candidate) + list.subrange(
            at,
            list.len() as int,
        ));
    }
}

fn insert_candidate(list: &mut Vec<ScratchpadCandidate>, candidate: ScratchpadCandidate)
    ensures
        candidate_views(final(list)@) == with_candidate(
            candidate_views(old(list)@),
            candidate@,
        ),
{
    let ghost all = candidate_views(list@);
    let mut at: usize = list.len();
    while at > 0 && comes_first(&candidate, &list[at - 1])
        invariant
            at <= list@.len(),
            all == candidate_views(list@),
            forall|k: int| at <= k < all.len() ==> precedes(candidate@, #[trigger] all[k]),
        decreases at,
    {
        assert(all[at - 1] == list@[at - 1]@);
        at -= 1;
    }
    proof {
        if at > 0 {
            assert(all[at - 1] == list@[at - 1]@);
        }
        lemma_with_candidate_splits(all, candidate@, at as int);
    }
    let ghost added = candidate@;
    list.insert(at, candidate);
    assert(candidate_views(list@) =~= all.subrange(0, at as int).push(added) + all.subrange(
        at as int,
        all.len() as int,
    ));
}

/// The newest scratchpads among the files of a repository's scratchpad directories, at most
/// `limit` of them. All the paths lie in two directories of one parent, so the order of their
/// texts is the order of the paths.
pub fn discover_scratchpad_candidates(
    files: Vec<ScratchpadFile>,
    window: UpdateWindow,
    limit: usize,
) -> (r: Vec<ScratchpadCandidate>)
    ensures
        ({
            let all = arranged(files@, window);
            candidate_views(r@) == if all.len() <= limit {
                all
            } else {
                all.subrange(0, limit as int)
            }
        }),
{
    let mut list: Vec<ScratchpadCandidate> = Vec::new();
    let mut i: usize = 0;
    assert(candidate_views(list@) =~= arranged(files@.subrange(0, 0), window));
    while i < files.len()
        invariant
            i <= files@.len(),
            candidate_views(list@) == arranged(files@.subrange(0, i as int), window),
        decreases files@.len() - i,
    {
        proof {
            let next = files@.subrange(0, i + 1);
            assert(next.drop_last() =~= files@.subrange(0, i as int));
            assert(next.last() == files@[i as int]);
        }
        let file = &files[i];
        if is_worth_reading(file, window) {
            if let Some(contents) = &file.contents {
                if is_scratchpad(contents.as_str()) {
                    if let Some(updated_at) = file.updated_at {
                        insert_candidate(
                            &mut list,
                            ScratchpadCandidate {
                                path: file.path.as_str().to_owned(),
                                updated_at,
                            },
                        );
                    }
                }
            }
        }
        i += 1;
    }
    assert(files@.subrange(0, i as int) =~= files@);
    let ghost all = candidate_views(list@);
    if list.len() > limit {
        list.truncate(limit);
        assert(candidate_views(list@) =~= all.subrange(0, limit as int));
    }
    list
}

// ---------------------------------------------------------------------------------------------
// Threads.
// ---------------------------------------------------------------------------------------------

/// The identifier that belongs to a text in the URL namespace.
pub uninterp spec fn url_uuid(text: Seq<char>) -> Seq<char>;

/// `uuid::Uuid::new_v5` with `Uuid::NAMESPACE_URL`, over the bytes of the text, written out.
///
/// Claimed: the identifier depends on the text alone. Which one it is, by way of the SHA-1 hash of
/// the namespace and the text, is left unsaid.
#[verifier::external_body]
pub(crate) fn uuid_of_url(text: &str) -> (id: String)
    ensures
        id@ == url_uuid(text@),
{
    uuid::Uuid::new_v5(&uuid::Uuid::NAMESPACE_URL, text.as_bytes()).to_string()
}

/// How a scratchpad is recorded as a thread of its own.
#[derive(Debug, PartialEq, Eq)]
pub struct ScratchpadThread {
    pub id: String,
    pub source: String,
    pub title: String,
    pub first_user_message: String,
}

/// The record of a scratchpad: the same file always has the same identifier.
pub fn scratchpad_thread(canonical_path: &str, file_name: Option<&str>) -> (r: ScratchpadThread)
    ensures
        r.id@ == url_uuid(canonical_path@),
        r.source@ == "scratchpad"@,
        r.title@ == title_from_name(
            match file_name {
                Some(name) => Some(name@),
                None => None,
            },
        ),
        r.first_user_message@ == "scratchpad: "@ + r.title@,
{
    let title = scratchpad_title_from_path(file_name);
    let mut first_user_message = String::from_str("scratchpad: ");
    first_user_message.append(title.as_str());
    ScratchpadThread {
        id: uuid_of_url(canonical_path),
        source: String::from_str("scratchpad"),
        title,
        first_user_message,
    }
}

// ---------------------------------------------------------------------------------------------
// Memories.
// ---------------------------------------------------------------------------------------------

/// What the first stage draws from one thread.
#[derive(Debug, PartialEq, Eq)]
pub struct StageOneOutput {
    /// The memory in full, in Markdown.
    pub raw_memory: String,
    /// One line by which it is found.
    pub rollout_summary: String,
    /// What the file of the summary is named after.
    pub rollout_slug: Option<String>,
}

pub struct OutputView {
    pub raw_memory: Seq<char>,
    pub rollout_summary: Seq<char>,
    pub rollout_slug: Option<Seq<char>>,
}

impl View for StageOneOutput {
    type V = OutputView;

    open spec fn view(&self) -> OutputView {
        OutputView {
            raw_memory: self.raw_memory@,
            rollout_summary: self.rollout_summary@,
            rollout_slug: option_view(self.rollout_slug),
        }
    }
}

/// Why no memory can be drawn from a scratchpad.
#[derive(Clone, Copy, Debug, PartialEq, Eq, Structural)]
pub enum ScratchpadError {
    /// The contents are not those of a scratchpad.
    Format,
    /// The time of the file is out of the range of dates.
    Time,
}

impl ScratchpadError {
    pub open spec fn text(self, path: Seq<char>) -> Seq<char> {
        match self {
            ScratchpadError::Format => "scratchpad file does not match expected format: "@ + path,
            ScratchpadError::Time => "scratchpad file time is out of range: "@ + path,
        }
    }

    pub fn message(self, path: &str) -> (r: String)
        ensures
            r@ == self.text(path@),
    {
        let mut message = match self {
            ScratchpadError::Format => String::from_str(
                "scratchpad file does not match expected format: ",
            ),
            ScratchpadError::Time => String::from_str("scratchpad file time is out of range: "),
        };
        message.append(path);
        message
    }
}

/// The memory of a scratchpad that changed at the given time, as text.
pub open spec fn scratchpad_output(
    contents: Seq<char>,
    path: Seq<char>,
    file_name: Option<Seq<char>>,
    updated_at: Seq<char>,
) -> Result<OutputView, ScratchpadError> {
    let title = title_from_name(file_name);
    match document_of(contents) {
        None => Err(ScratchpadError::Format),
        Some(document) => Ok(
            OutputView {
                raw_memory: lines_text(memory_lines(document, path, updated_at, title)),
                rollout_summary: rollout_summary(document, title),
                rollout_slug: slug_of(document, title),
            },
        ),
    }
}

pub open spec fn name_view(name: Option<&str>) -> Option<Seq<char>> {
    match name {
        Some(name) => Some(name@),
        None => None,
    }
}

/// Draws the memory of a scratchpad, given the text of its time.
pub fn scratchpad_output_at(
    contents: &str,
    path: &str,
    file_name: Option<&str>,
    updated_at: &str,
) -> (r: Result<StageOneOutput, ScratchpadError>)
    ensures
        ({
            let outcome = scratchpad_output(contents@, path@, name_view(file_name), updated_at@);
            match r {
                Ok(output) => outcome == Ok::<OutputView, ScratchpadError>(output@),
                Err(error) => outcome == Err::<OutputView, ScratchpadError>(error),
            }
        }),
{
    let document = match parse_scratchpad_document(contents) {
        Some(document) => document,
        None => {
            return Err(ScratchpadError::Format);
        },
    };
    let title = scratchpad_title_from_path(file_name);
    Ok(
        StageOneOutput {
            raw_memory: build_scratchpad_raw_memory(&document, path, updated_at, title.as_str()),
            rollout_summary: build_scratchpad_rollout_summary(&document, title.as_str()),
            rollout_slug: scratchpad_rollout_slug(&document, title.as_str()),
        },
    )
}

/// The RFC 3339 form of a time in UTC, if the time is one that has a date.
pub uninterp spec fn rfc3339(secs: i64, nanos: u32) -> Option<Seq<char>>;

/// `chrono::DateTime::to_rfc3339`, on the time in UTC that `DateTime::from_timestamp` makes of the
/// seconds and nanoseconds.
///
/// Claimed: what comes out depends on the seconds and nanoseconds alone, and nothing comes out
/// where they are out of range. How a date is reckoned and written is left unsaid.
#[verifier::external_body]
pub(crate) fn rfc3339_text(secs: i64, nanos: u32) -> (r: Option<String>)
    ensures
        option_view(r) == rfc3339(secs, nanos),
{
    chrono::DateTime::from_timestamp(secs, nanos).map(|time| time.to_rfc3339())
}

/// Draws the memory of a scratchpad.
pub fn scratchpad_stage_one_output(
    contents: &str,
    path: &str,
    file_name: Option<&str>,
    updated_at: FileTime,
) -> (r: Result<StageOneOutput, ScratchpadError>)
    ensures
        match rfc3339(updated_at.secs, updated_at.nanos) {
            None => r == Err::<StageOneOutput, ScratchpadError>(
                if document_of(contents@) is None {
                    ScratchpadError::Format
                } else {
                    ScratchpadError::Time
                },
            ),
            Some(time) => {
                let outcome = scratchpad_output(contents@, path@, name_view(file_name), time);
                match r {
                    Ok(output) => outcome == Ok::<OutputView, ScratchpadError>(output@),
                    Err(error) => outcome == Err::<OutputView, ScratchpadError>(error),
                }
            },
        },
{
    match rfc3339_text(updated_at.secs, updated_at.nanos) {
        Some(time) => scratchpad_output_at(contents, path, file_name, time.as_str()),
        None => {
            let document = parse_scratchpad_document(contents);
            if document.is_none() {
                Err(ScratchpadError::Format)
            } else {
                Err(ScratchpadError::Time)
            }
        },
    }
}

/// The JSON schema that the model's answer has to keep to.
pub fn output_schema() -> (r: String)
    ensures
        r@
            == "{\"type\":\"object\",\"properties\":{\"rollout_summary\":{\"type\":\"string\"},\"rollout_slug\":{\"type\":[\"string\",\"null\"]},\"raw_memory\":{\"type\":\"string\"}},\"required\":[\"rollout_summary\",\"rollout_slug\",\"raw_memory\"],\"additionalProperties\":false}"@,
{
    String::from_str(
        "{\"type\":\"object\",\"properties\":{\"rollout_summary\":{\"type\":\"string\"},\"rollout_slug\":{\"type\":[\"string\",\"null\"]},\"raw_memory\":{\"type\":\"string\"}},\"required\":[\"rollout_summary\",\"rollout_slug\",\"raw_memory\"],\"additionalProperties\":false}",
    )
}

// ---------------------------------------------------------------------------------------------
// Reading the model's answer.
// ---------------------------------------------------------------------------------------------

/// The answer so far.
pub struct AnswerView {
    pub text: Seq<char>,
    pub token_usage: Option<TokenUsage>,
    pub ended: bool,
}

/// One event more: a whole message counts only where no text came in pieces before.
pub open spec fn answer_with(state: AnswerView, event: EventView) -> AnswerView {
    if state.ended {
        state
    } else {
        match event {
            EventView::OutputTextDelta(delta) => AnswerView { text: state.text + delta, ..state },
            EventView::OutputItemDone(item) => match item.body {
                BodyView::Message { role, content, phase } => match content_text(content) {
                    Some(text) => if state.text.len() == 0 {
                        AnswerView { text, ..state }
                    } else {
                        state
                    },
                    None => state,
                },
                _ => state,
            },
            EventView::Completed { token_usage } => AnswerView {
                token_usage,
                ended: true,
                ..state
            },
            _ => state,
        }
    }
}

/// Reads the answer of the model, event by event.
#[derive(Debug)]
pub struct StageOneAnswer {
    pub text: String,
    pub token_usage: Option<TokenUsage>,
    pub ended: bool,
}

impl View for StageOneAnswer {
    type V = AnswerView;

    open spec fn view(&self) -> AnswerView {
        AnswerView { text: self.text@, token_usage: self.token_usage, ended: self.ended }
    }
}

impl StageOneAnswer {
    pub fn new() -> (r: Self)
        ensures
            r@ == (AnswerView { text: Seq::empty(), token_usage: None, ended: false }),
    {
        let r = StageOneAnswer { text: String::new(), token_usage: None, ended: false };
        assert(r.text@ =~= Seq::<char>::empty());
        r
    }

    /// Takes one event; says whether the stream has ended.
    pub fn take(&mut self, event: ResponseEvent) -> (ended: bool)
        ensures
            final(self)@ == answer_with(old(self)@, event@),
            ended == final(self)@.ended,
    {
        if self.ended {
            return true;
        }
        match event {
            ResponseEvent::OutputTextDelta(delta) => {
                self.text.append(delta.as_str());
            },
            ResponseEvent::OutputItemDone(item) => {
                if self.text.as_str().is_empty() {
                    if let ItemBody::Message { role: _, content, phase: _ } = &item.body {
                        if let Some(text) = content_items_to_text(content) {
                            self.text = text;
                        }
                    }
                }
            },
            ResponseEvent::Completed { token_usage } => {
                self.token_usage = token_usage;
                self.ended = true;
            },
            _ => {},
        }
        self.ended
    }
}

// ---------------------------------------------------------------------------------------------
// Outcomes.
// ---------------------------------------------------------------------------------------------

#[derive(Clone, Copy, Debug, Eq, PartialEq, Structural)]
pub enum JobOutcome {
    SucceededWithOutput,
    SucceededNoOutput,
    Failed,
}

#[derive(Clone, Copy, Debug, Eq, PartialEq, Structural)]
pub struct JobResult {
    pub outcome: JobOutcome,
    pub token_usage: Option<TokenUsage>,
}

/// Whether there is anything to store: both the memory and its summary must say something.
pub fn has_output(output: &StageOneOutput) -> (r: bool)
    ensures
        r == (output@.raw_memory.len() > 0 && output@.rollout_summary.len() > 0),
{
    !output.raw_memory.as_str().is_empty() && !output.rollout_summary.as_str().is_empty()
}

/// The outcome of a job: `recorded` tells whether the state database took the result.
pub fn job_outcome(has_output: bool, recorded: bool) -> (outcome: JobOutcome)
    ensures
        outcome == if !recorded {
            JobOutcome::Failed
        } else if has_output {
            JobOutcome::SucceededWithOutput
        } else {
            JobOutcome::SucceededNoOutput
        },
{
    if !recorded {
        JobOutcome::Failed
    } else if has_output {
        JobOutcome::SucceededWithOutput
    } else {
        JobOutcome::SucceededNoOutput
    }
}

/// How a run went.
#[derive(Clone, Copy, Debug, Eq, PartialEq, Structural)]
pub struct Stats {
    pub claimed: usize,
    pub succeeded_with_output: usize,
    pub succeeded_no_output: usize,
    pub failed: usize,
    pub total_token_usage: Option<TokenUsage>,
}

pub open spec fn outcome_count(results: Seq<JobResult>, outcome: JobOutcome) -> nat
    decreases results.len(),
{
    if results.len() == 0 {
        0
    } else {
        outcome_count(results.drop_last(), outcome) + if results.last().outcome == outcome {
            1nat
        } else {
            0nat
        }
    }
}

pub open spec fn usage_sum(a: TokenUsage, b: TokenUsage) -> TokenUsage {
    TokenUsage {
        input_tokens: saturating(a.input_tokens + b.input_tokens),
        cached_input_tokens: saturating(a.cached_input_tokens + b.cached_input_tokens),
        output_tokens: saturating(a.output_tokens + b.output_tokens),
        reasoning_output_tokens: saturating(
            a.reasoning_output_tokens + b.reasoning_output_tokens,
        ),
        total_tokens: saturating(a.total_tokens + b.total_tokens),
    }
}

/// The usage of all the jobs that reported one.
pub open spec fn total_usage(results: Seq<JobResult>) -> Option<TokenUsage>
    decreases results.len(),
{
    if results.len() == 0 {
        None
    } else {
        match (total_usage(results.drop_last()), results.last().token_usage) {
            (total, None) => total,
            (None, Some(usage)) => Some(usage),
            (Some(total), Some(usage)) => Some(usage_sum(total, usage)),
        }
    }
}

fn add_usage(a: TokenUsage, b: TokenUsage) -> (r: TokenUsage)
    ensures
        r == usage_sum(a, b),
{
    TokenUsage {
        input_tokens: saturating_add(a.input_tokens, b.input_tokens),
        cached_input_tokens: saturating_add(a.cached_input_tokens, b.cached_input_tokens),
        output_tokens: saturating_add(a.output_tokens, b.output_tokens),
        reasoning_output_tokens: saturating_add(
            a.reasoning_output_tokens,
            b.reasoning_output_tokens,
        ),
        total_tokens: saturating_add(a.total_tokens, b.total_tokens),
    }
}

proof fn lemma_counts(results: Seq<JobResult>)
    ensures
        outcome_count(results, JobOutcome::SucceededWithOutput) + outcome_count(
            results,
            JobOutcome::SucceededNoOutput,
        ) + outcome_count(results, JobOutcome::Failed) == results.len(),
    decreases results.len(),
{
    if results.len() > 0 {
        lemma_counts(results.drop_last());
    }
}

/// Counts how the jobs went and adds up what they cost.
pub fn aggregate_stats(outcomes: Vec<JobResult>) -> (stats: Stats)
    ensures
        stats.claimed == outcomes@.len(),
        stats.succeeded_with_output == outcome_count(
            outcomes@,
            JobOutcome::SucceededWithOutput,
        ),
        stats.succeeded_no_output == outcome_count(outcomes@, JobOutcome::SucceededNoOutput),
        stats.failed == outcome_count(outcomes@, JobOutcome::Failed),
        stats.total_token_usage == total_usage(outcomes@),
        stats.succeeded_with_output + stats.succeeded_no_output + stats.failed == stats.claimed,
{
    let mut stats = Stats {
        claimed: outcomes.len(),
        succeeded_with_output: 0,
        succeeded_no_output: 0,
        failed: 0,
        total_token_usage: None,
    };
    let mut i: usize = 0;
    while i < outcomes.len()
        invariant
            i <= outcomes@.len(),
            stats.claimed == outcomes@.len(),
            stats.succeeded_with_output == outcome_count(
                outcomes@.subrange(0, i as int),
                JobOutcome::SucceededWithOutput,
            ),
            stats.succeeded_no_output == outcome_count(
                outcomes@.subrange(0, i as int),
                JobOutcome::SucceededNoOutput,
            ),
            stats.failed == outcome_count(outcomes@.subrange(0, i as int), JobOutcome::Failed),
            stats.total_token_usage == total_usage(outcomes@.subrange(0, i as int)),
        decreases outcomes@.len() - i,
    {
        proof {
            let next = outcomes@.subrange(0, i + 1);
            assert(next.drop_last() =~= outcomes@.subrange(0, i as int));
            assert(next.last() == outcomes@[i as int]);
            lemma_counts(next.drop_last());
        }
        let result = outcomes[i];
        match result.outcome {
            JobOutcome::SucceededWithOutput => {
                stats.succeeded_with_output += 1;
            },
            JobOutcome::SucceededNoOutput => {
                stats.succeeded_no_output += 1;
            },
            JobOutcome::Failed => {
                stats.failed += 1;
            },
        }
        if let Some(usage) = result.token_usage {
            stats.total_token_usage = match stats.total_token_usage {
                Some(total) => Some(add_usage(total, usage)),
                None => Some(usage),
            };
        }
        i += 1;
    }
    proof {
        assert(outcomes@.subrange(0, i as int) =~= outcomes@);
        lemma_counts(outcomes@);
    }
    stats
}

/// One number to report.
#[derive(Clone, Copy, Debug, Eq, PartialEq, Structural)]
pub enum StageOneMetric {
    JobsClaimed(usize),
    JobsSucceeded(usize),
    Outputs(usize),
    JobsSucceededNoOutput(usize),
    JobsFailed(usize),
    TotalTokens(i64),
    InputTokens(i64),
    CachedInputTokens(i64),
    OutputTokens(i64),
    ReasoningOutputTokens(i64),
}

pub open spec fn at_least_zero(n: i64) -> i64 {
    if n < 0 {
        0
    } else {
        n
    }
}

/// A count, reported if there is anything to count.
pub open spec fn counted(n: usize, metrics: Seq<StageOneMetric>) -> Seq<StageOneMetric> {
    if n > 0 {
        metrics
    } else {
        Seq::empty()
    }
}

/// What is reported of a run.
pub open spec fn metrics_of(stats: Stats) -> Seq<StageOneMetric> {
    counted(stats.claimed, seq![StageOneMetric::JobsClaimed(stats.claimed)]) + counted(
        stats.succeeded_with_output,
        seq![
            StageOneMetric::JobsSucceeded(stats.succeeded_with_output),
            StageOneMetric::Outputs(stats.succeeded_with_output),
        ],
    ) + counted(
        stats.succeeded_no_output,
        seq![StageOneMetric::JobsSucceededNoOutput(stats.succeeded_no_output)],
    ) + counted(stats.failed, seq![StageOneMetric::JobsFailed(stats.failed)])
        + match stats.total_token_usage {
        Some(usage) => seq![
            StageOneMetric::TotalTokens(at_least_zero(usage.total_tokens)),
            StageOneMetric::InputTokens(at_least_zero(usage.input_tokens)),
            StageOneMetric::CachedInputTokens(at_least_zero(usage.cached_input_tokens)),
            StageOneMetric::OutputTokens(at_least_zero(usage.output_tokens)),
            StageOneMetric::ReasoningOutputTokens(at_least_zero(usage.reasoning_output_tokens)),
        ],
        None => Seq::empty(),
    }
}

fn not_negative(n: i64) -> (r: i64)
    ensures
        r == at_least_zero(n),
{
    if n < 0 {
        0
    } else {
        n
    }
}

/// The numbers to report on a run, in order.
pub fn stage_one_metrics(counts: &Stats) -> (metrics: Vec<StageOneMetric>)
    ensures
        metrics@ == metrics_of(*counts),
{
    let mut metrics: Vec<StageOneMetric> = Vec::new();
    if counts.claimed > 0 {
        metrics.push(StageOneMetric::JobsClaimed(counts.claimed));
    }
    if counts.succeeded_with_output > 0 {
        metrics.push(StageOneMetric::JobsSucceeded(counts.succeeded_with_output));
        metrics.push(StageOneMetric::Outputs(counts.succeeded_with_output));
    }
    if counts.succeeded_no_output > 0 {
        metrics.push(StageOneMetric::JobsSucceededNoOutput(counts.succeeded_no_output));
    }
    if counts.failed > 0 {
        metrics.push(StageOneMetric::JobsFailed(counts.failed));
    }
    if let Some(usage) = counts.total_token_usage {
        metrics.push(StageOneMetric::TotalTokens(not_negative(usage.total_tokens)));
        metrics.push(StageOneMetric::InputTokens(not_negative(usage.input_tokens)));
        metrics.push(StageOneMetric::CachedInputTokens(not_negative(usage.cached_input_tokens)));
        metrics.push(StageOneMetric::OutputTokens(not_negative(usage.output_tokens)));
        metrics.push(
            StageOneMetric::ReasoningOutputTokens(not_negative(usage.reasoning_output_tokens)),
        );
    }
    assert(metrics@ =~= metrics_of(*counts));
    metrics
}

// -- laws -------------------------------------------------------------------------------------

/// The candidates among the files, in the order of the files.
pub open spec fn candidates_of(files: Seq<ScratchpadFile>, window: UpdateWindow) -> Seq<
    CandidateView,
>
    decreases files.len(),
{
    if files.len() == 0 {
        Seq::empty()
    } else {
        let rest = candidates_of(files.drop_last(), window);
        match candidate_of(files.last(), window) {
            Some(candidate) => rest.push(candidate),
            None => rest,
        }
    }
}

/// No candidate comes before one that stands in front of it.
pub open spec fn in_order(list: Seq<CandidateView>) -> bool {
    forall|i: int, j: int|
        0 <= i < j < list.len() ==> !precedes(#[trigger] list[j], #[trigger] list[i])
}

proof fn lemma_precedes_transitive(a: CandidateView, b: CandidateView, c: CandidateView)
    requires
        precedes(a, b),
        precedes(b, c),
    ensures
        precedes(a, c),
{
    if a.updated_at == b.updated_at && b.updated_at == c.updated_at {
        law_order_is_transitive(a.path, b.path, c.path);
    }
}

proof fn lemma_precedes_total(a: CandidateView, b: CandidateView)
    requires
        a != b,
    ensures
        precedes(a, b) != precedes(b, a),
{
    if a.updated_at == b.updated_at {
        law_order_is_total(a.path, b.path);
    }
}

proof fn lemma_with_candidate(list: Seq<CandidateView>, candidate: CandidateView)
    requires
        in_order(list),
    ensures
        in_order(with_candidate(list, candidate)),
        with_candidate(list, candidate).to_multiset() == list.to_multiset().insert(candidate),
        forall|k: int|
            0 <= k < with_candidate(list, candidate).len() ==> (#[trigger] with_candidate(
                list,
                candidate,
            )[k] == candidate || list.contains(with_candidate(list, candidate)[k])),
    decreases list.len(),
{
    broadcast use vstd::seq_lib::group_to_multiset_ensures;

    let r = with_candidate(list, candidate);
    if list.len() == 0 || !precedes(candidate, list.last()) {
        assert forall|i: int, j: int| 0 <= i < j < r.len() implies !precedes(
            #[trigger] r[j],
            #[trigger] r[i],
        ) by {
            if j == list.len() && precedes(candidate, list[i]) {
                let last = list.last();
                if i < list.len() - 1 {
                    assert(!precedes(list[list.len() - 1], list[i]));
                    if last != list[i] {
                        lemma_precedes_total(last, list[i]);
                        lemma_precedes_transitive(candidate, list[i], last);
                    }
                }
            }
        }
        assert forall|k: int| 0 <= k < r.len() implies (#[trigger] r[k] == candidate
            || list.contains(r[k])) by {
            if k < list.len() {
                assert(list[k] == r[k]);
            }
        }
    } else {
        let front = list.drop_last();
        let last = list.last();
        assert(in_order(front)) by {
            assert forall|i: int, j: int| 0 <= i < j < front.len() implies !precedes(
                #[trigger] front[j],
                #[trigger] front[i],
            ) by {
                assert(!precedes(list[j], list[i]));
            }
        }
        lemma_with_candidate(front, candidate);
        let inner = with_candidate(front, candidate);
        assert forall|i: int, j: int| 0 <= i < j < r.len() implies !precedes(
            #[trigger] r[j],
            #[trigger] r[i],
        ) by {
            if j == inner.len() {
                assert(r[i] == inner[i]);
                if inner[i] == candidate {
                    if candidate != last {
                        lemma_precedes_total(candidate, last);
                    } else {
                        lemma_not_before_itself(last.path);
                    }
                } else {
                    let k = choose|k: int| 0 <= k < front.len() && front[k] == inner[i];
                    assert(!precedes(list[list.len() - 1], list[k]));
                }
            } else {
                assert(!precedes(inner[j], inner[i]));
            }
        }
        assert(list =~= front.push(last));
        assert(r.to_multiset() =~= list.to_multiset().insert(candidate));
        assert forall|k: int| 0 <= k < r.len() implies (#[trigger] r[k] == candidate
            || list.contains(r[k])) by {
            if k < inner.len() {
                assert(r[k] == inner[k]);
                if inner[k] != candidate {
                    let m = choose|m: int| 0 <= m < front.len() && front[m] == inner[k];
                    assert(list[m] == inner[k]);
                }
            } else {
                assert(list[list.len() - 1] == r[k]);
            }
        }
    }
}

/// Every candidate among the files is kept, the newest first.
pub proof fn law_candidates_are_newest_first(files: Seq<ScratchpadFile>, window: UpdateWindow)
    ensures
        in_order(arranged(files, window)),
        arranged(files, window).to_multiset() == candidates_of(files, window).to_multiset(),
    decreases files.len(),
{
    broadcast use vstd::seq_lib::group_to_multiset_ensures;

    if files.len() > 0 {
        law_candidates_are_newest_first(files.drop_last(), window);
        if let Some(candidate) = candidate_of(files.last(), window) {
            lemma_with_candidate(arranged(files.drop_last(), window), candidate);
        }
    }
}

} // verus!
