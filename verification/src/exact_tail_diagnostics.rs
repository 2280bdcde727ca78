//! What a session reports about an exact-tail compaction.

use crate::exact_tail::{
    CompactionTrigger, ExactTailFailReason, ExactTailImplementation,
};
use crate::exact_tail_plan::{ExactTailDiagnostics, ExactTailPlan};
use crate::exact_tail_replacement::ExactTailReplacementDiagnostics;
use crate::item::option_view;
use vstd::prelude::*;
use vstd::string::*;

verus! {

#[derive(Clone, Copy, Debug, Eq, PartialEq, Structural)]
pub enum ExactTailCompactionRoute {
    Local,
    RemoteLegacy,
    RemoteV2,
    SemanticTranscript,
}

#[derive(Clone, Copy, Debug, Eq, PartialEq, Structural)]
pub enum ExactTailCompactionTrigger {
    Manual,
    Auto,
}

#[derive(Clone, Copy, Debug, Eq, PartialEq, Structural)]
pub enum ExactTailCompactionFitResult {
    Success,
    Failure,
}

/// The numbers of a report; each is there only as far as the attempt came.
#[derive(Clone, Copy, Debug, Eq, PartialEq, Structural)]
pub struct ExactTailReportNumbers {
    pub requested_hot_tokens: Option<i64>,
    pub actual_hot_tokens: Option<i64>,
    pub hot_group_count: Option<usize>,
    pub cold_group_count: Option<usize>,
    pub raw_item_count: Option<usize>,
    pub group_count: Option<usize>,
    pub cold_tokens: Option<i64>,
    pub summary_tokens: Option<i64>,
    pub replacement_tokens_estimate: Option<i64>,
    pub final_replacement_tokens_estimate: Option<i64>,
    pub effective_replacement_budget: Option<i64>,
    pub safety_margin: Option<i64>,
    pub max_model_visible_item_tokens: Option<i64>,
    pub normalized_tool_output_count: Option<usize>,
    pub largest_hot_item_tokens: Option<i64>,
    pub hot_suffix_exact_match: Option<bool>,
    pub planned_hot_suffix_item_count: Option<usize>,
    pub installed_hot_suffix_item_count: Option<usize>,
    pub filtered_stale_group_count: Option<usize>,
    pub filtered_context_item_count: Option<usize>,
    pub required_current_context_budget: Option<i64>,
    pub final_replacement_extra_budget_tokens: Option<i64>,
    pub conservative_cold_summary_budget: Option<i64>,
    pub conservative_summary_budget_tokens: Option<i64>,
    pub estimated_summary_scaffold_overhead_tokens: Option<i64>,
    pub retained_cold_user_message_budget_tokens: Option<i64>,
    pub replacement_overhead_margin_tokens: Option<i64>,
    pub available_for_hot: Option<i64>,
    pub post_summary_cold_reserve_target_tokens: Option<i64>,
    pub post_summary_cold_reserve_tokens: Option<i64>,
    pub post_summary_cold_reserve_group_count: Option<usize>,
    pub semantic_transcript_tokens: Option<i64>,
    pub semantic_transcript_item_count: Option<usize>,
    pub semantic_transcript_tool_observation_count: Option<usize>,
    pub raw_cold_tokens: Option<i64>,
    pub semantic_transcript_reduction_tokens: Option<i64>,
    pub retained_cold_message_tokens: Option<i64>,
    pub retained_cold_message_count: Option<usize>,
}

#[derive(Debug)]
pub struct ExactTailCompactionDiagnosticEvent {
    pub thread_id: String,
    pub turn_id: String,
    pub compaction_id: String,
    pub route: ExactTailCompactionRoute,
    pub trigger: ExactTailCompactionTrigger,
    pub fit_result: ExactTailCompactionFitResult,
    pub failure_reason: Option<String>,
    pub numbers: ExactTailReportNumbers,
}

pub struct EventView {
    pub thread_id: Seq<char>,
    pub turn_id: Seq<char>,
    pub compaction_id: Seq<char>,
    pub route: ExactTailCompactionRoute,
    pub trigger: ExactTailCompactionTrigger,
    pub fit_result: ExactTailCompactionFitResult,
    pub failure_reason: Option<Seq<char>>,
    pub numbers: ExactTailReportNumbers,
}

impl View for ExactTailCompactionDiagnosticEvent {
    type V = EventView;

    open spec fn view(&self) -> EventView {
        EventView {
            thread_id: self.thread_id@,
            turn_id: self.turn_id@,
            compaction_id: self.compaction_id@,
            route: self.route,
            trigger: self.trigger,
            fit_result: self.fit_result,
            failure_reason: option_view(self.failure_reason),
            numbers: self.numbers,
        }
    }
}

pub open spec fn route_of(implementation: ExactTailImplementation) -> ExactTailCompactionRoute {
    match implementation {
        ExactTailImplementation::Local => ExactTailCompactionRoute::Local,
        ExactTailImplementation::RemoteLegacy => ExactTailCompactionRoute::RemoteLegacy,
        ExactTailImplementation::RemoteV2 => ExactTailCompactionRoute::RemoteV2,
        ExactTailImplementation::SemanticTranscript => ExactTailCompactionRoute::SemanticTranscript,
    }
}

fn diagnostic_route(implementation: ExactTailImplementation) -> (r: ExactTailCompactionRoute)
    ensures
        r == route_of(implementation),
{
    match implementation {
        ExactTailImplementation::Local => ExactTailCompactionRoute::Local,
        ExactTailImplementation::RemoteLegacy => ExactTailCompactionRoute::RemoteLegacy,
        ExactTailImplementation::RemoteV2 => ExactTailCompactionRoute::RemoteV2,
        ExactTailImplementation::SemanticTranscript => ExactTailCompactionRoute::SemanticTranscript,
    }
}

pub open spec fn trigger_of(trigger: CompactionTrigger) -> ExactTailCompactionTrigger {
    match trigger {
        CompactionTrigger::Manual => ExactTailCompactionTrigger::Manual,
        CompactionTrigger::Auto => ExactTailCompactionTrigger::Auto,
    }
}

fn diagnostic_trigger(trigger: CompactionTrigger) -> (r: ExactTailCompactionTrigger)
    ensures
        r == trigger_of(trigger),
{
    match trigger {
        CompactionTrigger::Manual => ExactTailCompactionTrigger::Manual,
        CompactionTrigger::Auto => ExactTailCompactionTrigger::Auto,
    }
}

pub open spec fn reason_name(reason: Option<ExactTailFailReason>) -> Option<Seq<char>> {
    match reason {
        Some(r) => Some(r.name()),
        None => None,
    }
}

pub open spec fn no_numbers() -> ExactTailReportNumbers {
    ExactTailReportNumbers {
        requested_hot_tokens: None,
        actual_hot_tokens: None,
        hot_group_count: None,
        cold_group_count: None,
        raw_item_count: None,
        group_count: None,
        cold_tokens: None,
        summary_tokens: None,
        replacement_tokens_estimate: None,
        final_replacement_tokens_estimate: None,
        effective_replacement_budget: None,
        safety_margin: None,
        max_model_visible_item_tokens: None,
        normalized_tool_output_count: None,
        largest_hot_item_tokens: None,
        hot_suffix_exact_match: None,
        planned_hot_suffix_item_count: None,
        installed_hot_suffix_item_count: None,
        filtered_stale_group_count: None,
        filtered_context_item_count: None,
        required_current_context_budget: None,
        final_replacement_extra_budget_tokens: None,
        conservative_cold_summary_budget: None,
        conservative_summary_budget_tokens: None,
        estimated_summary_scaffold_overhead_tokens: None,
        retained_cold_user_message_budget_tokens: None,
        replacement_overhead_margin_tokens: None,
        available_for_hot: None,
        post_summary_cold_reserve_target_tokens: None,
        post_summary_cold_reserve_tokens: None,
        post_summary_cold_reserve_group_count: None,
        semantic_transcript_tokens: None,
        semantic_transcript_item_count: None,
        semantic_transcript_tool_observation_count: None,
        raw_cold_tokens: None,
        semantic_transcript_reduction_tokens: None,
        retained_cold_message_tokens: None,
        retained_cold_message_count: None,
    }
}

/// The numbers of a plan. Those of the replacement are taken from it where there is one, else from
/// what the plan knows of the attempt.
pub open spec fn numbers_of(
    d: ExactTailDiagnostics,
    stale_groups: usize,
    replacement: Option<ExactTailReplacementDiagnostics>,
) -> ExactTailReportNumbers {
    ExactTailReportNumbers {
        requested_hot_tokens: Some(d.requested_hot_tokens),
        actual_hot_tokens: Some(d.actual_hot_tokens),
        hot_group_count: Some(d.hot_group_count),
        cold_group_count: Some(d.cold_group_count),
        raw_item_count: Some(d.raw_item_count),
        group_count: Some(d.group_count),
        cold_tokens: Some(d.cold_tokens),
        summary_tokens: match replacement {
            Some(r) => Some(r.actual_summary_tokens),
            None => d.actual_summary_tokens,
        },
        replacement_tokens_estimate: match replacement {
            Some(r) => Some(r.replacement_tokens_estimate),
            None => d.attempted_replacement_tokens_estimate,
        },
        final_replacement_tokens_estimate: match replacement {
            Some(r) => Some(r.final_replacement_tokens_estimate),
            None => d.attempted_final_replacement_tokens_estimate,
        },
        effective_replacement_budget: Some(d.effective_replacement_budget),
        safety_margin: Some(d.safety_margin),
        max_model_visible_item_tokens: Some(d.max_model_visible_item_tokens),
        normalized_tool_output_count: Some(d.normalized_tool_output_count),
        largest_hot_item_tokens: Some(d.largest_hot_item_tokens),
        hot_suffix_exact_match: match replacement {
            Some(r) => Some(r.hot_suffix_exact_match),
            None => None,
        },
        planned_hot_suffix_item_count: match replacement {
            Some(r) => Some(r.planned_hot_suffix_item_count),
            None => None,
        },
        installed_hot_suffix_item_count: match replacement {
            Some(r) => Some(r.installed_hot_suffix_item_count),
            None => None,
        },
        filtered_stale_group_count: Some(stale_groups),
        filtered_context_item_count: Some(d.filtered_context_item_count),
        required_current_context_budget: Some(d.required_current_context_budget),
        final_replacement_extra_budget_tokens: Some(d.final_replacement_extra_budget_tokens),
        conservative_cold_summary_budget: Some(d.conservative_cold_summary_budget),
        conservative_summary_budget_tokens: Some(d.conservative_summary_budget_tokens),
        estimated_summary_scaffold_overhead_tokens: Some(
            d.estimated_summary_scaffold_overhead_tokens,
        ),
        retained_cold_user_message_budget_tokens: Some(d.retained_cold_user_message_budget_tokens),
        replacement_overhead_margin_tokens: Some(d.replacement_overhead_margin_tokens),
        available_for_hot: Some(d.available_for_hot),
        post_summary_cold_reserve_target_tokens: Some(d.post_summary_cold_reserve_target_tokens),
        post_summary_cold_reserve_tokens: Some(d.post_summary_cold_reserve_tokens),
        post_summary_cold_reserve_group_count: Some(d.post_summary_cold_reserve_group_count),
        semantic_transcript_tokens: d.semantic_transcript_tokens,
        semantic_transcript_item_count: d.semantic_transcript_item_count,
        semantic_transcript_tool_observation_count: d.semantic_transcript_tool_observation_count,
        raw_cold_tokens: d.raw_cold_tokens,
        semantic_transcript_reduction_tokens: d.semantic_transcript_reduction_tokens,
        retained_cold_message_tokens: d.retained_cold_message_tokens,
        retained_cold_message_count: d.retained_cold_message_count,
    }
}

/// Which compaction a report is about.
pub struct ExactTailReportIds<'a> {
    pub thread_id: &'a str,
    pub turn_id: &'a str,
    pub compaction_id: &'a str,
}

/// A report without numbers.
pub open spec fn bare_event(
    ids: ExactTailReportIds,
    implementation: ExactTailImplementation,
    trigger: CompactionTrigger,
    fit_result: ExactTailCompactionFitResult,
    failure_reason: Option<ExactTailFailReason>,
) -> EventView {
    EventView {
        thread_id: ids.thread_id@,
        turn_id: ids.turn_id@,
        compaction_id: ids.compaction_id@,
        route: route_of(implementation),
        trigger: trigger_of(trigger),
        fit_result,
        failure_reason: reason_name(failure_reason),
        numbers: no_numbers(),
    }
}

fn exact_tail_diagnostic_event(
    ids: &ExactTailReportIds,
    implementation: ExactTailImplementation,
    trigger: CompactionTrigger,
    fit_result: ExactTailCompactionFitResult,
    failure_reason: Option<ExactTailFailReason>,
) -> (event: ExactTailCompactionDiagnosticEvent)
    ensures
        event@ == bare_event(*ids, implementation, trigger, fit_result, failure_reason),
{
    ExactTailCompactionDiagnosticEvent {
        thread_id: ids.thread_id.to_owned(),
        turn_id: ids.turn_id.to_owned(),
        compaction_id: ids.compaction_id.to_owned(),
        route: diagnostic_route(implementation),
        trigger: diagnostic_trigger(trigger),
        fit_result,
        failure_reason: match failure_reason {
            Some(reason) => Some(String::from_str(reason.as_str())),
            None => None,
        },
        numbers: ExactTailReportNumbers {
            requested_hot_tokens: None,
            actual_hot_tokens: None,
            hot_group_count: None,
            cold_group_count: None,
            raw_item_count: None,
            group_count: None,
            cold_tokens: None,
            summary_tokens: None,
            replacement_tokens_estimate: None,
            final_replacement_tokens_estimate: None,
            effective_replacement_budget: None,
            safety_margin: None,
            max_model_visible_item_tokens: None,
            normalized_tool_output_count: None,
            largest_hot_item_tokens: None,
            hot_suffix_exact_match: None,
            planned_hot_suffix_item_count: None,
            installed_hot_suffix_item_count: None,
            filtered_stale_group_count: None,
            filtered_context_item_count: None,
            required_current_context_budget: None,
            final_replacement_extra_budget_tokens: None,
            conservative_cold_summary_budget: None,
            conservative_summary_budget_tokens: None,
            estimated_summary_scaffold_overhead_tokens: None,
            retained_cold_user_message_budget_tokens: None,
            replacement_overhead_margin_tokens: None,
            available_for_hot: None,
            post_summary_cold_reserve_target_tokens: None,
            post_summary_cold_reserve_tokens: None,
            post_summary_cold_reserve_group_count: None,
            semantic_transcript_tokens: None,
            semantic_transcript_item_count: None,
            semantic_transcript_tool_observation_count: None,
            raw_cold_tokens: None,
            semantic_transcript_reduction_tokens: None,
            retained_cold_message_tokens: None,
            retained_cold_message_count: None,
        },
    }
}

/// The report on an attempt that had a plan: a success exactly where no reason is given.
pub fn exact_tail_compaction_diagnostic(
    ids: &ExactTailReportIds,
    trigger: CompactionTrigger,
    plan: &ExactTailPlan,
    replacement: Option<ExactTailReplacementDiagnostics>,
    failure_reason: Option<ExactTailFailReason>,
) -> (event: ExactTailCompactionDiagnosticEvent)
    ensures
        event@ == (EventView {
            numbers: numbers_of(
                plan.diagnostics,
                plan@.coverage.filtered_stale_groups.len() as usize,
                replacement,
            ),
            ..bare_event(
                *ids,
                plan.diagnostics.implementation,
                trigger,
                if failure_reason is Some {
                    ExactTailCompactionFitResult::Failure
                } else {
                    ExactTailCompactionFitResult::Success
                },
                failure_reason,
            )
        }),
{
    let d = plan.diagnostics;
    let fit_result = match failure_reason {
        Some(_) => ExactTailCompactionFitResult::Failure,
        None => ExactTailCompactionFitResult::Success,
    };
    let mut event = exact_tail_diagnostic_event(
        ids,
        d.implementation,
        trigger,
        fit_result,
        failure_reason,
    );
    event.numbers =
    ExactTailReportNumbers {
        requested_hot_tokens: Some(d.requested_hot_tokens),
        actual_hot_tokens: Some(d.actual_hot_tokens),
        hot_group_count: Some(d.hot_group_count),
        cold_group_count: Some(d.cold_group_count),
        raw_item_count: Some(d.raw_item_count),
        group_count: Some(d.group_count),
        cold_tokens: Some(d.cold_tokens),
        summary_tokens: match replacement {
            Some(r) => Some(r.actual_summary_tokens),
            None => d.actual_summary_tokens,
        },
        replacement_tokens_estimate: match replacement {
            Some(r) => Some(r.replacement_tokens_estimate),
            None => d.attempted_replacement_tokens_estimate,
        },
        final_replacement_tokens_estimate: match replacement {
            Some(r) => Some(r.final_replacement_tokens_estimate),
            None => d.attempted_final_replacement_tokens_estimate,
        },
        effective_replacement_budget: Some(d.effective_replacement_budget),
        safety_margin: Some(d.safety_margin),
        max_model_visible_item_tokens: Some(d.max_model_visible_item_tokens),
        normalized_tool_output_count: Some(d.normalized_tool_output_count),
        largest_hot_item_tokens: Some(d.largest_hot_item_tokens),
        hot_suffix_exact_match: match replacement {
            Some(r) => Some(r.hot_suffix_exact_match),
            None => None,
        },
        planned_hot_suffix_item_count: match replacement {
            Some(r) => Some(r.planned_hot_suffix_item_count),
            None => None,
        },
        installed_hot_suffix_item_count: match replacement {
            Some(r) => Some(r.installed_hot_suffix_item_count),
            None => None,
        },
        filtered_stale_group_count: Some(plan.coverage.filtered_stale_groups.len()),
        filtered_context_item_count: Some(d.filtered_context_item_count),
        required_current_context_budget: Some(d.required_current_context_budget),
        final_replacement_extra_budget_tokens: Some(d.final_replacement_extra_budget_tokens),
        conservative_cold_summary_budget: Some(d.conservative_cold_summary_budget),
        conservative_summary_budget_tokens: Some(d.conservative_summary_budget_tokens),
        estimated_summary_scaffold_overhead_tokens: Some(
            d.estimated_summary_scaffold_overhead_tokens,
        ),
        retained_cold_user_message_budget_tokens: Some(d.retained_cold_user_message_budget_tokens),
        replacement_overhead_margin_tokens: Some(d.replacement_overhead_margin_tokens),
        available_for_hot: Some(d.available_for_hot),
        post_summary_cold_reserve_target_tokens: Some(d.post_summary_cold_reserve_target_tokens),
        post_summary_cold_reserve_tokens: Some(d.post_summary_cold_reserve_tokens),
        post_summary_cold_reserve_group_count: Some(d.post_summary_cold_reserve_group_count),
        semantic_transcript_tokens: d.semantic_transcript_tokens,
        semantic_transcript_item_count: d.semantic_transcript_item_count,
        semantic_transcript_tool_observation_count: d.semantic_transcript_tool_observation_count,
        raw_cold_tokens: d.raw_cold_tokens,
        semantic_transcript_reduction_tokens: d.semantic_transcript_reduction_tokens,
        retained_cold_message_tokens: d.retained_cold_message_tokens,
        retained_cold_message_count: d.retained_cold_message_count,
    };
    event
}

/// The report on an attempt that did not come to a plan.
pub fn exact_tail_prepare_failure_diagnostic(
    ids: &ExactTailReportIds,
    trigger: CompactionTrigger,
    implementation: ExactTailImplementation,
    failure_reason: ExactTailFailReason,
) -> (event: ExactTailCompactionDiagnosticEvent)
    ensures
        event@ == bare_event(
            *ids,
            implementation,
            trigger,
            ExactTailCompactionFitResult::Failure,
            Some(failure_reason),
        ),
{
    exact_tail_diagnostic_event(
        ids,
        implementation,
        trigger,
        ExactTailCompactionFitResult::Failure,
        Some(failure_reason),
    )
}

} // verus!
