//! Context planning for a long-running agent session: what stays verbatim, what is summarised
//! and what a model request may hold.

pub mod answer_laws;
pub mod boundary;
pub mod compact;
pub mod compact_laws;
pub mod entry_laws;
pub mod exact_tail;
pub mod exact_tail_diagnostics;
pub mod exact_tail_groups;
pub mod exact_tail_laws;
pub mod exact_tail_plan;
pub mod exact_tail_plan_laws;
pub mod exact_tail_replacement;
pub mod exact_tail_replacement_laws;
pub mod fragments;
pub mod item;
pub mod json;
pub mod limit_laws;
pub mod marker_laws;
pub mod marker_model;
pub mod memory_laws;
pub mod projection_basis;
pub mod retention;
pub mod retention_laws;
pub mod rolling;
pub mod rolling_body_laws;
pub mod rolling_context_filter;
pub mod rolling_cut_laws;
pub mod rolling_group_laws;
pub mod rolling_groups;
pub mod rolling_pairwise;
pub mod rolling_projection;
pub mod rolling_projection_laws;
pub mod rolling_prompt;
pub mod rolling_prompt_laws;
pub mod rolling_request_laws;
pub mod rolling_result_laws;
pub mod rolling_split_laws;
pub mod rolling_state;
pub mod rolling_state_laws;
pub mod route;
pub mod scratchpad;
pub mod scratchpad_laws;
pub mod scratchpad_memory;
pub mod session_model;
pub mod stage_one;
pub mod stream;
pub mod stream_laws;
pub mod summary_choice_laws;
pub mod summary_tree;
pub mod summary_tree_laws;
pub mod task;
pub mod task_laws;
pub mod task_local;
pub mod task_remote;
pub mod task_transcript;
pub mod text;
pub mod text_laws;
pub mod tokens;
pub mod transcript;
pub mod transcript_laws;
pub mod transcript_text_laws;
pub mod words;
