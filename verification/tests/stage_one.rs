use codex_core::item::{ContentItem, ItemBody, ResponseItem};
use codex_core::scratchpad::{
    build_scratchpad_rollout_summary, parse_lot_field, parse_scratchpad_document,
    parse_scratchpad_entry, scratchpad_rollout_slug, scratchpad_title_from_path,
    split_scratchpad_entry_text_and_refs, truncate_for_summary,
};
use codex_core::scratchpad_memory::build_scratchpad_raw_memory;
use codex_core::stage_one::{
    aggregate_stats, discover_scratchpad_candidates, find_repo_root_with_scratchpad, has_output,
    has_scratchpad_stage_one_source, job_outcome, output_schema, scratchpad_output_at,
    scratchpad_stage_one_output, scratchpad_thread, stage_one_metrics, update_window, FileTime,
    JobOutcome, JobResult, MemoriesStageOneSource, ScratchpadError, ScratchpadFile,
    StageOneAnswer, StageOneMetric, StageOneOutput,
};
use codex_core::stream::{ResponseEvent, TokenUsage};
use codex_core::words::{lines_of, normalize_inline_text, rsplit_once, split_once, words_of};

#[test]
fn count_outcomes_sums_token_usage_across_all_jobs() {
    let counts = aggregate_stats(vec![
        JobResult {
            outcome: JobOutcome::SucceededWithOutput,
            token_usage: Some(TokenUsage {
                input_tokens: 10,
                cached_input_tokens: 2,
                output_tokens: 3,
                reasoning_output_tokens: 1,
                total_tokens: 13,
            }),
        },
        JobResult {
            outcome: JobOutcome::SucceededNoOutput,
            token_usage: Some(TokenUsage {
                input_tokens: 7,
                cached_input_tokens: 1,
                output_tokens: 2,
                reasoning_output_tokens: 0,
                total_tokens: 9,
            }),
        },
        JobResult {
            outcome: JobOutcome::Failed,
            token_usage: None,
        },
    ]);

    assert_eq!(counts.claimed, 3);
    assert_eq!(counts.succeeded_with_output, 1);
    assert_eq!(counts.succeeded_no_output, 1);
    assert_eq!(counts.failed, 1);
    assert_eq!(
        counts.total_token_usage,
        Some(TokenUsage {
            input_tokens: 17,
            cached_input_tokens: 3,
            output_tokens: 5,
            reasoning_output_tokens: 1,
            total_tokens: 22,
        })
    );
}

#[test]
fn count_outcomes_keeps_usage_empty_when_no_job_reports_it() {
    let counts = aggregate_stats(vec![
        JobResult {
            outcome: JobOutcome::SucceededWithOutput,
            token_usage: None,
        },
        JobResult {
            outcome: JobOutcome::Failed,
            token_usage: None,
        },
    ]);

    assert_eq!(counts.claimed, 2);
    assert_eq!(counts.total_token_usage, None);
}

#[test]
fn parse_scratchpad_document_extracts_metadata_and_entries() {
    let contents = "# Codex Scratchpad
 task: memory-sweep
 session_id: 019ca40f-d497-7783-9629-31903cea584e
 created_at: 2026-02-28T12:03:50Z
 format: - CSP#<id> <KIND> #tags :: text (refs: ...)
 - CSP#260228-120648Z-930b LOT #scratchpad #phase1 :: goal=Find issue | conc=Working parser | next=Add tests (refs: src/a.rs:10, src/b.rs:20)
 - CSP#260228-121006Z-c6ec FIX #memory :: Implemented branch
";

    let document = parse_scratchpad_document(contents).expect("scratchpad should parse");

    assert_eq!(document.task.as_deref(), Some("memory-sweep"));
    assert_eq!(
        document.session_id.as_deref(),
        Some("019ca40f-d497-7783-9629-31903cea584e")
    );
    assert_eq!(document.created_at.as_deref(), Some("2026-02-28T12:03:50Z"));
    assert_eq!(document.entries.len(), 2);
    assert_eq!(document.entries[0].id, "CSP#260228-120648Z-930b");
    assert_eq!(document.entries[0].kind, "LOT");
    assert_eq!(
        document.entries[0].tags,
        vec!["scratchpad".to_string(), "phase1".to_string()]
    );
    assert_eq!(
        document.entries[0].refs,
        vec!["src/a.rs:10".to_string(), "src/b.rs:20".to_string()]
    );
    assert_eq!(document.entries[1].kind, "FIX");
}

#[test]
fn build_scratchpad_rollout_summary_uses_lot_conclusion_and_next() {
    let contents = "# Codex Scratchpad
 task: memory-sweep
 - CSP#260228-120648Z-930b LOT #scratchpad :: goal=Find issue | conc=Confirmed scratchpad branch | next=Run regression tests
";
    let document = parse_scratchpad_document(contents).expect("scratchpad should parse");

    let summary = build_scratchpad_rollout_summary(&document, "fallback-title");

    assert_eq!(
        summary,
        "Scratchpad `memory-sweep` validated: Confirmed scratchpad branch; next: Run regression tests"
    );
}

const TWO_ENTRIES: &str = "# Codex Scratchpad
 task: memory-sweep
 - CSP#1 LOT #alpha :: goal=One | conc=Done first | next=Two (refs: src/lib.rs:10)
 - CSP#2 FIX #alpha #beta :: Applied fix (refs: src/lib.rs:22)
";

#[test]
fn scratchpad_stage_one_output_contains_graph_breadcrumbs() {
    let output = scratchpad_stage_one_output(
        TWO_ENTRIES,
        "/tmp/csp__memory-sweep.md",
        Some("csp__memory-sweep.md"),
        FileTime { secs: 1_701_000_000, nanos: 0 },
    )
    .expect("stage-one output");

    assert_eq!(
        output.rollout_summary,
        "Scratchpad `memory-sweep` latest FIX: Applied fix"
    );
    assert_eq!(
        output.rollout_slug.as_deref(),
        Some("scratchpad-memory-sweep")
    );
    assert!(output.raw_memory.contains("## Breadcrumb Graph"));
    assert!(output.raw_memory.contains("CSP#1 -> CSP#2 (follows)"));
    assert!(output.raw_memory.contains("CSP#2 -> tag:beta (topic)"));
    assert!(
        output
            .raw_memory
            .contains("CSP#2 -> ref:src/lib.rs:22 (touches)")
    );
    assert!(output
        .raw_memory
        .contains("source_updated_at: 2023-11-26T12:00:00+00:00\n"));
}

#[test]
fn raw_memory_is_written_line_by_line() {
    let document = parse_scratchpad_document(TWO_ENTRIES).expect("scratchpad should parse");
    let memory = build_scratchpad_raw_memory(&document, "/pads/a.md", "NOW", "a");
    assert_eq!(
        memory,
        "---\nsource: scratchpad\ntask: memory-sweep\nscratchpad_path: /pads/a.md\n\
         source_updated_at: NOW\nentry_count: 2\n---\n\n## Scratchpad Trail\n\
         - CSP#1 LOT #alpha :: goal=One | conc=Done first | next=Two\n  refs: src/lib.rs:10\n\
         - CSP#2 FIX #alpha #beta :: Applied fix\n  refs: src/lib.rs:22\n\n\
         ## Breadcrumb Graph\nNodes:\n\
         - node=CSP#1 kind=LOT tags=[alpha] refs=[src/lib.rs:10]\n\
         - node=CSP#2 kind=FIX tags=[alpha,beta] refs=[src/lib.rs:22]\nEdges:\n\
         - CSP#1 -> CSP#2 (follows)\n- CSP#1 -> ref:src/lib.rs:10 (touches)\n\
         - CSP#1 -> tag:alpha (topic)\n- CSP#2 -> ref:src/lib.rs:22 (touches)\n\
         - CSP#2 -> tag:alpha (topic)\n- CSP#2 -> tag:beta (topic)\n"
    );
}

#[test]
fn raw_memory_of_an_empty_scratchpad() {
    let document = parse_scratchpad_document(
        "# Codex Scratchpad\nsession_id: s\ncreated_at: c\nstray line\nother: value\ntask:  \n",
    )
    .expect("scratchpad should parse");
    assert_eq!(document.task, None);
    let memory = build_scratchpad_raw_memory(&document, "p", "t", "fallback");
    assert_eq!(
        memory,
        "---\nsource: scratchpad\ntask: fallback\nsession_id: s\ncreated_at: c\n\
         scratchpad_path: p\nsource_updated_at: t\nentry_count: 0\n---\n\n\
         ## Scratchpad Trail\n- No CSP entries found.\n\n## Breadcrumb Graph\nNodes:\n- none\n\
         Edges:\n- none\n"
    );
    assert_eq!(
        build_scratchpad_rollout_summary(&document, "fallback"),
        "Scratchpad `fallback`: no CSP entries recorded yet."
    );
    assert_eq!(
        scratchpad_rollout_slug(&document, "fallback").as_deref(),
        Some("scratchpad-fallback")
    );
    assert_eq!(scratchpad_rollout_slug(&document, "  "), None);
}

#[test]
fn raw_memory_keeps_the_newest_entries_and_limits_the_edges() {
    let mut contents = String::from("# Codex Scratchpad\n");
    for index in 0..130 {
        contents.push_str(&format!(
            "- CSP#{index:03} NOTE #a{index} #b{index} #c{index} #d{index} #e{index} :: entry {index}\n"
        ));
    }
    let document = parse_scratchpad_document(&contents).expect("scratchpad should parse");
    assert_eq!(document.entries.len(), 130);
    let memory = build_scratchpad_raw_memory(&document, "p", "t", "f");
    assert!(memory.contains("entry_count: 130\n"));
    assert!(!memory.contains("node=CSP#009 "));
    assert!(memory.contains("node=CSP#010 "));
    // 119 edges between entries and five tags for each of 120 entries.
    let edges = memory.split("Edges:\n").nth(1).expect("edges");
    assert_eq!(edges.lines().count(), 601);
    assert!(edges.ends_with("- ...\n"));
    let shown: Vec<&str> = edges.lines().take(600).collect();
    assert!(shown.windows(2).all(|pair| pair[0] < pair[1]));
}

#[test]
fn scratchpad_errors_name_the_file() {
    let time = FileTime { secs: 0, nanos: 0 };
    let format = scratchpad_stage_one_output("not a scratchpad", "x.md", Some("x.md"), time)
        .expect_err("the header is missing");
    assert_eq!(format, ScratchpadError::Format);
    assert_eq!(
        format.message("x.md"),
        "scratchpad file does not match expected format: x.md"
    );
    let far = FileTime { secs: i64::MAX, nanos: 0 };
    let late = scratchpad_stage_one_output("# Codex Scratchpad\n", "x.md", Some("x.md"), far)
        .expect_err("there is no such date");
    assert_eq!(late, ScratchpadError::Time);
    assert_eq!(late.message("x.md"), "scratchpad file time is out of range: x.md");
    assert_eq!(
        scratchpad_stage_one_output("nothing", "x.md", Some("x.md"), far).err(),
        Some(ScratchpadError::Format)
    );
    let at = scratchpad_output_at("# Codex Scratchpad\n", "x.md", Some("x.md"), "then")
        .expect("an empty scratchpad is one");
    assert_eq!(at.rollout_slug.as_deref(), Some("scratchpad-x"));
    assert!(at.raw_memory.contains("source_updated_at: then\n"));
}

#[test]
fn times_are_written_in_utc() {
    for (secs, nanos, text) in [
        (0, 0, "1970-01-01T00:00:00+00:00"),
        (951_827_696, 789_000_000, "2000-02-29T12:34:56.789+00:00"),
    ] {
        let output = scratchpad_stage_one_output(
            "# Codex Scratchpad\n",
            "p",
            None,
            FileTime { secs, nanos },
        )
        .expect("stage-one output");
        assert!(
            output.raw_memory.contains(&format!("source_updated_at: {text}\n")),
            "{}",
            output.raw_memory
        );
    }
}

#[test]
fn threads_are_named_after_their_files() {
    let thread = scratchpad_thread("/repo/scratch/codex/pads/plan.md", Some("plan.md"));
    assert_eq!(
        thread.id,
        uuid::Uuid::new_v5(
            &uuid::Uuid::NAMESPACE_URL,
            b"/repo/scratch/codex/pads/plan.md"
        )
        .to_string()
    );
    assert_eq!(thread.id.len(), 36);
    assert_eq!(thread.source, "scratchpad");
    assert_eq!(thread.title, "plan");
    assert_eq!(thread.first_user_message, "scratchpad: plan");
    let other = scratchpad_thread("/repo/scratch/codex/pads/other.md", Some("other.md"));
    assert!(other.id != thread.id);
}

#[test]
fn titles_come_from_file_names() {
    assert_eq!(scratchpad_title_from_path(Some("a.b.md")), "a.b");
    assert_eq!(scratchpad_title_from_path(Some(".hidden")), ".hidden");
    assert_eq!(scratchpad_title_from_path(Some("plain")), "plain");
    assert_eq!(scratchpad_title_from_path(Some("")), "scratchpad");
    assert_eq!(scratchpad_title_from_path(None), "scratchpad");
}

#[test]
fn entries_need_their_form() {
    assert!(parse_scratchpad_entry("CSP#1 FIX :: text").is_none());
    assert!(parse_scratchpad_entry("- CSP#1 FIX text").is_none());
    assert!(parse_scratchpad_entry("- FIX CSP#1 :: text").is_none());
    assert!(parse_scratchpad_entry("- CSP#1 :: text").is_none());
    assert!(parse_scratchpad_entry("- CSP#1 FIX ::  ").is_none());
    let entry = parse_scratchpad_entry("- CSP#1 FIX # tag #real ::  a   b ").expect("an entry");
    assert_eq!(entry.tags, vec!["real".to_string()]);
    assert_eq!(entry.text, "a b");
    assert!(entry.refs.is_empty());
    let (text, refs) = split_scratchpad_entry_text_and_refs("x (refs: a) y (refs: b,, c )");
    assert_eq!(text, "x (refs: a) y");
    assert_eq!(refs, vec!["b".to_string(), "c".to_string()]);
    let (text, refs) = split_scratchpad_entry_text_and_refs("x (refs: a");
    assert_eq!(text, "x (refs: a");
    assert!(refs.is_empty());
}

#[test]
fn lot_fields_are_found_by_name() {
    let text = "goal=One | CONC = Done  first | conc=again | next=";
    assert_eq!(parse_lot_field(text, "conc").as_deref(), Some("Done first"));
    assert_eq!(parse_lot_field(text, "next"), None);
    assert_eq!(parse_lot_field(text, "other"), None);
    let long = "word ".repeat(60);
    let short = truncate_for_summary(&long, 220);
    assert_eq!(short.chars().count(), 223);
    assert!(short.ends_with("..."));
    assert_eq!(truncate_for_summary(" a  b ", 3), "a b");
    let document = parse_scratchpad_document(
        "# Codex Scratchpad\n- CSP#1 lot :: nothing to tell\n- CSP#2 Lot :: next=Go on\n",
    )
    .expect("scratchpad should parse");
    assert_eq!(
        build_scratchpad_rollout_summary(&document, "t"),
        "Scratchpad `t`; next: Go on"
    );
}

#[test]
fn words_and_lines_are_cut_as_in_a_text() {
    assert_eq!(words_of("  a\tb\u{3000}c \n"), vec!["a", "b", "c"]);
    assert_eq!(lines_of("a\r\nb\n\nc\r"), vec!["a", "b", "", "c\r"]);
    assert_eq!(lines_of(""), Vec::<String>::new());
    assert_eq!(lines_of("a\n"), vec!["a"]);
    assert_eq!(split_once("a=b=c", "="), Some(("a".to_string(), "b=c".to_string())));
    assert_eq!(rsplit_once("a=b=c", "="), Some(("a=b".to_string(), "c".to_string())));
    assert_eq!(split_once("abc", "="), None);
    assert_eq!(rsplit_once("", "="), None);
    let text = " a \n b  c ";
    let once = normalize_inline_text(text);
    assert_eq!(once, "a b c");
    assert_eq!(normalize_inline_text(&once), once);
    assert_eq!(words_of(&once), words_of(text));
}

fn file(path: &str, secs: i64, nanos: u32) -> ScratchpadFile {
    ScratchpadFile {
        path: path.to_string(),
        is_file: true,
        extension: Some("md".to_string()),
        updated_at: Some(FileTime { secs, nanos }),
        contents: Some("# Codex Scratchpad\n".to_string()),
    }
}

#[test]
fn newest_scratchpads_come_first() {
    let window = update_window(1_000_000, 1, 2);
    assert_eq!(window.min_updated_at, 1_000_000 - 86_400);
    assert_eq!(window.max_updated_at, 1_000_000 - 7_200);
    let mut directory = file("/r/pads/dir.md", 950_000, 0);
    directory.is_file = false;
    let mut text = file("/r/pads/notes.txt", 950_000, 0);
    text.extension = Some("txt".to_string());
    let mut unread = file("/r/pads/unread.md", 950_000, 0);
    unread.contents = None;
    let mut other = file("/r/pads/other.md", 950_000, 0);
    other.contents = Some("no scratchpad".to_string());
    let found = discover_scratchpad_candidates(
        vec![
            directory,
            text,
            unread,
            other,
            file("/r/pads/old.md", 1_000_000 - 86_401, 0),
            file("/r/pads/busy.md", 1_000_000 - 7_199, 0),
            file("/r/pads/b.md", 940_000, 5),
            file("/r/pads/a.md", 940_000, 5),
            file("/r/pads/c.md", 940_000, 6),
            file("/r/pads/d.md", 1_000_000 - 86_400, 0),
        ],
        window,
        3,
    );
    let paths: Vec<&str> = found.iter().map(|c| c.path.as_str()).collect();
    assert_eq!(paths, vec!["/r/pads/c.md", "/r/pads/a.md", "/r/pads/b.md"]);
}

#[test]
fn windows_do_not_overflow() {
    let window = update_window(i64::MIN, i64::MAX, i64::MAX);
    assert_eq!(window.min_updated_at, i64::MIN);
    assert_eq!(window.max_updated_at, i64::MIN);
}

#[test]
fn sources_and_roots() {
    assert!(!has_scratchpad_stage_one_source(&vec![MemoriesStageOneSource::Session(
        "cli".to_string()
    )]));
    assert!(has_scratchpad_stage_one_source(&vec![
        MemoriesStageOneSource::Session("cli".to_string()),
        MemoriesStageOneSource::Scratchpad,
    ]));
    assert_eq!(MemoriesStageOneSource::Scratchpad.as_db_source_str(), "scratchpad");
    assert_eq!(
        MemoriesStageOneSource::Session("cli".to_string()).as_db_source_str(),
        "cli"
    );
    assert_eq!(find_repo_root_with_scratchpad(&vec![false, true, true]), Some(1));
    assert_eq!(find_repo_root_with_scratchpad(&vec![false]), None);
}

#[test]
fn schema_is_json() {
    let schema: serde_json::Value =
        serde_json::from_str(&output_schema()).expect("the schema is JSON");
    assert_eq!(schema["type"], "object");
    assert_eq!(schema["additionalProperties"], false);
    assert_eq!(schema["required"][1], "rollout_slug");
    assert_eq!(schema["properties"]["rollout_slug"]["type"][1], "null");
    assert_eq!(schema["properties"]["raw_memory"]["type"], "string");
}

#[test]
fn answers_prefer_text_in_pieces() {
    let message = ResponseItem::new(ItemBody::Message {
        role: "assistant".to_string(),
        content: vec![ContentItem::OutputText { text: "whole".to_string() }],
        phase: None,
    });
    let mut answer = StageOneAnswer::new();
    assert!(!answer.take(ResponseEvent::OutputTextDelta("pie".to_string())));
    assert!(!answer.take(ResponseEvent::OutputTextDelta("ces".to_string())));
    assert!(!answer.take(ResponseEvent::OutputItemDone(message.clone())));
    assert!(answer.take(ResponseEvent::Completed { token_usage: None }));
    assert!(answer.take(ResponseEvent::OutputTextDelta("late".to_string())));
    assert_eq!(answer.text, "pieces");

    let mut whole = StageOneAnswer::new();
    whole.take(ResponseEvent::OutputItemDone(message));
    assert_eq!(whole.text, "whole");
}

#[test]
fn jobs_come_to_an_outcome() {
    let output = |raw: &str, summary: &str| StageOneOutput {
        raw_memory: raw.to_string(),
        rollout_summary: summary.to_string(),
        rollout_slug: None,
    };
    assert!(has_output(&output("m", "s")));
    assert!(!has_output(&output("", "s")));
    assert!(!has_output(&output("m", "")));
    assert_eq!(job_outcome(true, true), JobOutcome::SucceededWithOutput);
    assert_eq!(job_outcome(false, true), JobOutcome::SucceededNoOutput);
    assert_eq!(job_outcome(true, false), JobOutcome::Failed);

    let counts = aggregate_stats(vec![JobResult {
        outcome: JobOutcome::SucceededWithOutput,
        token_usage: Some(TokenUsage {
            input_tokens: -1,
            cached_input_tokens: 2,
            output_tokens: 3,
            reasoning_output_tokens: 4,
            total_tokens: 5,
        }),
    }]);
    assert_eq!(
        stage_one_metrics(&counts),
        vec![
            StageOneMetric::JobsClaimed(1),
            StageOneMetric::JobsSucceeded(1),
            StageOneMetric::Outputs(1),
            StageOneMetric::TotalTokens(5),
            StageOneMetric::InputTokens(0),
            StageOneMetric::CachedInputTokens(2),
            StageOneMetric::OutputTokens(3),
            StageOneMetric::ReasoningOutputTokens(4),
        ]
    );
}

#[test]
fn written_entries_are_read_back() {
    let entry = parse_scratchpad_entry(
        "- CSP#7 FIX #one #two :: some text :: more (refs: src/a.rs:1, src/b c.rs)",
    )
    .expect("an entry");
    assert_eq!(entry.id, "CSP#7");
    assert_eq!(entry.kind, "FIX");
    assert_eq!(entry.tags, vec!["one".to_string(), "two".to_string()]);
    assert_eq!(entry.text, "some text :: more");
    assert_eq!(
        entry.refs,
        vec!["src/a.rs:1".to_string(), "src/b c.rs".to_string()]
    );
}
