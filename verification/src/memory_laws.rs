//! What a memory says, and which scratchpads one is drawn from.

use crate::scratchpad::{
    document_of, empty_document, entry_of, field_in, field_value, read_line, read_lines,
    rollout_summary, slug_of, title_from_name, title_of, DocumentView, EntryView,
};
use crate::scratchpad_memory::{
    all_entry_edges, before, edges_of, entry_edges, follows_edge, follows_edges, header_lines,
    law_edges_are_an_ordered_set, lines_text, memory_lines, newest, node_lines, ordered,
    trail_entry, trail_lines,
};
use crate::stage_one::{
    arranged, candidate_of, candidates_of, first_true, law_candidates_are_newest_first, metrics_of,
    outcome_count, total_usage, window_at, CandidateView, JobOutcome, JobResult, ScratchpadFile,
    StageOneMetric, Stats, UpdateWindow,
};
use crate::stream::TokenUsage;
use crate::text::{
    blank, decimal, has_prefix, joined, occurs_at, same_ignoring_case, trimmed,
};
use crate::words::{
    cut_last, cut_once, first_from, last_before, lemma_some_piece, lines, one_line, pieces, Cut,
};
use crate::item::option_view;
use vstd::prelude::*;
use vstd::string::*;

verus! {

// -- cutting texts ----------------------------------------------------------------------------

proof fn lemma_first_from(s: Seq<char>, part: Seq<char>, from: int)
    requires
        0 <= from,
    ensures
        match first_from(s, part, from) {
            Some(at) => from <= at && occurs_at(s, part, at) && forall|k: int|
                from <= k < at ==> !#[trigger] occurs_at(s, part, k),
            None => forall|k: int| from <= k ==> !#[trigger] occurs_at(s, part, k),
        },
    decreases s.len() + 1 - from,
{
    if from + part.len() <= s.len() && !occurs_at(s, part, from) {
        lemma_first_from(s, part, from + 1);
    }
}

proof fn lemma_last_before(s: Seq<char>, part: Seq<char>, end: int)
    ensures
        match last_before(s, part, end) {
            Some(at) => at < end && occurs_at(s, part, at) && forall|k: int|
                at < k < end ==> !#[trigger] occurs_at(s, part, k),
            None => forall|k: int| k < end ==> !#[trigger] occurs_at(s, part, k),
        },
    decreases end,
{
    if end > 0 && !occurs_at(s, part, end - 1) {
        lemma_last_before(s, part, end - 1);
    }
}

/// A cut takes the part out and leaves what stands before and behind it: at the first place where
/// the part stands, or at the last. There is none only where the part does not stand in the text.
pub proof fn law_cut_leaves_both_sides(s: Seq<char>, part: Seq<char>)
    ensures
        match cut_once(s, part) {
            Some((a, b)) => {
                &&& s == a + part + b
                &&& forall|k: int| k < a.len() ==> !#[trigger] occurs_at(s, part, k)
            },
            None => forall|k: int| !#[trigger] occurs_at(s, part, k),
        },
        match cut_last(s, part) {
            Some((a, b)) => {
                &&& s == a + part + b
                &&& forall|k: int| a.len() < k ==> !#[trigger] occurs_at(s, part, k)
            },
            None => forall|k: int| !#[trigger] occurs_at(s, part, k),
        },
{
    lemma_first_from(s, part, 0);
    lemma_last_before(s, part, s.len() as int + 1);
    if let Some((a, b)) = cut_once(s, part) {
        let at = first_from(s, part, 0)->Some_0;
        assert(s.subrange(at, at + part.len()) == part);
        assert(s =~= a + part + b);
    }
    if let Some((a, b)) = cut_last(s, part) {
        let at = last_before(s, part, s.len() as int + 1)->Some_0;
        assert(s.subrange(at, at + part.len()) == part);
        assert(s =~= a + part + b);
    }
}

/// The pieces of a text, put together again with the character between them, are the text, and
/// none of them holds the character.
pub proof fn law_pieces_make_up_the_text(s: Seq<char>, c: char)
    ensures
        joined(pieces(s, Cut::At(c)), seq![c]) == s,
        forall|k: int|
            0 <= k < pieces(s, Cut::At(c)).len() ==> !(#[trigger] pieces(s, Cut::At(c))[k]).contains(
                c,
            ),
    decreases s.len(),
{
    let all = pieces(s, Cut::At(c));
    if s.len() == 0 {
        assert(joined(all, seq![c]) =~= s);
    } else {
        let before = pieces(s.drop_last(), Cut::At(c));
        lemma_some_piece(s.drop_last(), Cut::At(c));
        law_pieces_make_up_the_text(s.drop_last(), c);
        assert(s.drop_last().push(s.last()) =~= s);
        if s.last() == c {
            assert(all.drop_last() =~= before);
            assert(joined(all, seq![c]) =~= s.drop_last() + seq![c]);
            assert forall|k: int| 0 <= k < all.len() implies !(#[trigger] all[k]).contains(c) by {
                if k < before.len() {
                    assert(all[k] == before[k]);
                }
            }
        } else {
            let grown = before.last().push(s.last());
            assert(all.drop_last() =~= before.drop_last());
            if before.len() == 1 {
                assert(joined(before, seq![c]) == before[0]);
                assert(joined(all, seq![c]) =~= s);
            } else {
                assert(joined(all, seq![c]) =~= joined(before, seq![c]).push(s.last()));
            }
            assert forall|k: int| 0 <= k < all.len() implies !(#[trigger] all[k]).contains(c) by {
                if k < before.len() - 1 {
                    assert(all[k] == before[k]);
                } else {
                    assert(!before[before.len() - 1].contains(c));
                    if grown.contains(c) {
                        let i = choose|i: int| 0 <= i < grown.len() && grown[i] == c;
                        if i < before.last().len() {
                            assert(before.last()[i] == c);
                        }
                    }
                }
            }
        }
    }
}

/// The lines of a text are its pieces between line feeds, each but the last without a carriage
/// return at its end; an empty last piece is no line.
pub proof fn law_lines_are_the_pieces_between_line_feeds(s: Seq<char>, k: int)
    requires
        0 <= k < pieces(s, Cut::At('\n')).len(),
    ensures
        ({
            let parts = pieces(s, Cut::At('\n'));
            let last = parts.len() - 1;
            &&& lines(s).len() == if parts[last].len() == 0 {
                last
            } else {
                last + 1
            }
            &&& k < last && parts[k].len() > 0 && parts[k].last() == '\r' ==> lines(s)[k]
                == parts[k].drop_last()
            &&& k < last && (parts[k].len() == 0 || parts[k].last() != '\r') ==> lines(s)[k]
                == parts[k]
            &&& k == last && parts[k].len() > 0 ==> lines(s)[k] == parts[k]
        }),
{
}

// -- reading a scratchpad ---------------------------------------------------------------------

/// Only what begins with its header is a scratchpad, and every later line is read, in order.
pub proof fn law_every_line_is_read(contents: Seq<char>, upto: int)
    requires
        2 <= upto <= lines(contents).len(),
    ensures
        document_of(contents) is Some <==> trimmed(lines(contents)[0]) == "# Codex Scratchpad"@,
        document_of(contents) matches Some(document) ==> document == read_lines(
            lines(contents),
            lines(contents).len() as int,
        ),
        read_lines(lines(contents), upto) == read_line(
            read_lines(lines(contents), upto - 1),
            lines(contents)[upto - 1],
        ),
        read_lines(lines(contents), 1) == empty_document(),
{
}

/// A line of the form `key: value` with one of three keys sets that value and nothing else; one
/// with another key, or without a value, changes nothing.
pub proof fn law_known_keys_are_read(document: DocumentView, line: Seq<char>)
    requires
        entry_of(trimmed(line)) is None,
    ensures
        ({
            let after = read_line(document, line);
            match cut_once(trimmed(line), ":"@) {
                None => after == document,
                Some((key, value)) => {
                    let name = trimmed(key);
                    let text = trimmed(value);
                    &&& text.len() == 0 ==> after == document
                    &&& text.len() > 0 && name == "task"@ ==> after.task == Some(text)
                        && after.session_id == document.session_id && after.created_at
                        == document.created_at
                    &&& text.len() > 0 && name == "session_id"@ ==> after.session_id == Some(text)
                        && after.task == document.task && after.created_at == document.created_at
                    &&& text.len() > 0 && name == "created_at"@ ==> after.created_at == Some(text)
                        && after.task == document.task && after.session_id == document.session_id
                    &&& name != "task"@ && name != "session_id"@ && name != "created_at"@ ==> after
                        == document
                },
            }
        }),
{
    reveal_strlit("task");
    reveal_strlit("session_id");
    reveal_strlit("created_at");
    assert("session_id"@.len() != "task"@.len());
    assert("session_id"@[0] != "created_at"@[0]);
}

/// A field has the first value that is not empty among the parts that name it.
pub proof fn law_first_value_of_a_field_counts(
    parts: Seq<Seq<char>>,
    name: Seq<char>,
    from: int,
    at: int,
)
    requires
        0 <= from <= at <= parts.len(),
        forall|k: int| from <= k < at ==> field_value(#[trigger] parts[k], name) is None,
        at < parts.len() ==> field_value(parts[at], name) is Some,
    ensures
        field_in(parts, name, from) == if at < parts.len() {
            field_value(parts[at], name)
        } else {
            None
        },
    decreases at - from,
{
    if from < at {
        assert(field_value(parts[from], name) is None);
        law_first_value_of_a_field_counts(parts, name, from + 1, at);
    }
}

// -- the summary line -------------------------------------------------------------------------

/// At most 220 characters of the text on one line, with three dots where there were more.
pub open spec fn brief(text: Seq<char>) -> Seq<char> {
    if one_line(text).len() <= 220 {
        one_line(text)
    } else {
        one_line(text).subrange(0, 220) + "..."@
    }
}

/// The title is the task, or that of the file where the task is blank or missing.
pub open spec fn shown_title(document: DocumentView, fallback: Seq<char>) -> Seq<char> {
    if document.task is Some && !blank(document.task->Some_0) {
        document.task->Some_0
    } else {
        fallback
    }
}

/// The line by which a scratchpad is found names its title and its latest entry: of one that sums
/// up a lot, what was concluded and what comes next; of any other, its kind and its text.
pub proof fn law_summary_is_of_the_latest_entry(document: DocumentView, fallback: Seq<char>)
    ensures
        ({
            let head = "Scratchpad `"@ + shown_title(document, fallback) + "`"@;
            let summary = rollout_summary(document, fallback);
            let latest = document.entries.last();
            let conclusion = field_in(pieces(latest.text, Cut::At('|')), "conc"@, 0);
            let next = field_in(pieces(latest.text, Cut::At('|')), "next"@, 0);
            let lot = same_ignoring_case(latest.kind, "LOT"@);
            &&& document.entries.len() == 0 ==> summary == head
                + ": no CSP entries recorded yet."@
            &&& document.entries.len() > 0 && !(lot && (conclusion is Some || next is Some))
                ==> summary == head + " latest "@ + latest.kind + ": "@ + brief(latest.text)
            &&& document.entries.len() > 0 && lot && conclusion is Some && next is Some ==> summary
                == head + " validated: "@ + brief(conclusion->Some_0) + "; next: "@ + brief(
                next->Some_0,
            )
            &&& document.entries.len() > 0 && lot && conclusion is Some && next is None ==> summary
                == head + " validated: "@ + brief(conclusion->Some_0)
            &&& document.entries.len() > 0 && lot && conclusion is None && next is Some ==> summary
                == head + "; next: "@ + brief(next->Some_0)
        }),
{
}

/// The slug is the title behind a word that says what it is of; a blank title has none.
pub proof fn law_slug_is_of_the_title(document: DocumentView, fallback: Seq<char>)
    ensures
        ({
            let title = trimmed(shown_title(document, fallback));
            slug_of(document, fallback) == if title.len() == 0 {
                None
            } else {
                Some("scratchpad-"@ + title)
            }
        }),
{
}

/// The title of a file is its name up to the last dot; a name that begins with its only dot is
/// taken whole, and one that is missing or empty stands for any.
pub proof fn law_title_of_a_file(stem: Seq<char>, extension: Seq<char>)
    requires
        stem.len() > 0,
        forall|k: int| !#[trigger] occurs_at(extension, "."@, k),
    ensures
        title_from_name(Some(stem + "."@ + extension)) == stem,
        title_from_name(None) == "scratchpad"@,
{
    let name = stem + "."@ + extension;
    reveal_strlit(".");
    law_cut_leaves_both_sides(name, "."@);
    assert(name.subrange(stem.len() as int, stem.len() as int + 1) =~= "."@);
    assert(occurs_at(name, "."@, stem.len() as int));
    let (a, b) = cut_last(name, "."@)->Some_0;
    if a.len() > stem.len() {
        let k = a.len() - stem.len() - 1;
        assert(name[a.len() as int] == '.');
        assert(extension[k] == '.');
        assert(extension.subrange(k, k + 1) =~= "."@);
        assert(occurs_at(extension, "."@, k));
    }
    assert(a.len() == stem.len());
    assert(a =~= stem) by {
        assert(a =~= name.subrange(0, a.len() as int));
        assert(stem =~= name.subrange(0, stem.len() as int));
    }
}

// -- the memory -------------------------------------------------------------------------------

/// The newest 120 entries.
pub open spec fn kept_entries(entries: Seq<EntryView>) -> Seq<EntryView> {
    if entries.len() <= 120 {
        entries
    } else {
        entries.subrange(entries.len() - 120, entries.len() as int)
    }
}

/// How an entry stands in the trail: its id, its kind, its tags and its text on one line, and its
/// references on the next where it has any.
pub open spec fn entry_in_trail(entry: EntryView) -> Seq<Seq<char>> {
    let line = if entry.tags.len() == 0 {
        "- "@ + entry.id + " "@ + entry.kind + " :: "@ + entry.text
    } else {
        "- "@ + entry.id + " "@ + entry.kind + " #"@ + joined(entry.tags, " #"@) + " :: "@
            + entry.text
    };
    if entry.refs.len() == 0 {
        seq![line]
    } else {
        seq![line, "  refs: "@ + joined(entry.refs, ", "@)]
    }
}

/// The texts with a comma between each two, or a word that says that there are none.
pub open spec fn names_or_none(list: Seq<Seq<char>>) -> Seq<char> {
    if list.len() == 0 {
        "none"@
    } else {
        joined(list, ","@)
    }
}

/// How an entry stands among the nodes.
pub open spec fn entry_as_node(entry: EntryView) -> Seq<char> {
    "- node="@ + entry.id + " kind="@ + entry.kind + " tags=["@ + names_or_none(entry.tags)
        + "] refs=["@ + names_or_none(entry.refs) + "]"@
}

/// The head of a memory: where it comes from, and how many entries there were.
pub open spec fn memory_head(
    document: DocumentView,
    path: Seq<char>,
    updated_at: Seq<char>,
    fallback: Seq<char>,
) -> Seq<Seq<char>> {
    seq!["---"@, "source: scratchpad"@, "task: "@ + shown_title(document, fallback)]
        + match document.session_id {
        Some(id) => seq!["session_id: "@ + id],
        None => Seq::empty(),
    } + match document.created_at {
        Some(at) => seq!["created_at: "@ + at],
        None => Seq::empty(),
    } + seq![
        "scratchpad_path: "@ + path,
        "source_updated_at: "@ + updated_at,
        "entry_count: "@ + decimal(document.entries.len()),
        "---"@,
        ""@,
        "## Scratchpad Trail"@,
    ]
}

/// A memory has a head, then the trail of the newest entries, then the graph: a node for each of
/// them, and its edges, of which at most six hundred are written.
pub proof fn law_memory_tells_its_entries(
    document: DocumentView,
    path: Seq<char>,
    updated_at: Seq<char>,
    fallback: Seq<char>,
)
    ensures
        ({
            let entries = kept_entries(document.entries);
            let edges = edges_of(entries);
            memory_lines(document, path, updated_at, fallback) == memory_head(
                document,
                path,
                updated_at,
                fallback,
            ) + (if entries.len() == 0 {
                seq!["- No CSP entries found."@]
            } else {
                entries.map_values(|e: EntryView| entry_in_trail(e)).flatten_alt()
            }) + seq![""@, "## Breadcrumb Graph"@, "Nodes:"@] + (if entries.len() == 0 {
                seq!["- none"@]
            } else {
                entries.map_values(|e: EntryView| entry_as_node(e))
            }) + seq!["Edges:"@] + (if edges.len() == 0 {
                seq!["- none"@]
            } else if edges.len() <= 600 {
                edges.map_values(|e: Seq<char>| "- "@ + e)
            } else {
                edges.subrange(0, 600).map_values(|e: Seq<char>| "- "@ + e).push("- ..."@)
            })
        }),
{
    let entries = kept_entries(document.entries);
    assert(newest(document.entries) == entries);
    lemma_head(document, path, updated_at, fallback);
    lemma_trail(entries);
    assert(node_lines(entries) =~= entries.map_values(|e: EntryView| entry_as_node(e))) by {
        assert forall|k: int| 0 <= k < entries.len() implies #[trigger] node_lines(entries)[k]
            == entry_as_node(entries[k]) by {}
    }
}

proof fn lemma_head(
    document: DocumentView,
    path: Seq<char>,
    updated_at: Seq<char>,
    fallback: Seq<char>,
)
    ensures
        header_lines(document, path, updated_at, fallback).push("## Scratchpad Trail"@)
            == memory_head(document, path, updated_at, fallback),
{
    assert(title_of(document, fallback) == shown_title(document, fallback));
    assert(header_lines(document, path, updated_at, fallback).push("## Scratchpad Trail"@)
        =~= memory_head(document, path, updated_at, fallback));
}

proof fn lemma_trail_entry(entry: EntryView)
    ensures
        trail_entry(entry) == entry_in_trail(entry),
{
    let start = "- "@ + entry.id + " "@ + entry.kind;
    if entry.tags.len() == 0 {
        assert(start + Seq::<char>::empty() =~= start);
    } else {
        assert(start + (" #"@ + joined(entry.tags, " #"@)) =~= start + " #"@ + joined(
            entry.tags,
            " #"@,
        ));
    }
    assert(trail_entry(entry) =~= entry_in_trail(entry));
}

proof fn lemma_trail(entries: Seq<EntryView>)
    ensures
        trail_lines(entries) == entries.map_values(|e: EntryView| entry_in_trail(e)).flatten_alt(),
    decreases entries.len(),
{
    let told = entries.map_values(|e: EntryView| entry_in_trail(e));
    if entries.len() > 0 {
        lemma_trail(entries.drop_last());
        lemma_trail_entry(entries.last());
        assert(told.drop_last() =~= entries.drop_last().map_values(
            |e: EntryView| entry_in_trail(e),
        ));
    }
}

/// The text of a memory is its lines, each with a line feed.
pub proof fn law_memory_text_is_its_lines(lines: Seq<Seq<char>>, line: Seq<char>)
    ensures
        lines_text(Seq::empty()) == Seq::<char>::empty(),
        lines_text(lines.push(line)) == lines_text(lines) + line + "\n"@,
{
    assert(lines.push(line).drop_last() =~= lines);
}

/// The edge is one of the graph: from an entry to the next, to one of its tags, or to one of its
/// references.
pub open spec fn edge_of_graph(entries: Seq<EntryView>, edge: Seq<char>) -> bool {
    ||| exists|i: int|
        0 <= i && i + 1 < entries.len() && edge == #[trigger] entries[i].id + " -> "@
            + entries[i + 1].id + " (follows)"@
    ||| exists|i: int, k: int|
        0 <= i < entries.len() && 0 <= k < entries[i].tags.len() && edge == entries[i].id
            + " -> tag:"@ + #[trigger] entries[i].tags[k] + " (topic)"@
    ||| exists|i: int, k: int|
        0 <= i < entries.len() && 0 <= k < entries[i].refs.len() && edge == entries[i].id
            + " -> ref:"@ + #[trigger] entries[i].refs[k] + " (touches)"@
}

/// The edges of the graph are all that the entries give and no others, in order, each once.
pub proof fn law_graph_has_every_edge(entries: Seq<EntryView>, edge: Seq<char>)
    ensures
        edges_of(entries).contains(edge) <==> edge_of_graph(entries, edge),
        edges_of(entries).no_duplicates(),
{
    let all = follows_edges(entries) + all_entry_edges(entries);
    law_edges_are_an_ordered_set(all);
    lemma_follows_edges(entries, edge);
    lemma_all_entry_edges(entries, edge);
    if all.contains(edge) {
        let k = choose|k: int| 0 <= k < all.len() && all[k] == edge;
        if k < follows_edges(entries).len() {
            assert(follows_edges(entries)[k] == edge);
        } else {
            assert(all_entry_edges(entries)[k - follows_edges(entries).len()] == edge);
        }
    }
    if follows_edges(entries).contains(edge) {
        let k = choose|k: int|
            0 <= k < follows_edges(entries).len() && follows_edges(entries)[k] == edge;
        assert(all[k] == edge);
    }
    if all_entry_edges(entries).contains(edge) {
        let k = choose|k: int|
            0 <= k < all_entry_edges(entries).len() && all_entry_edges(entries)[k] == edge;
        assert(all[follows_edges(entries).len() + k] == edge);
    }
    assert(ordered(all).contains(edge) <==> all.contains(edge));
}

spec fn next_edge(entries: Seq<EntryView>, i: int, edge: Seq<char>) -> bool {
    0 <= i && i + 1 < entries.len() && edge == entries[i].id + " -> "@ + entries[i + 1].id
        + " (follows)"@
}

proof fn lemma_follows_edges(entries: Seq<EntryView>, edge: Seq<char>)
    ensures
        follows_edges(entries).contains(edge) <==> exists|i: int|
            0 <= i && i + 1 < entries.len() && edge == #[trigger] entries[i].id + " -> "@
                + entries[i + 1].id + " (follows)"@,
    decreases entries.len(),
{
    let all = follows_edges(entries);
    if entries.len() > 1 {
        let rest = entries.drop_last();
        let before = follows_edges(rest);
        lemma_follows_edges(rest, edge);
        let last = follows_edge(entries[entries.len() - 2], entries.last());
        assert(all == before.push(last));
        if all.contains(edge) {
            let k = choose|k: int| 0 <= k < all.len() && all[k] == edge;
            if k < before.len() {
                assert(before[k] == edge);
                let i = choose|i: int|
                    0 <= i && i + 1 < rest.len() && edge == #[trigger] rest[i].id + " -> "@
                        + rest[i + 1].id + " (follows)"@;
                assert(edge == entries[i].id + " -> "@ + entries[i + 1].id + " (follows)"@);
            } else {
                let i = entries.len() - 2;
                assert(edge == entries[i].id + " -> "@ + entries[i + 1].id + " (follows)"@);
            }
        }
        if exists|i: int| #[trigger] next_edge(entries, i, edge) {
            let i = choose|i: int| #[trigger] next_edge(entries, i, edge);
            if i + 1 < rest.len() {
                assert(edge == rest[i].id + " -> "@ + rest[i + 1].id + " (follows)"@);
                let k = choose|k: int| 0 <= k < before.len() && before[k] == edge;
                assert(all[k] == edge);
            } else {
                assert(all[all.len() - 1] == edge);
            }
        }
        if exists|i: int|
            0 <= i && i + 1 < entries.len() && edge == #[trigger] entries[i].id + " -> "@
                + entries[i + 1].id + " (follows)"@ {
            let i = choose|i: int|
                0 <= i && i + 1 < entries.len() && edge == #[trigger] entries[i].id + " -> "@
                    + entries[i + 1].id + " (follows)"@;
            assert(next_edge(entries, i, edge));
        }
    }
}

proof fn lemma_entry_edges(entry: EntryView, edge: Seq<char>)
    ensures
        entry_edges(entry).contains(edge) <==> {
            ||| exists|k: int|
                0 <= k < entry.tags.len() && edge == entry.id + " -> tag:"@
                    + #[trigger] entry.tags[k] + " (topic)"@
            ||| exists|k: int|
                0 <= k < entry.refs.len() && edge == entry.id + " -> ref:"@
                    + #[trigger] entry.refs[k] + " (touches)"@
        },
{
    let all = entry_edges(entry);
    if all.contains(edge) {
        let k = choose|k: int| 0 <= k < all.len() && all[k] == edge;
        if k < entry.tags.len() {
            assert(edge == entry.id + " -> tag:"@ + entry.tags[k] + " (topic)"@);
        } else {
            let j = k - entry.tags.len();
            assert(edge == entry.id + " -> ref:"@ + entry.refs[j] + " (touches)"@);
        }
    }
    if exists|k: int|
        0 <= k < entry.tags.len() && edge == entry.id + " -> tag:"@ + #[trigger] entry.tags[k]
            + " (topic)"@ {
        let k = choose|k: int|
            0 <= k < entry.tags.len() && edge == entry.id + " -> tag:"@ + #[trigger] entry.tags[k]
                + " (topic)"@;
        assert(all[k] == edge);
    }
    if exists|k: int|
        0 <= k < entry.refs.len() && edge == entry.id + " -> ref:"@ + #[trigger] entry.refs[k]
            + " (touches)"@ {
        let k = choose|k: int|
            0 <= k < entry.refs.len() && edge == entry.id + " -> ref:"@ + #[trigger] entry.refs[k]
                + " (touches)"@;
        assert(all[entry.tags.len() + k] == edge);
    }
}

proof fn lemma_all_entry_edges(entries: Seq<EntryView>, edge: Seq<char>)
    ensures
        all_entry_edges(entries).contains(edge) <==> {
            ||| exists|i: int, k: int|
                0 <= i < entries.len() && 0 <= k < entries[i].tags.len() && edge == entries[i].id
                    + " -> tag:"@ + #[trigger] entries[i].tags[k] + " (topic)"@
            ||| exists|i: int, k: int|
                0 <= i < entries.len() && 0 <= k < entries[i].refs.len() && edge == entries[i].id
                    + " -> ref:"@ + #[trigger] entries[i].refs[k] + " (touches)"@
        },
    decreases entries.len(),
{
    let all = all_entry_edges(entries);
    if entries.len() > 0 {
        let rest = entries.drop_last();
        let before = all_entry_edges(rest);
        let last = entries.len() - 1;
        lemma_all_entry_edges(rest, edge);
        lemma_entry_edges(entries[last], edge);
        let own = entry_edges(entries[last]);
        assert(all.contains(edge) <==> before.contains(edge) || own.contains(edge)) by {
            if all.contains(edge) {
                let k = choose|k: int| 0 <= k < all.len() && all[k] == edge;
                if k < before.len() {
                    assert(before[k] == edge);
                } else {
                    assert(own[k - before.len()] == edge);
                }
            }
            if before.contains(edge) {
                let k = choose|k: int| 0 <= k < before.len() && before[k] == edge;
                assert(all[k] == edge);
            }
            if own.contains(edge) {
                let k = choose|k: int| 0 <= k < own.len() && own[k] == edge;
                assert(all[before.len() + k] == edge);
            }
        }
        assert(forall|i: int| 0 <= i < rest.len() ==> rest[i] == entries[i]);
        if before.contains(edge) {
            if exists|i: int, k: int|
                0 <= i < rest.len() && 0 <= k < rest[i].tags.len() && edge == rest[i].id
                    + " -> tag:"@ + #[trigger] rest[i].tags[k] + " (topic)"@ {
                let (i, k) = choose|i: int, k: int|
                    0 <= i < rest.len() && 0 <= k < rest[i].tags.len() && edge == rest[i].id
                        + " -> tag:"@ + #[trigger] rest[i].tags[k] + " (topic)"@;
                assert(edge == entries[i].id + " -> tag:"@ + entries[i].tags[k] + " (topic)"@);
            } else {
                let (i, k) = choose|i: int, k: int|
                    0 <= i < rest.len() && 0 <= k < rest[i].refs.len() && edge == rest[i].id
                        + " -> ref:"@ + #[trigger] rest[i].refs[k] + " (touches)"@;
                assert(edge == entries[i].id + " -> ref:"@ + entries[i].refs[k] + " (touches)"@);
            }
        }
        if exists|i: int, k: int|
            0 <= i < entries.len() && 0 <= k < entries[i].tags.len() && edge == entries[i].id
                + " -> tag:"@ + #[trigger] entries[i].tags[k] + " (topic)"@ {
            let (i, k) = choose|i: int, k: int|
                0 <= i < entries.len() && 0 <= k < entries[i].tags.len() && edge == entries[i].id
                    + " -> tag:"@ + #[trigger] entries[i].tags[k] + " (topic)"@;
            if i < rest.len() {
                assert(edge == rest[i].id + " -> tag:"@ + rest[i].tags[k] + " (topic)"@);
            }
        }
        if exists|i: int, k: int|
            0 <= i < entries.len() && 0 <= k < entries[i].refs.len() && edge == entries[i].id
                + " -> ref:"@ + #[trigger] entries[i].refs[k] + " (touches)"@ {
            let (i, k) = choose|i: int, k: int|
                0 <= i < entries.len() && 0 <= k < entries[i].refs.len() && edge == entries[i].id
                    + " -> ref:"@ + #[trigger] entries[i].refs[k] + " (touches)"@;
            if i < rest.len() {
                assert(edge == rest[i].id + " -> ref:"@ + rest[i].refs[k] + " (touches)"@);
            }
        }
    }
}

// -- which scratchpads ------------------------------------------------------------------------

/// A scratchpad is worth a memory if it is a Markdown file with the header of one, changed within
/// so many days and not within so many hours.
pub proof fn law_scratchpads_in_the_window_are_taken(
    files: Seq<ScratchpadFile>,
    now: i64,
    days: i64,
    hours: i64,
    at: int,
)
    requires
        0 <= at < files.len(),
        -0x0fff_ffff_ffff_ffff <= now <= 0x0fff_ffff_ffff_ffff,
        0 <= days <= 0xffff_ffff,
        0 <= hours <= 0xffff_ffff,
    ensures
        ({
            let file = files[at];
            let taken = file.is_file && option_view(file.extension) == Some("md"@)
                && file.updated_at is Some && now - days * 86_400 <= file.updated_at->Some_0.secs
                && file.updated_at->Some_0.secs <= now - hours * 3_600 && file.contents is Some
                && has_prefix(file.contents->Some_0@, "# Codex Scratchpad"@);
            let list = arranged(files, window_at(now, days, hours));
            taken ==> list.contains(
                CandidateView { path: file.path@, updated_at: file.updated_at->Some_0 },
            )
        }),
{
    broadcast use vstd::seq_lib::group_to_multiset_ensures;

    let window = window_at(now, days, hours);
    law_candidates_are_newest_first(files, window);
    if let Some(candidate) = candidate_of(files[at], window) {
        lemma_candidates_have(files, window, at);
        let given = candidates_of(files, window);
        assert(given.to_multiset().count(candidate) > 0);
        assert(arranged(files, window).to_multiset().count(candidate) > 0);
    }
}

proof fn lemma_candidates_have(files: Seq<ScratchpadFile>, window: UpdateWindow, at: int)
    requires
        0 <= at < files.len(),
        candidate_of(files[at], window) is Some,
    ensures
        candidates_of(files, window).contains(candidate_of(files[at], window)->Some_0),
    decreases files.len(),
{
    let all = candidates_of(files, window);
    let rest = files.drop_last();
    if at == files.len() - 1 {
        assert(all[all.len() - 1] == candidate_of(files[at], window)->Some_0);
    } else {
        lemma_candidates_have(rest, window, at);
        assert(rest[at] == files[at]);
        let before = candidates_of(rest, window);
        let k = choose|k: int|
            0 <= k < before.len() && before[k] == candidate_of(files[at], window)->Some_0;
        assert(all[k] == before[k]);
    }
}

/// Nothing else is taken: every candidate is one of the files, within the window.
pub proof fn law_only_scratchpads_are_taken(file: ScratchpadFile, window: UpdateWindow)
    ensures
        candidate_of(file, window) matches Some(candidate) ==> {
            &&& file.is_file
            &&& option_view(file.extension) == Some("md"@)
            &&& file.contents is Some
            &&& has_prefix(file.contents->Some_0@, "# Codex Scratchpad"@)
            &&& candidate.path == file.path@
            &&& file.updated_at == Some(candidate.updated_at)
            &&& window.min_updated_at <= candidate.updated_at.secs <= window.max_updated_at
        },
{
}

/// The nearest directory that has scratchpads is taken.
pub proof fn law_nearest_directory_is_taken(flags: Seq<bool>, from: int, at: int)
    requires
        0 <= from <= at <= flags.len(),
        forall|k: int| from <= k < at ==> !#[trigger] flags[k],
        at < flags.len() ==> flags[at],
    ensures
        first_true(flags, from) == if at < flags.len() {
            Some(at)
        } else {
            None
        },
    decreases at - from,
{
    if from < at {
        assert(!flags[from]);
        law_nearest_directory_is_taken(flags, from + 1, at);
    }
}

// -- how a run went ---------------------------------------------------------------------------

/// The jobs are counted by their outcome.
pub proof fn law_outcomes_are_counted(results: Seq<JobResult>, outcome: JobOutcome)
    ensures
        outcome_count(results, outcome) == results.filter(
            |r: JobResult| r.outcome == outcome,
        ).len(),
    decreases results.len(),
{
    reveal(Seq::filter);
    if results.len() > 0 {
        law_outcomes_are_counted(results.drop_last(), outcome);
    }
}

/// The usage of all jobs that reported one is added up, each number by itself.
pub proof fn law_usage_is_added_up(
    results: Seq<JobResult>,
    total: TokenUsage,
    usage: TokenUsage,
    outcome: JobOutcome,
)
    requires
        0 <= total.input_tokens <= 0x0fff_ffff_ffff_ffff,
        0 <= total.cached_input_tokens <= 0x0fff_ffff_ffff_ffff,
        0 <= total.output_tokens <= 0x0fff_ffff_ffff_ffff,
        0 <= total.reasoning_output_tokens <= 0x0fff_ffff_ffff_ffff,
        0 <= total.total_tokens <= 0x0fff_ffff_ffff_ffff,
        0 <= usage.input_tokens <= 0x0fff_ffff_ffff_ffff,
        0 <= usage.cached_input_tokens <= 0x0fff_ffff_ffff_ffff,
        0 <= usage.output_tokens <= 0x0fff_ffff_ffff_ffff,
        0 <= usage.reasoning_output_tokens <= 0x0fff_ffff_ffff_ffff,
        0 <= usage.total_tokens <= 0x0fff_ffff_ffff_ffff,
    ensures
        total_usage(Seq::empty()) is None,
        total_usage(results.push(JobResult { outcome, token_usage: None })) == total_usage(results),
        total_usage(results) is None ==> total_usage(
            results.push(JobResult { outcome, token_usage: Some(usage) }),
        ) == Some(usage),
        total_usage(results) == Some(total) ==> {
            let sum = total_usage(results.push(JobResult { outcome, token_usage: Some(usage) }));
            &&& sum is Some
            &&& sum->Some_0.input_tokens == total.input_tokens + usage.input_tokens
            &&& sum->Some_0.cached_input_tokens == total.cached_input_tokens
                + usage.cached_input_tokens
            &&& sum->Some_0.output_tokens == total.output_tokens + usage.output_tokens
            &&& sum->Some_0.reasoning_output_tokens == total.reasoning_output_tokens
                + usage.reasoning_output_tokens
            &&& sum->Some_0.total_tokens == total.total_tokens + usage.total_tokens
        },
{
    assert(results.push(JobResult { outcome, token_usage: None }).drop_last() =~= results);
    assert(results.push(JobResult { outcome, token_usage: Some(usage) }).drop_last() =~= results);
}

/// What is not zero is reported under its name, and what is zero is not reported.
pub proof fn law_counts_are_reported(stats: Stats)
    ensures
        ({
            let metrics = metrics_of(stats);
            &&& stats.claimed > 0 <==> metrics.contains(StageOneMetric::JobsClaimed(stats.claimed))
            &&& stats.failed > 0 <==> metrics.contains(StageOneMetric::JobsFailed(stats.failed))
            &&& stats.succeeded_with_output > 0 <==> metrics.contains(
                StageOneMetric::JobsSucceeded(stats.succeeded_with_output),
            )
            &&& stats.succeeded_with_output > 0 <==> metrics.contains(
                StageOneMetric::Outputs(stats.succeeded_with_output),
            )
            &&& stats.succeeded_no_output > 0 <==> metrics.contains(
                StageOneMetric::JobsSucceededNoOutput(stats.succeeded_no_output),
            )
            &&& stats.total_token_usage matches Some(usage) ==> usage.input_tokens >= 0
                ==> metrics.contains(StageOneMetric::InputTokens(usage.input_tokens))
            &&& stats.total_token_usage matches Some(usage) ==> usage.total_tokens >= 0
                ==> metrics.contains(StageOneMetric::TotalTokens(usage.total_tokens))
            &&& stats.total_token_usage matches Some(usage) ==> usage.output_tokens >= 0
                ==> metrics.contains(StageOneMetric::OutputTokens(usage.output_tokens))
            &&& stats.total_token_usage matches Some(usage) ==> usage.cached_input_tokens >= 0
                ==> metrics.contains(StageOneMetric::CachedInputTokens(usage.cached_input_tokens))
            &&& stats.total_token_usage matches Some(usage) ==> usage.reasoning_output_tokens >= 0
                ==> metrics.contains(
                StageOneMetric::ReasoningOutputTokens(usage.reasoning_output_tokens),
            )
        }),
{
    let metrics = metrics_of(stats);
    let none = Seq::<StageOneMetric>::empty();
    let a: int = if stats.claimed > 0 {
        1
    } else {
        0
    };
    let b: int = if stats.succeeded_with_output > 0 {
        2
    } else {
        0
    };
    let c: int = if stats.succeeded_no_output > 0 {
        1
    } else {
        0
    };
    let d: int = if stats.failed > 0 {
        1
    } else {
        0
    };
    if stats.claimed > 0 {
        assert(metrics[0] == StageOneMetric::JobsClaimed(stats.claimed));
    }
    if stats.succeeded_with_output > 0 {
        assert(metrics[a] == StageOneMetric::JobsSucceeded(stats.succeeded_with_output));
        assert(metrics[a + 1] == StageOneMetric::Outputs(stats.succeeded_with_output));
    }
    if stats.succeeded_no_output > 0 {
        assert(metrics[a + b] == StageOneMetric::JobsSucceededNoOutput(stats.succeeded_no_output));
    }
    if stats.failed > 0 {
        assert(metrics[a + b + c] == StageOneMetric::JobsFailed(stats.failed));
    }
    if let Some(usage) = stats.total_token_usage {
        let at = a + b + c + d;
        assert(metrics[at] is TotalTokens);
        assert(metrics[at + 1] is InputTokens);
        assert(metrics[at + 2] is CachedInputTokens);
        assert(metrics[at + 3] is OutputTokens);
        assert(metrics[at + 4] is ReasoningOutputTokens);
    }
}

} // verus!
