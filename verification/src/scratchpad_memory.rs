//! The memory that is kept of a scratchpad: its trail of entries, and a graph of what they touch.

use crate::rolling_context_filter::same_text;
use crate::scratchpad::{
    entry_views, scratchpad_title, title_of, DocumentView, EntryView, ScratchpadDocument,
    ScratchpadEntry,
};
use crate::text::{chars_of, decimal, decimal_text, join, joined, texts};
use vstd::prelude::*;
use vstd::string::*;

verus! {

pub const SCRATCHPAD_MAX_ENTRIES: usize = 120;

pub const SCRATCHPAD_MAX_GRAPH_EDGES: usize = 600;

// ---------------------------------------------------------------------------------------------
// Ordered sets of texts.
// ---------------------------------------------------------------------------------------------

/// The order of texts: by the first character in which they differ, and a text after its beginning.
pub open spec fn before(a: Seq<char>, b: Seq<char>) -> bool
    decreases a.len(),
{
    if b.len() == 0 {
        false
    } else if a.len() == 0 {
        true
    } else if a[0] == b[0] {
        before(a.drop_first(), b.drop_first())
    } else {
        a[0] < b[0]
    }
}

pub fn text_before(a: &str, b: &str) -> (r: bool)
    ensures
        r == before(a@, b@),
{
    let a_chars = chars_of(a);
    let b_chars = chars_of(b);
    let n: usize = a_chars.len();
    let m: usize = b_chars.len();
    let mut i: usize = 0;
    assert(a@.subrange(0, n as int) =~= a@);
    assert(b@.subrange(0, m as int) =~= b@);
    while i < n && i < m
        invariant
            n == a_chars@.len(),
            m == b_chars@.len(),
            a_chars@ == a@,
            b_chars@ == b@,
            i <= n,
            i <= m,
            before(a@, b@) == before(a@.subrange(i as int, n as int), b@.subrange(i as int, m as int)),
        decreases n - i,
    {
        proof {
            let rest_a = a@.subrange(i as int, n as int);
            let rest_b = b@.subrange(i as int, m as int);
            assert(rest_a[0] == a@[i as int]);
            assert(rest_b[0] == b@[i as int]);
            assert(rest_a.drop_first() =~= a@.subrange(i + 1, n as int));
            assert(rest_b.drop_first() =~= b@.subrange(i + 1, m as int));
        }
        if a_chars[i] != b_chars[i] {
            return a_chars[i] < b_chars[i];
        }
        i += 1;
    }
    i < m
}

/// The set with one text more, in order.
pub open spec fn with_text(set: Seq<Seq<char>>, text: Seq<char>) -> Seq<Seq<char>>
    decreases set.len(),
{
    if set.len() == 0 {
        seq![text]
    } else if set.last() == text {
        set
    } else if before(set.last(), text) {
        set.push(text)
    } else {
        with_text(set.drop_last(), text).push(set.last())
    }
}

/// The texts in order, each once.
pub open spec fn ordered(list: Seq<Seq<char>>) -> Seq<Seq<char>>
    decreases list.len(),
{
    if list.len() == 0 {
        Seq::empty()
    } else {
        with_text(ordered(list.drop_last()), list.last())
    }
}

proof fn lemma_with_text_splits(set: Seq<Seq<char>>, text: Seq<char>, at: int)
    requires
        0 <= at <= set.len(),
        forall|k: int| at <= k < set.len() ==> #[trigger] set[k] != text && !before(set[k], text),
    ensures
        with_text(set, text) == with_text(set.subrange(0, at), text) + set.subrange(
            at,
            set.len() as int,
        ),
    decreases set.len() - at,
{
    if at == set.len() {
        assert(set.subrange(0, at) =~= set);
        assert(with_text(set, text) + set.subrange(at, at) =~= with_text(set, text));
    } else {
        let front = set.drop_last();
        assert forall|k: int| at <= k < front.len() implies #[trigger] front[k] != text && !before(
            front[k],
            text,
        ) by {
            assert(front[k] == set[k]);
        }
        assert(set[set.len() - 1] != text);
        lemma_with_text_splits(front, text, at);
        assert(front.subrange(0, at) =~= set.subrange(0, at));
        assert((with_text(set.subrange(0, at), text) + front.subrange(at, front.len() as int)).push(
            set.last(),
        ) =~= with_text(set.subrange(0, at), text) + set.subrange(at, set.len() as int));
    }
}

fn insert_text(set: &mut Vec<String>, text: String)
    ensures
        texts(final(set)@) == with_text(texts(old(set)@), text@),
{
    let ghost all = texts(set@);
    let mut at: usize = set.len();
    while at > 0
        invariant
            at <= set@.len(),
            all == texts(set@),
            all == texts(old(set)@),
            forall|k: int|
                at <= k < all.len() ==> #[trigger] all[k] != text@ && !before(all[k], text@),
        decreases at,
    {
        assert(all[at - 1] == set@[at - 1]@);
        let same = same_text(set[at - 1].as_str(), text.as_str());
        if same {
            proof {
                lemma_with_text_splits(all, text@, at as int);
                let front = all.subrange(0, at as int);
                assert(front.last() == text@);
                assert(front + all.subrange(at as int, all.len() as int) =~= all);
            }
            return;
        }
        if text_before(set[at - 1].as_str(), text.as_str()) {
            proof {
                lemma_with_text_splits(all, text@, at as int);
                let front = all.subrange(0, at as int);
                assert(front.last() == all[at - 1]);
            }
            let ghost added = text@;
            set.insert(at, text);
            proof {
                let front = all.subrange(0, at as int);
                assert(texts(set@) =~= front.push(added) + all.subrange(
                    at as int,
                    all.len() as int,
                ));
            }
            return;
        }
        at -= 1;
    }
    proof {
        lemma_with_text_splits(all, text@, 0);
        assert(all.subrange(0, 0) =~= Seq::<Seq<char>>::empty());
    }
    let ghost added = text@;
    set.insert(0, text);
    assert(texts(set@) =~= seq![added] + all.subrange(0, all.len() as int));
}

// ---------------------------------------------------------------------------------------------
// Lines.
// ---------------------------------------------------------------------------------------------

/// The lines, each with its line feed.
pub open spec fn lines_text(lines: Seq<Seq<char>>) -> Seq<char>
    decreases lines.len(),
{
    if lines.len() == 0 {
        Seq::empty()
    } else {
        lines_text(lines.drop_last()) + lines.last() + "\n"@
    }
}

fn write_lines(lines: &Vec<String>) -> (text: String)
    ensures
        text@ == lines_text(texts(lines@)),
{
    let ghost all = texts(lines@);
    let mut text = String::new();
    let mut i: usize = 0;
    assert(text@ =~= lines_text(all.subrange(0, 0)));
    while i < lines.len()
        invariant
            i <= lines@.len(),
            all == texts(lines@),
            text@ == lines_text(all.subrange(0, i as int)),
        decreases lines@.len() - i,
    {
        proof {
            let next = all.subrange(0, i + 1);
            assert(next.drop_last() =~= all.subrange(0, i as int));
            assert(next.last() == lines@[i as int]@);
        }
        text.append(lines[i].as_str());
        text.append("\n");
        i += 1;
    }
    assert(all.subrange(0, i as int) =~= all);
    text
}

fn push_line(lines: &mut Vec<String>, line: String)
    ensures
        texts(final(lines)@) == texts(old(lines)@).push(line@),
{
    let ghost before = texts(lines@);
    let ghost added = line@;
    lines.push(line);
    assert(texts(lines@) =~= before.push(added));
}

fn push_text(lines: &mut Vec<String>, start: &str, rest: &str)
    ensures
        texts(final(lines)@) == texts(old(lines)@).push(start@ + rest@),
{
    let mut line = String::from_str(start);
    line.append(rest);
    push_line(lines, line);
}

fn push_literal(lines: &mut Vec<String>, line: &str)
    ensures
        texts(final(lines)@) == texts(old(lines)@).push(line@),
{
    push_line(lines, String::from_str(line));
}

// ---------------------------------------------------------------------------------------------
// The parts of a memory.
// ---------------------------------------------------------------------------------------------

/// The header of a memory.
pub open spec fn header_lines(
    document: DocumentView,
    path: Seq<char>,
    updated_at: Seq<char>,
    fallback: Seq<char>,
) -> Seq<Seq<char>> {
    let start = seq!["---"@, "source: scratchpad"@].push("task: "@ + title_of(document, fallback));
    let session = match document.session_id {
        Some(id) => start.push("session_id: "@ + id),
        None => start,
    };
    let created = match document.created_at {
        Some(at) => session.push("created_at: "@ + at),
        None => session,
    };
    created.push("scratchpad_path: "@ + path).push("source_updated_at: "@ + updated_at).push(
        "entry_count: "@ + decimal(document.entries.len()),
    ).push("---"@).push(""@)
}

fn write_header(
    document: &ScratchpadDocument,
    path: &str,
    updated_at: &str,
    fallback: &str,
) -> (lines: Vec<String>)
    ensures
        texts(lines@) == header_lines(document@, path@, updated_at@, fallback@),
{
    let mut lines: Vec<String> = Vec::new();
    push_literal(&mut lines, "---");
    push_literal(&mut lines, "source: scratchpad");
    assert(texts(lines@) =~= seq!["---"@, "source: scratchpad"@]);
    push_text(&mut lines, "task: ", scratchpad_title(document, fallback).as_str());
    if let Some(id) = &document.session_id {
        push_text(&mut lines, "session_id: ", id.as_str());
    }
    if let Some(at) = &document.created_at {
        push_text(&mut lines, "created_at: ", at.as_str());
    }
    push_text(&mut lines, "scratchpad_path: ", path);
    push_text(&mut lines, "source_updated_at: ", updated_at);
    assert(document@.entries.len() == document.entries@.len());
    push_text(
        &mut lines,
        "entry_count: ",
        decimal_text(document.entries.len() as u64).as_str(),
    );
    push_literal(&mut lines, "---");
    push_literal(&mut lines, "");
    lines
}

/// One entry of the trail, with its references on a line of their own.
pub open spec fn trail_entry(entry: EntryView) -> Seq<Seq<char>> {
    let tags = if entry.tags.len() == 0 {
        Seq::empty()
    } else {
        " #"@ + joined(entry.tags, " #"@)
    };
    let first = seq!["- "@ + entry.id + " "@ + entry.kind + tags + " :: "@ + entry.text];
    if entry.refs.len() == 0 {
        first
    } else {
        first.push("  refs: "@ + joined(entry.refs, ", "@))
    }
}

fn write_trail_entry(lines: &mut Vec<String>, entry: &ScratchpadEntry)
    ensures
        texts(final(lines)@) == texts(old(lines)@) + trail_entry(entry@),
{
    let ghost before = texts(lines@);
    assert(entry@.tags.len() == entry.tags@.len() && entry@.refs.len() == entry.refs@.len());
    let mut line = String::from_str("- ");
    line.append(entry.id.as_str());
    line.append(" ");
    line.append(entry.kind.as_str());
    let ghost start = line@;
    if entry.tags.len() > 0 {
        line.append(" #");
        line.append(join(&entry.tags, " #").as_str());
        assert(line@ =~= start + (" #"@ + joined(entry@.tags, " #"@)));
    } else {
        assert(line@ =~= start + Seq::<char>::empty());
    }
    line.append(" :: ");
    line.append(entry.text.as_str());
    push_line(lines, line);
    if entry.refs.len() > 0 {
        push_text(lines, "  refs: ", join(&entry.refs, ", ").as_str());
    }
    assert(texts(lines@) =~= before + trail_entry(entry@));
}

pub open spec fn trail_lines(entries: Seq<EntryView>) -> Seq<Seq<char>>
    decreases entries.len(),
{
    if entries.len() == 0 {
        Seq::empty()
    } else {
        trail_lines(entries.drop_last()) + trail_entry(entries.last())
    }
}

/// A list for the graph.
pub open spec fn listed(list: Seq<Seq<char>>) -> Seq<char> {
    if list.len() == 0 {
        "none"@
    } else {
        joined(list, ","@)
    }
}

fn write_list(list: &Vec<String>) -> (text: String)
    ensures
        text@ == listed(texts(list@)),
{
    assert(texts(list@).len() == list@.len());
    if list.len() == 0 {
        String::from_str("none")
    } else {
        join(list, ",")
    }
}

/// One node of the graph.
pub open spec fn node_line(entry: EntryView) -> Seq<char> {
    "- node="@ + entry.id + " kind="@ + entry.kind + " tags=["@ + listed(entry.tags) + "] refs=["@
        + listed(entry.refs) + "]"@
}

fn write_node(entry: &ScratchpadEntry) -> (line: String)
    ensures
        line@ == node_line(entry@),
{
    let mut line = String::from_str("- node=");
    line.append(entry.id.as_str());
    line.append(" kind=");
    line.append(entry.kind.as_str());
    line.append(" tags=[");
    line.append(write_list(&entry.tags).as_str());
    line.append("] refs=[");
    line.append(write_list(&entry.refs).as_str());
    line.append("]");
    line
}

pub open spec fn node_lines(entries: Seq<EntryView>) -> Seq<Seq<char>> {
    entries.map_values(|e: EntryView| node_line(e))
}

// ---------------------------------------------------------------------------------------------
// Edges.
// ---------------------------------------------------------------------------------------------

pub open spec fn follows_edge(from: EntryView, to: EntryView) -> Seq<char> {
    from.id + " -> "@ + to.id + " (follows)"@
}

pub open spec fn topic_edge(entry: EntryView, tag: Seq<char>) -> Seq<char> {
    entry.id + " -> tag:"@ + tag + " (topic)"@
}

pub open spec fn touches_edge(entry: EntryView, reference: Seq<char>) -> Seq<char> {
    entry.id + " -> ref:"@ + reference + " (touches)"@
}

/// From each entry to the next.
pub open spec fn follows_edges(entries: Seq<EntryView>) -> Seq<Seq<char>>
    decreases entries.len(),
{
    if entries.len() <= 1 {
        Seq::empty()
    } else {
        follows_edges(entries.drop_last()).push(
            follows_edge(entries[entries.len() - 2], entries.last()),
        )
    }
}

/// From an entry to its tags and references.
pub open spec fn entry_edges(entry: EntryView) -> Seq<Seq<char>> {
    entry.tags.map_values(|t: Seq<char>| topic_edge(entry, t)) + entry.refs.map_values(
        |r: Seq<char>| touches_edge(entry, r),
    )
}

pub open spec fn all_entry_edges(entries: Seq<EntryView>) -> Seq<Seq<char>>
    decreases entries.len(),
{
    if entries.len() == 0 {
        Seq::empty()
    } else {
        all_entry_edges(entries.drop_last()) + entry_edges(entries.last())
    }
}

/// The edges of the graph: in order, each once.
pub open spec fn edges_of(entries: Seq<EntryView>) -> Seq<Seq<char>> {
    ordered(follows_edges(entries) + all_entry_edges(entries))
}

fn edge(from: &str, arrow: &str, to: &str, kind: &str) -> (text: String)
    ensures
        text@ == from@ + arrow@ + to@ + kind@,
{
    let mut text = String::from_str(from);
    text.append(arrow);
    text.append(to);
    text.append(kind);
    text
}

/// Adds an edge to the set; `done` is what was added before.
fn add_edge(set: &mut Vec<String>, done: Ghost<Seq<Seq<char>>>, text: String)
    requires
        texts(old(set)@) == ordered(done@),
    ensures
        texts(final(set)@) == ordered(done@.push(text@)),
{
    assert(done@.push(text@).drop_last() =~= done@);
    insert_text(set, text);
}

fn add_entry_edges(set: &mut Vec<String>, done: Ghost<Seq<Seq<char>>>, entry: &ScratchpadEntry)
    requires
        texts(old(set)@) == ordered(done@),
    ensures
        texts(final(set)@) == ordered(done@ + entry_edges(entry@)),
{
    let ghost topics = entry@.tags.map_values(|t: Seq<char>| topic_edge(entry@, t));
    let ghost touches = entry@.refs.map_values(|r: Seq<char>| touches_edge(entry@, r));
    let mut i: usize = 0;
    assert(done@ + topics.subrange(0, 0) =~= done@);
    while i < entry.tags.len()
        invariant
            i <= entry.tags@.len(),
            topics == entry@.tags.map_values(|t: Seq<char>| topic_edge(entry@, t)),
            texts(set@) == ordered(done@ + topics.subrange(0, i as int)),
        decreases entry.tags@.len() - i,
    {
        let text = edge(entry.id.as_str(), " -> tag:", entry.tags[i].as_str(), " (topic)");
        proof {
            assert(entry@.tags[i as int] == entry.tags@[i as int]@);
            assert(topics[i as int] == text@);
            assert((done@ + topics.subrange(0, i as int)).push(text@) =~= done@ + topics.subrange(
                0,
                i + 1,
            ));
        }
        add_edge(set, Ghost(done@ + topics.subrange(0, i as int)), text);
        i += 1;
    }
    let ghost so_far = done@ + topics;
    assert(topics.subrange(0, topics.len() as int) =~= topics);
    let mut k: usize = 0;
    assert(so_far + touches.subrange(0, 0) =~= so_far);
    while k < entry.refs.len()
        invariant
            k <= entry.refs@.len(),
            touches == entry@.refs.map_values(|r: Seq<char>| touches_edge(entry@, r)),
            texts(set@) == ordered(so_far + touches.subrange(0, k as int)),
        decreases entry.refs@.len() - k,
    {
        let text = edge(entry.id.as_str(), " -> ref:", entry.refs[k].as_str(), " (touches)");
        proof {
            assert(entry@.refs[k as int] == entry.refs@[k as int]@);
            assert(touches[k as int] == text@);
            assert((so_far + touches.subrange(0, k as int)).push(text@) =~= so_far
                + touches.subrange(0, k + 1));
        }
        add_edge(set, Ghost(so_far + touches.subrange(0, k as int)), text);
        k += 1;
    }
    assert(touches.subrange(0, touches.len() as int) =~= touches);
    assert(so_far + touches =~= done@ + entry_edges(entry@));
}

fn collect_edges(entries: &[ScratchpadEntry]) -> (set: Vec<String>)
    ensures
        texts(set@) == edges_of(entry_views(entries@)),
{
    let ghost all = entry_views(entries@);
    let mut set: Vec<String> = Vec::new();
    let n: usize = entries.len();
    let mut i: usize = 1;
    assert(texts(set@) =~= ordered(Seq::empty()));
    while i < n
        invariant
            n == entries@.len(),
            1 <= i,
            i <= n || n == 0,
            all == entry_views(entries@),
            texts(set@) == ordered(follows_edges(all.subrange(0, if n == 0 { 0 } else { i as int }))),
        decreases n - i,
    {
        let text = edge(
            entries[i - 1].id.as_str(),
            " -> ",
            entries[i].id.as_str(),
            " (follows)",
        );
        let ghost done = follows_edges(all.subrange(0, i as int));
        proof {
            let next = all.subrange(0, i + 1);
            assert(next.drop_last() =~= all.subrange(0, i as int));
            assert(next[next.len() - 2] == entries@[i - 1]@);
            assert(next.last() == entries@[i as int]@);
        }
        add_edge(&mut set, Ghost(done), text);
        i += 1;
    }
    let ghost follows = follows_edges(all);
    assert(n > 0 ==> i == n);
    assert(all.subrange(0, n as int) =~= all);
    let mut k: usize = 0;
    assert(follows + all_entry_edges(all.subrange(0, 0)) =~= follows);
    while k < n
        invariant
            n == entries@.len(),
            k <= n,
            all == entry_views(entries@),
            texts(set@) == ordered(follows + all_entry_edges(all.subrange(0, k as int))),
        decreases n - k,
    {
        let ghost done = follows + all_entry_edges(all.subrange(0, k as int));
        proof {
            let next = all.subrange(0, k + 1);
            assert(next.drop_last() =~= all.subrange(0, k as int));
            assert(next.last() == entries@[k as int]@);
            assert(done + entry_edges(entries@[k as int]@) =~= follows + all_entry_edges(next));
        }
        add_entry_edges(&mut set, Ghost(done), &entries[k]);
        k += 1;
    }
    set
}

/// The edges as they are written: only so many, and a line that says so where there are more.
pub open spec fn edge_lines(edges: Seq<Seq<char>>) -> Seq<Seq<char>> {
    if edges.len() == 0 {
        seq!["- none"@]
    } else if edges.len() <= SCRATCHPAD_MAX_GRAPH_EDGES {
        edges.map_values(|e: Seq<char>| "- "@ + e)
    } else {
        edges.subrange(0, SCRATCHPAD_MAX_GRAPH_EDGES as int).map_values(
            |e: Seq<char>| "- "@ + e,
        ).push("- ..."@)
    }
}

fn write_edges(edges: &Vec<String>) -> (lines: Vec<String>)
    ensures
        texts(lines@) == edge_lines(texts(edges@)),
{
    let ghost all = texts(edges@);
    let mut lines: Vec<String> = Vec::new();
    if edges.len() == 0 {
        push_literal(&mut lines, "- none");
        assert(texts(lines@) =~= seq!["- none"@]);
        return lines;
    }
    let shown: usize = if edges.len() <= SCRATCHPAD_MAX_GRAPH_EDGES {
        edges.len()
    } else {
        SCRATCHPAD_MAX_GRAPH_EDGES
    };
    let mut i: usize = 0;
    while i < shown
        invariant
            i <= shown <= edges@.len(),
            all == texts(edges@),
            lines@.len() == i,
            forall|k: int| 0 <= k < i ==> #[trigger] texts(lines@)[k] == "- "@ + all[k],
        decreases shown - i,
    {
        let ghost before = texts(lines@);
        assert(all[i as int] == edges@[i as int]@);
        push_text(&mut lines, "- ", edges[i].as_str());
        assert(texts(lines@).len() == lines@.len());
        assert forall|k: int| 0 <= k < i + 1 implies #[trigger] texts(lines@)[k] == "- "@
            + all[k] by {
            if k < i {
                assert(texts(lines@)[k] == before[k]);
            }
        }
        i += 1;
    }
    assert(texts(lines@) =~= all.subrange(0, shown as int).map_values(
        |e: Seq<char>| "- "@ + e,
    ));
    if edges.len() > SCRATCHPAD_MAX_GRAPH_EDGES {
        push_literal(&mut lines, "- ...");
    } else {
        assert(all.subrange(0, shown as int) =~= all);
    }
    lines
}

// ---------------------------------------------------------------------------------------------
// The memory.
// ---------------------------------------------------------------------------------------------

/// The newest entries, as many as a memory holds.
pub open spec fn newest(entries: Seq<EntryView>) -> Seq<EntryView> {
    if entries.len() <= SCRATCHPAD_MAX_ENTRIES {
        entries
    } else {
        entries.subrange(entries.len() - SCRATCHPAD_MAX_ENTRIES, entries.len() as int)
    }
}

/// The lines of a memory.
pub open spec fn memory_lines(
    document: DocumentView,
    path: Seq<char>,
    updated_at: Seq<char>,
    fallback: Seq<char>,
) -> Seq<Seq<char>> {
    let entries = newest(document.entries);
    let trail = if entries.len() == 0 {
        seq!["- No CSP entries found."@]
    } else {
        trail_lines(entries)
    };
    let nodes = if entries.len() == 0 {
        seq!["- none"@]
    } else {
        node_lines(entries)
    };
    header_lines(document, path, updated_at, fallback).push("## Scratchpad Trail"@) + trail
        + seq![""@, "## Breadcrumb Graph"@, "Nodes:"@] + nodes + seq!["Edges:"@] + edge_lines(
        edges_of(entries),
    )
}

fn write_trail(lines: &mut Vec<String>, entries: &[ScratchpadEntry])
    ensures
        texts(final(lines)@) == texts(old(lines)@) + trail_lines(entry_views(entries@)),
{
    let ghost start = texts(lines@);
    let ghost all = entry_views(entries@);
    let mut i: usize = 0;
    assert(start + trail_lines(all.subrange(0, 0)) =~= start);
    while i < entries.len()
        invariant
            i <= entries@.len(),
            all == entry_views(entries@),
            texts(lines@) == start + trail_lines(all.subrange(0, i as int)),
        decreases entries@.len() - i,
    {
        proof {
            let next = all.subrange(0, i + 1);
            assert(next.drop_last() =~= all.subrange(0, i as int));
            assert(next.last() == entries@[i as int]@);
            assert(start + trail_lines(next) =~= start + trail_lines(all.subrange(0, i as int))
                + trail_entry(next.last()));
        }
        write_trail_entry(lines, &entries[i]);
        i += 1;
    }
    assert(all.subrange(0, i as int) =~= all);
}

fn write_nodes(lines: &mut Vec<String>, entries: &[ScratchpadEntry])
    ensures
        texts(final(lines)@) == texts(old(lines)@) + node_lines(entry_views(entries@)),
{
    let ghost start = texts(lines@);
    let ghost nodes = node_lines(entry_views(entries@));
    let mut i: usize = 0;
    assert(start + nodes.subrange(0, 0) =~= start);
    while i < entries.len()
        invariant
            i <= entries@.len(),
            nodes == node_lines(entry_views(entries@)),
            texts(lines@) == start + nodes.subrange(0, i as int),
        decreases entries@.len() - i,
    {
        assert(nodes[i as int] == node_line(entries@[i as int]@));
        push_line(lines, write_node(&entries[i]));
        assert((start + nodes.subrange(0, i as int)).push(nodes[i as int]) =~= start
            + nodes.subrange(0, i + 1));
        i += 1;
    }
    assert(nodes.subrange(0, i as int) =~= nodes);
}

/// Writes the memory of a scratchpad: what it is about, the trail of its newest entries and the
/// graph of what they touch. `source_updated_at` is the time of the file, as text.
pub fn build_scratchpad_raw_memory(
    document: &ScratchpadDocument,
    scratchpad_path: &str,
    source_updated_at: &str,
    fallback_title: &str,
) -> (r: String)
    ensures
        r@ == lines_text(
            memory_lines(
                document@,
                scratchpad_path@,
                source_updated_at@,
                fallback_title@,
            ),
        ),
{
    let n: usize = document.entries.len();
    let from: usize = if n <= SCRATCHPAD_MAX_ENTRIES {
        0
    } else {
        n - SCRATCHPAD_MAX_ENTRIES
    };
    let entries = vstd::slice::slice_subrange(document.entries.as_slice(), from, n);
    assert(entry_views(entries@) =~= newest(document@.entries));
    let mut lines = write_header(document, scratchpad_path, source_updated_at, fallback_title);
    push_literal(&mut lines, "## Scratchpad Trail");
    let ghost titled = texts(lines@);
    if entries.len() == 0 {
        push_literal(&mut lines, "- No CSP entries found.");
        assert(texts(lines@) =~= titled + seq!["- No CSP entries found."@]);
    } else {
        write_trail(&mut lines, entries);
    }
    let ghost trailed = texts(lines@);
    push_literal(&mut lines, "");
    push_literal(&mut lines, "## Breadcrumb Graph");
    push_literal(&mut lines, "Nodes:");
    assert(texts(lines@) =~= trailed + seq![""@, "## Breadcrumb Graph"@, "Nodes:"@]);
    let ghost headed = texts(lines@);
    if entries.len() == 0 {
        push_literal(&mut lines, "- none");
        assert(texts(lines@) =~= headed + seq!["- none"@]);
    } else {
        write_nodes(&mut lines, entries);
    }
    let ghost noded = texts(lines@);
    push_literal(&mut lines, "Edges:");
    assert(texts(lines@) =~= noded + seq!["Edges:"@]);
    let mut edges = write_edges(&collect_edges(entries));
    let ghost so_far = texts(lines@);
    let ghost more = texts(edges@);
    lines.append(&mut edges);
    assert(texts(lines@) =~= so_far + more);
    write_lines(&lines)
}

// -- laws -------------------------------------------------------------------------------------

pub proof fn lemma_not_before_itself(a: Seq<char>)
    ensures
        !before(a, a),
    decreases a.len(),
{
    if a.len() > 0 {
        lemma_not_before_itself(a.drop_first());
    }
}

/// Of two different texts one comes before the other, and not the other way round.
pub proof fn law_order_is_total(a: Seq<char>, b: Seq<char>)
    requires
        a != b,
    ensures
        before(a, b) != before(b, a),
    decreases a.len(),
{
    if a.len() > 0 && b.len() > 0 && a[0] == b[0] {
        if a.drop_first() == b.drop_first() {
            assert(a =~= seq![a[0]] + a.drop_first());
            assert(b =~= seq![b[0]] + b.drop_first());
        }
        law_order_is_total(a.drop_first(), b.drop_first());
    } else if a.len() == 0 && b.len() == 0 {
        assert(a =~= b);
    }
}

/// A text that comes before another comes before all that come after that one.
pub proof fn law_order_is_transitive(a: Seq<char>, b: Seq<char>, c: Seq<char>)
    requires
        before(a, b),
        before(b, c),
    ensures
        before(a, c),
    decreases a.len(),
{
    if a.len() > 0 && a[0] == b[0] && b[0] == c[0] {
        law_order_is_transitive(a.drop_first(), b.drop_first(), c.drop_first());
    }
}

/// Each text comes before the next ones.
pub open spec fn ascending(list: Seq<Seq<char>>) -> bool {
    forall|i: int, j: int| 0 <= i < j < list.len() ==> before(#[trigger] list[i], #[trigger] list[j])
}

proof fn lemma_with_text(set: Seq<Seq<char>>, text: Seq<char>)
    requires
        ascending(set),
    ensures
        ascending(with_text(set, text)),
        forall|t: Seq<char>| #[trigger]
            with_text(set, text).contains(t) <==> (set.contains(t) || t == text),
    decreases set.len(),
{
    let r = with_text(set, text);
    if set.len() == 0 {
        assert(r =~= seq![text]);
        assert(r[0] == text);
    } else if set.last() == text {
        assert(set[set.len() - 1] == text);
    } else if before(set.last(), text) {
        assert forall|i: int, j: int| 0 <= i < j < r.len() implies before(
            #[trigger] r[i],
            #[trigger] r[j],
        ) by {
            if j == set.len() && i < set.len() - 1 {
                law_order_is_transitive(set[i], set.last(), text);
            }
        }
        assert forall|t: Seq<char>| #[trigger] r.contains(t) <==> (set.contains(t) || t == text) by {
            if set.contains(t) {
                let k = choose|k: int| 0 <= k < set.len() && set[k] == t;
                assert(r[k] == t);
            }
            assert(r[r.len() - 1] == text);
        }
    } else {
        let front = set.drop_last();
        assert(ascending(front)) by {
            assert forall|i: int, j: int| 0 <= i < j < front.len() implies before(
                #[trigger] front[i],
                #[trigger] front[j],
            ) by {
                assert(before(set[i], set[j]));
            }
        }
        lemma_with_text(front, text);
        let inner = with_text(front, text);
        assert forall|i: int, j: int| 0 <= i < j < r.len() implies before(
            #[trigger] r[i],
            #[trigger] r[j],
        ) by {
            if j == inner.len() {
                assert(inner.contains(inner[i]));
                if inner[i] == text {
                    law_order_is_total(text, set.last());
                } else {
                    let k = choose|k: int| 0 <= k < front.len() && front[k] == inner[i];
                    assert(before(set[k], set[set.len() - 1]));
                }
            } else {
                assert(before(inner[i], inner[j]));
            }
        }
        assert forall|t: Seq<char>| #[trigger] r.contains(t) <==> (set.contains(t) || t == text) by {
            if r.contains(t) {
                let k = choose|k: int| 0 <= k < r.len() && r[k] == t;
                if k < inner.len() {
                    assert(inner[k] == t);
                    assert(inner.contains(t));
                    if front.contains(t) {
                        let m = choose|m: int| 0 <= m < front.len() && front[m] == t;
                        assert(set[m] == t);
                    }
                } else {
                    assert(set[set.len() - 1] == t);
                }
            }
            if set.contains(t) || t == text {
                if t == set.last() {
                    assert(r[r.len() - 1] == t);
                } else {
                    if set.contains(t) {
                        let m = choose|m: int| 0 <= m < set.len() && set[m] == t;
                        assert(front[m] == t);
                        assert(front.contains(t));
                    }
                    assert(inner.contains(t));
                    let k = choose|k: int| 0 <= k < inner.len() && inner[k] == t;
                    assert(r[k] == t);
                }
            }
        }
    }
}

/// The edges of a graph stand in order, each once, and no edge is lost.
pub proof fn law_edges_are_an_ordered_set(list: Seq<Seq<char>>)
    ensures
        ascending(ordered(list)),
        ordered(list).no_duplicates(),
        forall|t: Seq<char>| #[trigger] ordered(list).contains(t) <==> list.contains(t),
    decreases list.len(),
{
    let r = ordered(list);
    if list.len() > 0 {
        let front = list.drop_last();
        law_edges_are_an_ordered_set(front);
        lemma_with_text(ordered(front), list.last());
        assert forall|t: Seq<char>| #[trigger] r.contains(t) <==> list.contains(t) by {
            assert(r.contains(t) <==> (ordered(front).contains(t) || t == list.last()));
            if front.contains(t) {
                let k = choose|k: int| 0 <= k < front.len() && front[k] == t;
                assert(list[k] == t);
            }
            if list.contains(t) {
                let k = choose|k: int| 0 <= k < list.len() && list[k] == t;
                if k < front.len() {
                    assert(front[k] == t);
                }
            }
            assert(list[list.len() - 1] == list.last());
        }
    }
    assert forall|i: int, j: int| 0 <= i < r.len() && 0 <= j < r.len() && i != j implies r[i]
        != r[j] by {
        lemma_not_before_itself(r[i]);
        if i < j {
            assert(before(r[i], r[j]));
        } else {
            assert(before(r[j], r[i]));
        }
    }
}

} // verus!
