//! Scratchpads: the notes that an agent keeps in a repository while it works, and the short
//! summary that stands for one.

use crate::item::option_view;
use crate::rolling_context_filter::same_text;
use crate::text::{
    blank, chars_of, ends_with, has_prefix, has_suffix, is_blank, same_ignoring_case,
    same_text_ignoring_case, starts_with, text_of, texts, trim_text, trimmed,
};
use crate::words::{
    cut_last, cut_once, keep_non_empty, lines, lines_of, non_empty, normalize_inline_text, one_line,
    pieces, rsplit_once, split_once, split_text, words, words_of, Cut,
};
use vstd::prelude::*;
use vstd::string::*;

verus! {

/// How many characters of a text a summary shows.
pub const SCRATCHPAD_MAX_SUMMARY_CHARS: usize = 220;

/// One note.
#[derive(Debug, PartialEq, Eq)]
pub struct ScratchpadEntry {
    pub id: String,
    pub kind: String,
    pub tags: Vec<String>,
    pub text: String,
    pub refs: Vec<String>,
}

pub struct EntryView {
    pub id: Seq<char>,
    pub kind: Seq<char>,
    pub tags: Seq<Seq<char>>,
    pub text: Seq<char>,
    pub refs: Seq<Seq<char>>,
}

impl View for ScratchpadEntry {
    type V = EntryView;

    open spec fn view(&self) -> EntryView {
        EntryView {
            id: self.id@,
            kind: self.kind@,
            tags: texts(self.tags@),
            text: self.text@,
            refs: texts(self.refs@),
        }
    }
}

pub open spec fn entry_views(entries: Seq<ScratchpadEntry>) -> Seq<EntryView> {
    entries.map_values(|e: ScratchpadEntry| e@)
}

/// What a scratchpad holds.
#[derive(Debug, PartialEq, Eq)]
pub struct ScratchpadDocument {
    pub task: Option<String>,
    pub session_id: Option<String>,
    pub created_at: Option<String>,
    pub entries: Vec<ScratchpadEntry>,
}

pub struct DocumentView {
    pub task: Option<Seq<char>>,
    pub session_id: Option<Seq<char>>,
    pub created_at: Option<Seq<char>>,
    pub entries: Seq<EntryView>,
}

impl View for ScratchpadDocument {
    type V = DocumentView;

    open spec fn view(&self) -> DocumentView {
        DocumentView {
            task: option_view(self.task),
            session_id: option_view(self.session_id),
            created_at: option_view(self.created_at),
            entries: entry_views(self.entries@),
        }
    }
}

pub open spec fn empty_document() -> DocumentView {
    DocumentView { task: None, session_id: None, created_at: None, entries: Seq::empty() }
}

impl Default for ScratchpadDocument {
    fn default() -> (r: Self)
        ensures
            r@ == empty_document(),
    {
        let r = ScratchpadDocument {
            task: None,
            session_id: None,
            created_at: None,
            entries: Vec::new(),
        };
        assert(entry_views(r.entries@) =~= Seq::<EntryView>::empty());
        r
    }
}

// ---------------------------------------------------------------------------------------------
// Entries.
// ---------------------------------------------------------------------------------------------

/// The texts, each without the white space around it.
pub open spec fn all_trimmed(list: Seq<Seq<char>>) -> Seq<Seq<char>> {
    list.map_values(|t: Seq<char>| trimmed(t))
}

/// The references that a list names.
pub open spec fn refs_of(body: Seq<char>) -> Seq<Seq<char>> {
    non_empty(all_trimmed(pieces(body, Cut::At(','))))
}

fn parse_refs(body: &str) -> (r: Vec<String>)
    ensures
        texts(r@) == refs_of(body@),
{
    let parts = split_text(body, Cut::At(','));
    let ghost all = texts(parts@);
    let mut cleaned: Vec<String> = Vec::new();
    let mut i: usize = 0;
    while i < parts.len()
        invariant
            i <= parts@.len(),
            cleaned@.len() == i,
            all == texts(parts@),
            forall|k: int| 0 <= k < i ==> (#[trigger] cleaned@[k])@ == trimmed(all[k]),
        decreases parts@.len() - i,
    {
        assert(all[i as int] == parts@[i as int]@);
        cleaned.push(trim_text(parts[i].as_str()));
        i += 1;
    }
    assert(texts(cleaned@) =~= all_trimmed(all));
    keep_non_empty(cleaned)
}

/// The text of an entry, on one line, and the references that stand in brackets at its end.
pub open spec fn text_and_refs(s: Seq<char>) -> (Seq<char>, Seq<Seq<char>>) {
    match cut_last(s, " (refs: "@) {
        Some((body, rest)) => if has_suffix(rest, ")"@) {
            (one_line(body), refs_of(rest.drop_last()))
        } else {
            (one_line(s), Seq::empty())
        },
        None => (one_line(s), Seq::empty()),
    }
}

pub fn split_scratchpad_entry_text_and_refs(text: &str) -> (r: (String, Vec<String>))
    ensures
        (r.0@, texts(r.1@)) == text_and_refs(text@),
{
    if let Some((body, rest)) = rsplit_once(text, " (refs: ") {
        if ends_with(rest.as_str(), ")") {
            proof {
                reveal_strlit(")");
            }
            let chars = chars_of(rest.as_str());
            let n: usize = chars.len();
            assert(chars@.subrange(0, n - 1) =~= rest@.drop_last());
            let refs_body = text_of(chars.as_slice(), 0, n - 1);
            return (normalize_inline_text(body.as_str()), parse_refs(refs_body.as_str()));
        }
    }
    let none: Vec<String> = Vec::new();
    assert(texts(none@) =~= Seq::<Seq<char>>::empty());
    (normalize_inline_text(text), none)
}

/// A word that begins with `#` and goes on is a tag.
pub open spec fn is_tag(word: Seq<char>) -> bool {
    word.len() > 1 && word[0] == '#'
}

/// The tags among the words from `from` on, without their `#`.
pub open spec fn tags_of(list: Seq<Seq<char>>, from: int) -> Seq<Seq<char>>
    decreases list.len(),
{
    if list.len() <= from || list.len() == 0 {
        Seq::empty()
    } else {
        let before = tags_of(list.drop_last(), from);
        if is_tag(list.last()) {
            before.push(list.last().subrange(1, list.last().len() as int))
        } else {
            before
        }
    }
}

fn parse_tags(parts: &Vec<String>, from: usize) -> (r: Vec<String>)
    requires
        from <= parts@.len(),
    ensures
        texts(r@) == tags_of(texts(parts@), from as int),
{
    let ghost all = texts(parts@);
    let mut tags: Vec<String> = Vec::new();
    let mut i: usize = from;
    assert(texts(tags@) =~= tags_of(all.subrange(0, from as int), from as int));
    while i < parts.len()
        invariant
            from <= i <= parts@.len(),
            all == texts(parts@),
            texts(tags@) == tags_of(all.subrange(0, i as int), from as int),
        decreases parts@.len() - i,
    {
        proof {
            let next = all.subrange(0, i + 1);
            assert(next.drop_last() =~= all.subrange(0, i as int));
            assert(next.last() == parts@[i as int]@);
        }
        let chars = chars_of(parts[i].as_str());
        if chars.len() > 1 && chars[0] == '#' {
            let ghost before = texts(tags@);
            let tag = text_of(chars.as_slice(), 1, chars.len());
            tags.push(tag);
            assert(texts(tags@) =~= before.push(tag@));
        }
        i += 1;
    }
    assert(all.subrange(0, i as int) =~= all);
    tags
}

/// The entry that a line holds: `- CSP#<id> <kind> #<tags> :: <text> (refs: <references>)`.
pub open spec fn entry_of(line: Seq<char>) -> Option<EntryView> {
    if !has_prefix(line, "- "@) {
        None
    } else {
        match cut_once(line.subrange(2, line.len() as int), " :: "@) {
            None => None,
            Some((prefix, rest)) => {
                let parts = words(prefix);
                let (text, refs) = text_and_refs(trimmed(rest));
                if parts.len() < 2 || !has_prefix(parts[0], "CSP#"@) || text.len() == 0 {
                    None
                } else {
                    Some(
                        EntryView {
                            id: parts[0],
                            kind: parts[1],
                            tags: tags_of(parts, 2),
                            text,
                            refs,
                        },
                    )
                }
            },
        }
    }
}

pub open spec fn option_entry(entry: Option<ScratchpadEntry>) -> Option<EntryView> {
    match entry {
        Some(entry) => Some(entry@),
        None => None,
    }
}

pub fn parse_scratchpad_entry(line: &str) -> (r: Option<ScratchpadEntry>)
    ensures
        option_entry(r) == entry_of(line@),
{
    if !starts_with(line, "- ") {
        return None;
    }
    proof {
        reveal_strlit("- ");
    }
    let chars = chars_of(line);
    let payload = text_of(chars.as_slice(), 2, chars.len());
    match split_once(payload.as_str(), " :: ") {
        None => None,
        Some((prefix, rest)) => {
            let parts = words_of(prefix.as_str());
            assert(texts(parts@).len() == parts@.len());
            if parts.len() < 2 {
                return None;
            }
            assert(texts(parts@)[0] == parts@[0]@ && texts(parts@)[1] == parts@[1]@);
            if !starts_with(parts[0].as_str(), "CSP#") {
                return None;
            }
            let rest = trim_text(rest.as_str());
            let (text, refs) = split_scratchpad_entry_text_and_refs(rest.as_str());
            if text.as_str().is_empty() {
                return None;
            }
            Some(
                ScratchpadEntry {
                    id: parts[0].as_str().to_owned(),
                    kind: parts[1].as_str().to_owned(),
                    tags: parse_tags(&parts, 2),
                    text,
                    refs,
                },
            )
        },
    }
}

// ---------------------------------------------------------------------------------------------
// Documents.
// ---------------------------------------------------------------------------------------------

/// One line more: an entry, or a value for one of the known keys.
pub open spec fn read_line(document: DocumentView, line: Seq<char>) -> DocumentView {
    let line = trimmed(line);
    match entry_of(line) {
        Some(entry) => DocumentView { entries: document.entries.push(entry), ..document },
        None => match cut_once(line, ":"@) {
            None => document,
            Some((key, value)) => {
                let key = trimmed(key);
                let value = trimmed(value);
                if value.len() == 0 {
                    document
                } else if key == "task"@ {
                    DocumentView { task: Some(value), ..document }
                } else if key == "session_id"@ {
                    DocumentView { session_id: Some(value), ..document }
                } else if key == "created_at"@ {
                    DocumentView { created_at: Some(value), ..document }
                } else {
                    document
                }
            },
        },
    }
}

/// What the lines up to `upto` say; the first line is the header.
pub open spec fn read_lines(all: Seq<Seq<char>>, upto: int) -> DocumentView
    decreases upto,
{
    if upto <= 1 {
        empty_document()
    } else {
        read_line(read_lines(all, upto - 1), all[upto - 1])
    }
}

/// A scratchpad begins with its header.
pub open spec fn document_of(contents: Seq<char>) -> Option<DocumentView> {
    let all = lines(contents);
    if all.len() == 0 || trimmed(all[0]) != "# Codex Scratchpad"@ {
        None
    } else {
        Some(read_lines(all, all.len() as int))
    }
}

fn take_line(document: &mut ScratchpadDocument, line: &str)
    ensures
        final(document)@ == read_line(old(document)@, line@),
{
    let line = trim_text(line);
    if let Some(entry) = parse_scratchpad_entry(line.as_str()) {
        let ghost before = entry_views(document.entries@);
        document.entries.push(entry);
        assert(entry_views(document.entries@) =~= before.push(entry@));
        return;
    }
    if let Some((key, value)) = split_once(line.as_str(), ":") {
        let key = trim_text(key.as_str());
        let value = trim_text(value.as_str());
        if value.as_str().is_empty() {
            return;
        }
        if same_text(key.as_str(), "task") {
            document.task = Some(value);
        } else if same_text(key.as_str(), "session_id") {
            document.session_id = Some(value);
        } else if same_text(key.as_str(), "created_at") {
            document.created_at = Some(value);
        }
    }
}

pub open spec fn option_document(document: Option<ScratchpadDocument>) -> Option<DocumentView> {
    match document {
        Some(document) => Some(document@),
        None => None,
    }
}

pub fn parse_scratchpad_document(contents: &str) -> (r: Option<ScratchpadDocument>)
    ensures
        option_document(r) == document_of(contents@),
{
    let all = lines_of(contents);
    let ghost expected = lines(contents@);
    assert(texts(all@).len() == all@.len());
    if all.len() == 0 {
        return None;
    }
    assert(expected[0] == all@[0]@);
    let header = trim_text(all[0].as_str());
    if !same_text(header.as_str(), "# Codex Scratchpad") {
        return None;
    }
    let mut document = ScratchpadDocument::default();
    let mut i: usize = 1;
    while i < all.len()
        invariant
            1 <= i <= all@.len(),
            expected == texts(all@),
            document@ == read_lines(expected, i as int),
        decreases all@.len() - i,
    {
        assert(expected[i as int] == all@[i as int]@);
        take_line(&mut document, all[i].as_str());
        i += 1;
    }
    Some(document)
}

/// A file with these contents is a scratchpad.
pub fn is_scratchpad(contents: &str) -> (r: bool)
    ensures
        r == has_prefix(contents@, "# Codex Scratchpad"@),
{
    starts_with(contents, "# Codex Scratchpad")
}

// ---------------------------------------------------------------------------------------------
// The summary.
// ---------------------------------------------------------------------------------------------

/// The value of a field in a text of the form `name=value | name=value`: the first that is not
/// empty.
pub open spec fn field_in(parts: Seq<Seq<char>>, name: Seq<char>, from: int) -> Option<Seq<char>>
    decreases parts.len() - from,
{
    if from < 0 || from >= parts.len() {
        None
    } else {
        match field_value(parts[from], name) {
            Some(value) => Some(value),
            None => field_in(parts, name, from + 1),
        }
    }
}

/// The value of one part, if it is the named field and has a value.
pub open spec fn field_value(part: Seq<char>, name: Seq<char>) -> Option<Seq<char>> {
    match cut_once(trimmed(part), "="@) {
        None => None,
        Some((key, value)) => {
            let value = one_line(trimmed(value));
            if same_ignoring_case(trimmed(key), name) && value.len() > 0 {
                Some(value)
            } else {
                None
            }
        },
    }
}

pub open spec fn lot_field(text: Seq<char>, name: Seq<char>) -> Option<Seq<char>> {
    field_in(pieces(text, Cut::At('|')), name, 0)
}

pub fn parse_lot_field(text: &str, field_name: &str) -> (r: Option<String>)
    ensures
        option_view(r) == lot_field(text@, field_name@),
{
    let parts = split_text(text, Cut::At('|'));
    let ghost all = texts(parts@);
    let mut i: usize = 0;
    while i < parts.len()
        invariant
            i <= parts@.len(),
            all == texts(parts@),
            all == pieces(text@, Cut::At('|')),
            field_in(all, field_name@, 0) == field_in(all, field_name@, i as int),
        decreases parts@.len() - i,
    {
        assert(all[i as int] == parts@[i as int]@);
        let part = trim_text(parts[i].as_str());
        if let Some((key, value)) = split_once(part.as_str(), "=") {
            let key = trim_text(key.as_str());
            if same_text_ignoring_case(key.as_str(), field_name) {
                let value = trim_text(value.as_str());
                let value = normalize_inline_text(value.as_str());
                if !value.as_str().is_empty() {
                    return Some(value);
                }
            }
        }
        i += 1;
    }
    None
}

/// At most `max_chars` characters of the text on one line; three dots stand for the rest.
pub open spec fn shortened(text: Seq<char>, max_chars: nat) -> Seq<char> {
    let line = one_line(text);
    if line.len() <= max_chars {
        line
    } else {
        line.subrange(0, max_chars as int) + "..."@
    }
}

pub fn truncate_for_summary(text: &str, max_chars: usize) -> (r: String)
    ensures
        r@ == shortened(text@, max_chars as nat),
{
    let line = normalize_inline_text(text);
    let chars = chars_of(line.as_str());
    if chars.len() <= max_chars {
        return line;
    }
    let mut short = text_of(chars.as_slice(), 0, max_chars);
    short.append("...");
    short
}

/// The title of a scratchpad: its task, if that is named.
pub open spec fn title_of(document: DocumentView, fallback: Seq<char>) -> Seq<char> {
    match document.task {
        Some(task) => if blank(task) {
            fallback
        } else {
            task
        },
        None => fallback,
    }
}

pub fn scratchpad_title(document: &ScratchpadDocument, fallback_title: &str) -> (r: String)
    ensures
        r@ == title_of(document@, fallback_title@),
{
    match &document.task {
        Some(task) => if is_blank(task.as_str()) {
            fallback_title.to_owned()
        } else {
            task.as_str().to_owned()
        },
        None => fallback_title.to_owned(),
    }
}

pub open spec fn open_summary(title: Seq<char>) -> Seq<char> {
    "Scratchpad `"@ + title + "`"@
}

/// The summary of a `LOT` entry: what was validated, and what comes next.
pub open spec fn lot_summary(
    title: Seq<char>,
    conclusion: Option<Seq<char>>,
    next: Option<Seq<char>>,
) -> Seq<char> {
    let start = open_summary(title);
    let middle = match conclusion {
        Some(text) => start + " validated: "@ + shortened(
            text,
            SCRATCHPAD_MAX_SUMMARY_CHARS as nat,
        ),
        None => start,
    };
    match next {
        Some(text) => middle + "; next: "@ + shortened(text, SCRATCHPAD_MAX_SUMMARY_CHARS as nat),
        None => middle,
    }
}

/// The summary of a scratchpad is that of its latest entry.
pub open spec fn rollout_summary(document: DocumentView, fallback: Seq<char>) -> Seq<char> {
    let title = title_of(document, fallback);
    if document.entries.len() == 0 {
        open_summary(title) + ": no CSP entries recorded yet."@
    } else {
        let latest = document.entries.last();
        let conclusion = lot_field(latest.text, "conc"@);
        let next = lot_field(latest.text, "next"@);
        if same_ignoring_case(latest.kind, "LOT"@) && (conclusion is Some || next is Some) {
            lot_summary(title, conclusion, next)
        } else {
            open_summary(title) + " latest "@ + latest.kind + ": "@ + shortened(
                latest.text,
                SCRATCHPAD_MAX_SUMMARY_CHARS as nat,
            )
        }
    }
}

pub fn build_scratchpad_rollout_summary(document: &ScratchpadDocument, fallback_title: &str) -> (r:
    String)
    ensures
        r@ == rollout_summary(document@, fallback_title@),
{
    let title = scratchpad_title(document, fallback_title);
    let mut summary = String::from_str("Scratchpad `");
    summary.append(title.as_str());
    summary.append("`");
    let n: usize = document.entries.len();
    assert(document@.entries.len() == n);
    if n == 0 {
        summary.append(": no CSP entries recorded yet.");
        return summary;
    }
    let latest = &document.entries[n - 1];
    assert(document@.entries.last() == latest@);
    if same_text_ignoring_case(latest.kind.as_str(), "LOT") {
        let conclusion = parse_lot_field(latest.text.as_str(), "conc");
        let next = parse_lot_field(latest.text.as_str(), "next");
        if conclusion.is_some() || next.is_some() {
            if let Some(conclusion) = conclusion {
                summary.append(" validated: ");
                summary.append(
                    truncate_for_summary(
                        conclusion.as_str(),
                        SCRATCHPAD_MAX_SUMMARY_CHARS,
                    ).as_str(),
                );
            }
            if let Some(next) = next {
                summary.append("; next: ");
                summary.append(
                    truncate_for_summary(next.as_str(), SCRATCHPAD_MAX_SUMMARY_CHARS).as_str(),
                );
            }
            return summary;
        }
    }
    summary.append(" latest ");
    summary.append(latest.kind.as_str());
    summary.append(": ");
    summary.append(
        truncate_for_summary(latest.text.as_str(), SCRATCHPAD_MAX_SUMMARY_CHARS).as_str(),
    );
    summary
}

/// The short name of a scratchpad, if it has a title.
pub open spec fn slug_of(document: DocumentView, fallback: Seq<char>) -> Option<Seq<char>> {
    let title = trimmed(title_of(document, fallback));
    if title.len() == 0 {
        None
    } else {
        Some("scratchpad-"@ + title)
    }
}

pub fn scratchpad_rollout_slug(document: &ScratchpadDocument, fallback_title: &str) -> (r: Option<
    String,
>)
    ensures
        option_view(r) == slug_of(document@, fallback_title@),
{
    let title = scratchpad_title(document, fallback_title);
    let title = trim_text(title.as_str());
    if title.as_str().is_empty() {
        return None;
    }
    let mut slug = String::from_str("scratchpad-");
    slug.append(title.as_str());
    Some(slug)
}

/// The name of a file without its extension: what stands before the last dot, unless that is the
/// first character or there is none.
pub open spec fn stem_of(name: Seq<char>) -> Seq<char> {
    match cut_last(name, "."@) {
        Some((stem, _)) => if stem.len() == 0 {
            name
        } else {
            stem
        },
        None => name,
    }
}

pub open spec fn title_from_name(name: Option<Seq<char>>) -> Seq<char> {
    match name {
        Some(name) => if stem_of(name).len() > 0 {
            stem_of(name)
        } else {
            "scratchpad"@
        },
        None => "scratchpad"@,
    }
}

/// The title that a scratchpad has from its path; `file_name` is the last component of the path.
pub fn scratchpad_title_from_path(file_name: Option<&str>) -> (r: String)
    ensures
        r@ == title_from_name(
            match file_name {
                Some(name) => Some(name@),
                None => None,
            },
        ),
{
    if let Some(name) = file_name {
        let stem = match rsplit_once(name, ".") {
            Some((stem, _)) => if stem.as_str().is_empty() {
                name.to_owned()
            } else {
                stem
            },
            None => name.to_owned(),
        };
        if !stem.as_str().is_empty() {
            return stem;
        }
    }
    String::from_str("scratchpad")
}

} // verus!
