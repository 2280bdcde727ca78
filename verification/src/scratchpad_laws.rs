//! What holds of reading scratchpads.

use crate::scratchpad::{
    all_trimmed, entry_of, is_tag, read_line, refs_of, tags_of, text_and_refs, DocumentView,
    EntryView,
};
use crate::text::{
    has_prefix, has_suffix, joined, occurs_at, occurs_in, trimmed, trimmed_end, trimmed_start,
    white_space,
};
use crate::words::{
    all_words, first_from, is_word, last_before, lemma_pieces_of_joined, lemma_words_stay,
    non_empty, one_line, pieces, words, Cut,
};
use vstd::prelude::*;
use vstd::string::*;

verus! {

// ---------------------------------------------------------------------------------------------
// Writing an entry.
// ---------------------------------------------------------------------------------------------

/// The words in front of an entry's text.
pub open spec fn entry_words(entry: EntryView) -> Seq<Seq<char>> {
    seq![entry.id, entry.kind] + entry.tags.map_values(|t: Seq<char>| "#"@ + t)
}

/// How the references of an entry are written.
pub open spec fn refs_text(refs: Seq<Seq<char>>) -> Seq<char> {
    if refs.len() == 0 {
        Seq::empty()
    } else {
        " (refs: "@ + (joined(refs, ", "@) + ")"@)
    }
}

/// The line of an entry.
pub open spec fn entry_line(entry: EntryView) -> Seq<char> {
    "- "@ + (joined(entry_words(entry), " "@) + " "@ + (":: "@ + (entry.text + refs_text(
        entry.refs,
    ))))
}

/// A reference that can be written: it has no white space around it, no comma and no bracket.
pub open spec fn plain_ref(reference: Seq<char>) -> bool {
    &&& reference.len() > 0
    &&& trimmed(reference) == reference
    &&& forall|i: int| 0 <= i < reference.len() ==> #[trigger] reference[i] != ',' && reference[i]
        != '('
}

/// An entry that can be written on one line.
pub open spec fn plain_entry(entry: EntryView) -> bool {
    &&& is_word(entry.id)
    &&& has_prefix(entry.id, "CSP#"@)
    &&& is_word(entry.kind)
    &&& entry.kind != "::"@
    &&& forall|k: int| 0 <= k < entry.tags.len() ==> is_word(#[trigger] entry.tags[k])
    &&& entry.text.len() > 0
    &&& one_line(entry.text) == entry.text
    &&& !occurs_in(entry.text, " (refs: "@)
    &&& forall|k: int| 0 <= k < entry.refs.len() ==> plain_ref(#[trigger] entry.refs[k])
}

// ---------------------------------------------------------------------------------------------
// The words in front.
// ---------------------------------------------------------------------------------------------

/// No word is the separator.
spec fn no_separator(list: Seq<Seq<char>>) -> bool {
    forall|k: int| 0 <= k < list.len() ==> #[trigger] list[k] != "::"@
}

proof fn lemma_no_early_separator(list: Seq<Seq<char>>, tail: Seq<char>, p: int)
    requires
        list.len() > 0,
        all_words(list),
        no_separator(list),
        0 <= p < joined(list, " "@).len(),
    ensures
        !occurs_at(joined(list, " "@) + " "@ + tail, " :: "@, p),
    decreases list.len(),
{
    reveal_strlit(" ");
    reveal_strlit("::");
    reveal_strlit(" :: ");
    let text = joined(list, " "@) + " "@ + tail;
    let last = list.last();
    assert(is_word(list[list.len() - 1]));
    assert(list[list.len() - 1] != "::"@);
    assert(white_space(' '));
    if occurs_at(text, " :: "@, p) {
        let here = text.subrange(p, p + 4);
        assert(here[0] == ' ' && here[1] == ':' && here[2] == ':' && here[3] == ' ');
        assert(text[p] == ' ' && text[p + 1] == ':' && text[p + 2] == ':' && text[p + 3] == ' ');
        if list.len() == 1 {
            assert(text[p] == last[p]);
        } else {
            let front = list.drop_last();
            let start = joined(front, " "@);
            assert forall|k: int| 0 <= k < front.len() implies is_word(#[trigger] front[k]) by {
                assert(front[k] == list[k]);
            }
            assert forall|k: int| 0 <= k < front.len() implies #[trigger] front[k] != "::"@ by {
                assert(front[k] == list[k]);
            }
            assert(text =~= start + " "@ + (last + " "@ + tail));
            if p < start.len() {
                lemma_no_early_separator(front, last + " "@ + tail, p);
            } else if p == start.len() {
                // The word after the space is the separator itself.
                assert forall|i: int| 0 <= i < last.len() implies text[p + 1 + i]
                    == #[trigger] last[i] by {}
                assert(text[p + 1 + last.len()] == ' ');
                if last.len() == 1 {
                    assert(text[p + 2] == ' ');
                } else if last.len() > 2 {
                    assert(text[p + 3] == last[2]);
                } else {
                    assert(last[0] == ':' && last[1] == ':');
                    assert(last =~= "::"@);
                }
            } else {
                assert(text[p] == last[p - start.len() - 1]);
            }
        }
    }
}

proof fn lemma_first_from(s: Seq<char>, part: Seq<char>, from: int, at: int)
    requires
        0 <= from <= at,
        occurs_at(s, part, at),
        forall|k: int| from <= k < at ==> !occurs_at(s, part, k),
    ensures
        first_from(s, part, from) == Some(at),
    decreases at - from,
{
    if from < at {
        assert(!occurs_at(s, part, from));
        lemma_first_from(s, part, from + 1, at);
    }
}

proof fn lemma_last_before(s: Seq<char>, part: Seq<char>, end: int, at: int)
    requires
        0 <= at < end,
        occurs_at(s, part, at),
        forall|k: int| at < k < end ==> !occurs_at(s, part, k),
    ensures
        last_before(s, part, end) == Some(at),
    decreases end,
{
    if at < end - 1 {
        assert(!occurs_at(s, part, end - 1));
        lemma_last_before(s, part, end - 1, at);
    }
}

proof fn lemma_nowhere(s: Seq<char>, part: Seq<char>, end: int)
    requires
        !occurs_in(s, part),
    ensures
        last_before(s, part, end) is None,
    decreases end,
{
    if end > 0 {
        assert(!occurs_at(s, part, end - 1));
        lemma_nowhere(s, part, end - 1);
    }
}

proof fn lemma_tags(id: Seq<char>, kind: Seq<char>, tags: Seq<Seq<char>>)
    requires
        forall|k: int| 0 <= k < tags.len() ==> is_word(#[trigger] tags[k]),
    ensures
        tags_of(seq![id, kind] + tags.map_values(|t: Seq<char>| "#"@ + t), 2) == tags,
    decreases tags.len(),
{
    reveal_strlit("#");
    let marked = tags.map_values(|t: Seq<char>| "#"@ + t);
    let all = seq![id, kind] + marked;
    if tags.len() == 0 {
        assert(tags_of(all, 2) =~= tags);
    } else {
        let front = tags.drop_last();
        assert forall|k: int| 0 <= k < front.len() implies is_word(#[trigger] front[k]) by {
            assert(front[k] == tags[k]);
        }
        lemma_tags(id, kind, front);
        let last = tags.last();
        assert(is_word(tags[tags.len() - 1]));
        assert(all.drop_last() =~= seq![id, kind] + front.map_values(|t: Seq<char>| "#"@ + t));
        assert(all.last() == "#"@ + last);
        assert(is_tag(all.last()));
        assert(all.last().subrange(1, all.last().len() as int) =~= last);
        assert(front.push(last) =~= tags);
    }
}

// ---------------------------------------------------------------------------------------------
// White space around a text.
// ---------------------------------------------------------------------------------------------

proof fn lemma_solid_ends(s: Seq<char>)
    requires
        s.len() > 0,
        !white_space(s[0]),
        !white_space(s.last()),
    ensures
        trimmed(s) == s,
{
    assert(trimmed_start(s) == s);
    assert(trimmed_end(s) == s);
}

/// Text on one line begins and ends with a word.
proof fn lemma_one_line_ends(s: Seq<char>)
    requires
        s.len() > 0,
        one_line(s) == s,
    ensures
        !white_space(s[0]),
        !white_space(s.last()),
{
    crate::words::law_words_are_words(s);
    let list = words(s);
    lemma_joined_ends(list);
}

proof fn lemma_joined_ends(list: Seq<Seq<char>>)
    requires
        all_words(list),
        joined(list, " "@).len() > 0,
    ensures
        !white_space(joined(list, " "@)[0]),
        !white_space(joined(list, " "@).last()),
    decreases list.len(),
{
    reveal_strlit(" ");
    if list.len() > 0 {
        let last = list.last();
        assert(is_word(list[list.len() - 1]));
        if list.len() > 1 {
            let front = list.drop_last();
            assert forall|k: int| 0 <= k < front.len() implies is_word(#[trigger] front[k]) by {
                assert(front[k] == list[k]);
            }
            assert(is_word(front[0]));
            lemma_joined_len(front);
            lemma_joined_ends(front);
        }
    }
}

proof fn lemma_joined_len(list: Seq<Seq<char>>)
    requires
        list.len() > 0,
        all_words(list),
    ensures
        joined(list, " "@).len() > 0,
{
    assert(is_word(list[list.len() - 1]));
}

// ---------------------------------------------------------------------------------------------
// References.
// ---------------------------------------------------------------------------------------------

proof fn lemma_pieces_without_cut(s: Seq<char>, more: Seq<char>, at: char)
    requires
        forall|i: int| 0 <= i < more.len() ==> #[trigger] more[i] != at,
    ensures
        pieces(s + more, Cut::At(at)) == pieces(s, Cut::At(at)).drop_last().push(
            pieces(s, Cut::At(at)).last() + more,
        ),
        pieces(s, Cut::At(at)).len() > 0,
    decreases more.len(),
{
    let before = pieces(s, Cut::At(at));
    crate::words::lemma_some_piece(s, Cut::At(at));
    if more.len() == 0 {
        assert(s + more =~= s);
        assert(before.last() + more =~= before.last());
        assert(before.drop_last().push(before.last()) =~= before);
    } else {
        let front = more.drop_last();
        assert forall|i: int| 0 <= i < front.len() implies #[trigger] front[i] != at by {
            assert(front[i] == more[i]);
        }
        lemma_pieces_without_cut(s, front, at);
        assert((s + more).drop_last() =~= s + front);
        assert((s + more).last() == more[more.len() - 1]);
        let middle = before.drop_last().push(before.last() + front);
        assert(middle.drop_last() =~= before.drop_last());
        assert((before.last() + front).push(more.last()) =~= before.last() + more);
    }
}

/// The references between commas, with a space before each but the first.
spec fn spaced(refs: Seq<Seq<char>>) -> Seq<Seq<char>> {
    Seq::new(
        refs.len(),
        |k: int|
            if k == 0 {
                refs[0]
            } else {
                " "@ + refs[k]
            },
    )
}

proof fn lemma_ref_pieces(refs: Seq<Seq<char>>)
    requires
        refs.len() > 0,
        forall|k: int| 0 <= k < refs.len() ==> plain_ref(#[trigger] refs[k]),
    ensures
        pieces(joined(refs, ", "@), Cut::At(',')) == spaced(refs),
    decreases refs.len(),
{
    reveal_strlit(", ");
    reveal_strlit(" ");
    let last = refs.last();
    assert(plain_ref(refs[refs.len() - 1]));
    let none = Seq::<char>::empty();
    if refs.len() == 1 {
        lemma_pieces_without_cut(none, last, ',');
        assert(pieces(none, Cut::At(',')) =~= seq![none]);
        assert(none + last =~= last);
        assert(pieces(last, Cut::At(',')) =~= spaced(refs));
    } else {
        let front = refs.drop_last();
        assert forall|k: int| 0 <= k < front.len() implies plain_ref(#[trigger] front[k]) by {
            assert(front[k] == refs[k]);
        }
        lemma_ref_pieces(front);
        let start = joined(front, ", "@);
        let comma = start.push(',');
        assert(comma.drop_last() =~= start);
        assert(pieces(comma, Cut::At(',')) == spaced(front).push(none));
        let rest = " "@ + last;
        assert forall|i: int| 0 <= i < rest.len() implies #[trigger] rest[i] != ',' by {
            if i > 0 {
                assert(rest[i] == last[i - 1]);
            }
        }
        lemma_pieces_without_cut(comma, rest, ',');
        assert(start + ", "@ + last =~= comma + rest);
        assert(spaced(front).push(none).drop_last() =~= spaced(front));
        assert(none + rest =~= rest);
        assert(spaced(front).push(rest) =~= spaced(refs));
    }
}

proof fn lemma_trim_spaced(reference: Seq<char>)
    requires
        plain_ref(reference),
    ensures
        trimmed(" "@ + reference) == reference,
{
    reveal_strlit(" ");
    let text = " "@ + reference;
    assert(white_space(text[0]));
    assert(text.subrange(1, text.len() as int) =~= reference);
    assert(text.drop_first() =~= reference);
}

proof fn lemma_all_non_empty(list: Seq<Seq<char>>)
    requires
        forall|k: int| 0 <= k < list.len() ==> (#[trigger] list[k]).len() > 0,
    ensures
        non_empty(list) == list,
    decreases list.len(),
{
    if list.len() > 0 {
        let front = list.drop_last();
        assert forall|k: int| 0 <= k < front.len() implies (#[trigger] front[k]).len() > 0 by {
            assert(front[k] == list[k]);
        }
        lemma_all_non_empty(front);
        assert(list[list.len() - 1].len() > 0);
        assert(front.push(list.last()) =~= list);
    } else {
        assert(non_empty(list) =~= list);
    }
}

proof fn lemma_refs_read_back(refs: Seq<Seq<char>>)
    requires
        refs.len() > 0,
        forall|k: int| 0 <= k < refs.len() ==> plain_ref(#[trigger] refs[k]),
    ensures
        refs_of(joined(refs, ", "@)) == refs,
{
    lemma_ref_pieces(refs);
    assert forall|k: int| 0 <= k < refs.len() implies trimmed(#[trigger] spaced(refs)[k])
        == refs[k] by {
        assert(plain_ref(refs[k]));
        if k > 0 {
            lemma_trim_spaced(refs[k]);
        }
    }
    assert(all_trimmed(spaced(refs)) =~= refs);
    assert forall|k: int| 0 <= k < refs.len() implies (#[trigger] refs[k]).len() > 0 by {
        assert(plain_ref(refs[k]));
    }
    lemma_all_non_empty(refs);
}

proof fn lemma_no_bracket(refs: Seq<Seq<char>>, i: int)
    requires
        forall|k: int| 0 <= k < refs.len() ==> plain_ref(#[trigger] refs[k]),
        0 <= i < joined(refs, ", "@).len(),
    ensures
        joined(refs, ", "@)[i] != '(',
    decreases refs.len(),
{
    reveal_strlit(", ");
    if refs.len() > 0 {
        let last = refs.last();
        assert(plain_ref(refs[refs.len() - 1]));
        if refs.len() == 1 {
            assert(joined(refs, ", "@)[i] == last[i]);
        } else {
            let front = refs.drop_last();
            let start = joined(front, ", "@);
            assert forall|k: int| 0 <= k < front.len() implies plain_ref(#[trigger] front[k]) by {
                assert(front[k] == refs[k]);
            }
            if i < start.len() {
                lemma_no_bracket(front, i);
            } else if i >= start.len() + 2 {
                assert(joined(refs, ", "@)[i] == last[i - start.len() - 2]);
            }
        }
    }
}

proof fn lemma_text_reads_back(text: Seq<char>, refs: Seq<Seq<char>>)
    requires
        text.len() > 0,
        one_line(text) == text,
        !occurs_in(text, " (refs: "@),
        forall|k: int| 0 <= k < refs.len() ==> plain_ref(#[trigger] refs[k]),
    ensures
        text_and_refs(trimmed(text + refs_text(refs))) == (text, refs),
{
    let marker = " (refs: "@;
    lemma_one_line_ends(text);
    reveal_strlit(" (refs: ");
    reveal_strlit(")");
    if refs.len() == 0 {
        assert(text + refs_text(refs) =~= text);
        lemma_solid_ends(text);
        lemma_nowhere(text, marker, text.len() as int + 1);
        assert(refs =~= Seq::<Seq<char>>::empty());
    } else {
        let body = joined(refs, ", "@);
        let rest = body + ")"@;
        let all = text + refs_text(refs);
        assert(all =~= text + marker + rest);
        assert(all[0] == text[0]);
        assert(all.last() == ')');
        assert(!white_space(')'));
        lemma_solid_ends(all);
        let at = text.len() as int;
        assert(all.subrange(at, at + marker.len()) =~= marker);
        assert forall|k: int| at < k < all.len() + 1 implies !occurs_at(all, marker, k) by {
            if occurs_at(all, marker, k) {
                assert(all.subrange(k, k + marker.len())[1] == '(');
                let i = k + 1 - at;
                assert(all[k + 1] == '(');
                if i < marker.len() {
                    assert(all[k + 1] == marker[i]);
                } else if i - marker.len() < body.len() {
                    lemma_no_bracket(refs, i - marker.len());
                    assert(all[k + 1] == body[i - marker.len()]);
                } else {
                    assert(all[k + 1] == ')');
                }
            }
        }
        lemma_last_before(all, marker, all.len() as int + 1, at);
        assert(all.subrange(0, at) =~= text);
        assert(all.subrange(at + marker.len(), all.len() as int) =~= rest);
        assert(rest.subrange(rest.len() - 1, rest.len() as int) =~= ")"@);
        assert(has_suffix(rest, ")"@));
        assert(rest.drop_last() =~= body);
        lemma_refs_read_back(refs);
    }
}

// -- laws -------------------------------------------------------------------------------------

/// An entry that was written in the documented form is read back as it was: its id, kind and tags,
/// its text and its references.
pub proof fn law_entry_reads_back(entry: EntryView)
    requires
        plain_entry(entry),
    ensures
        entry_of(entry_line(entry)) == Some(entry),
{
    let parts = entry_words(entry);
    let prefix = joined(parts, " "@);
    let rest = entry.text + refs_text(entry.refs);
    let payload = prefix + " "@ + (":: "@ + rest);
    let line = entry_line(entry);
    reveal_strlit("- ");
    reveal_strlit(" ");
    reveal_strlit(":: ");
    reveal_strlit(" :: ");
    reveal_strlit("::");
    reveal_strlit("#");
    reveal_strlit("CSP#");
    assert(line.subrange(0, 2) =~= "- "@);
    assert(has_prefix(line, "- "@));
    assert(line.subrange(2, line.len() as int) =~= payload);
    assert forall|k: int| 0 <= k < parts.len() implies is_word(#[trigger] parts[k]) && parts[k]
        != "::"@ by {
        if k == 0 {
            assert(parts[0] == entry.id);
            assert(entry.id.subrange(0, 4)[0] == 'C');
            assert(entry.id[0] == 'C');
        } else if k >= 2 {
            let tag = entry.tags[k - 2];
            assert(is_word(tag));
            assert(parts[k] == "#"@ + tag);
            assert(parts[k][0] == '#');
            assert forall|i: int| 0 <= i < parts[k].len() implies !white_space(
                #[trigger] parts[k][i],
            ) by {
                if i > 0 {
                    assert(parts[k][i] == tag[i - 1]);
                }
            }
        }
    }
    // The separator stands behind the words, and nowhere before.
    let at = prefix.len() as int;
    assert(payload.subrange(at, at + 4) =~= " :: "@);
    assert forall|k: int| 0 <= k < at implies !occurs_at(payload, " :: "@, k) by {
        lemma_no_early_separator(parts, ":: "@ + rest, k);
    }
    lemma_first_from(payload, " :: "@, 0, at);
    assert(payload.subrange(0, at) =~= prefix);
    assert(payload.subrange(at + 4, payload.len() as int) =~= rest);
    lemma_pieces_of_joined(parts);
    lemma_words_stay(parts);
    assert(words(prefix) == parts);
    lemma_tags(entry.id, entry.kind, entry.tags);
    lemma_text_reads_back(entry.text, entry.refs);
}

/// A line that is no entry leaves the entries as they are, and an entry leaves the rest.
pub proof fn law_lines_do_not_mix(document: DocumentView, line: Seq<char>)
    ensures
        match entry_of(trimmed(line)) {
            Some(entry) => read_line(document, line) == (DocumentView {
                entries: document.entries.push(entry),
                ..document
            }),
            None => read_line(document, line).entries == document.entries,
        },
{
}

} // verus!
