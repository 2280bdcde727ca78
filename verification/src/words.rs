//! Cutting text into pieces, words and lines.

use crate::text::{
    chars_of, is_white_space, joined, join, occurs_at, stands_at, text_of, texts, white_space,
};
use vstd::prelude::*;
use vstd::string::*;

verus! {

/// Where a text is cut.
#[derive(Clone, Copy, Debug, PartialEq, Eq, Structural)]
pub enum Cut {
    At(char),
    White,
}

pub open spec fn cuts(cut: Cut, c: char) -> bool {
    match cut {
        Cut::At(at) => c == at,
        Cut::White => white_space(c),
    }
}

fn is_cut(cut: Cut, c: char) -> (r: bool)
    ensures
        r == cuts(cut, c),
{
    match cut {
        Cut::At(at) => c == at,
        Cut::White => is_white_space(c),
    }
}

/// The pieces between the cuts, the first and the last included; an empty text is one empty piece.
pub open spec fn pieces(s: Seq<char>, cut: Cut) -> Seq<Seq<char>>
    decreases s.len(),
{
    if s.len() == 0 {
        seq![Seq::empty()]
    } else {
        let before = pieces(s.drop_last(), cut);
        if cuts(cut, s.last()) {
            before.push(Seq::empty())
        } else {
            before.drop_last().push(before.last().push(s.last()))
        }
    }
}

pub proof fn lemma_some_piece(s: Seq<char>, cut: Cut)
    ensures
        pieces(s, cut).len() > 0,
    decreases s.len(),
{
    if s.len() > 0 {
        lemma_some_piece(s.drop_last(), cut);
    }
}

pub fn split_text(text: &str, cut: Cut) -> (parts: Vec<String>)
    ensures
        texts(parts@) == pieces(text@, cut),
        parts@.len() > 0,
{
    let mut parts: Vec<String> = Vec::new();
    let mut current = String::new();
    assert(current@ =~= Seq::<char>::empty());
    assert(texts(parts@).push(current@) =~= pieces(text@.subrange(0, 0), cut));
    for c in it: text.chars()
        invariant
            it.seq() == text@,
            texts(parts@).push(current@) == pieces(text@.subrange(0, it.index()), cut),
    {
        let ghost before = texts(parts@);
        let ghost so_far = current@;
        proof {
            let next = text@.subrange(0, it.index() + 1);
            assert(next.drop_last() =~= text@.subrange(0, it.index()));
            assert(next.last() == c);
            assert(before.push(so_far).drop_last() =~= before);
        }
        if is_cut(cut, c) {
            parts.push(current);
            current = String::new();
            assert(current@ =~= Seq::<char>::empty());
            assert(texts(parts@) =~= before.push(so_far));
        } else {
            current.push(c);
        }
    }
    assert(text@.subrange(0, text@.len() as int) =~= text@);
    let ghost before = texts(parts@);
    let ghost last = current@;
    parts.push(current);
    assert(texts(parts@) =~= before.push(last));
    parts
}

/// The list without its empty members.
pub open spec fn non_empty(parts: Seq<Seq<char>>) -> Seq<Seq<char>>
    decreases parts.len(),
{
    if parts.len() == 0 {
        Seq::empty()
    } else {
        let before = non_empty(parts.drop_last());
        if parts.last().len() == 0 {
            before
        } else {
            before.push(parts.last())
        }
    }
}

pub fn keep_non_empty(parts: Vec<String>) -> (r: Vec<String>)
    ensures
        texts(r@) == non_empty(texts(parts@)),
{
    let ghost all = texts(parts@);
    let mut kept: Vec<String> = Vec::new();
    let mut i: usize = 0;
    assert(texts(kept@) =~= non_empty(all.subrange(0, 0)));
    while i < parts.len()
        invariant
            i <= parts@.len(),
            all == texts(parts@),
            texts(kept@) == non_empty(all.subrange(0, i as int)),
        decreases parts@.len() - i,
    {
        proof {
            let next = all.subrange(0, i + 1);
            assert(next.drop_last() =~= all.subrange(0, i as int));
            assert(next.last() == parts@[i as int]@);
        }
        if !parts[i].as_str().is_empty() {
            let ghost before = texts(kept@);
            kept.push(parts[i].as_str().to_owned());
            assert(texts(kept@) =~= before.push(parts@[i as int]@));
        }
        i += 1;
    }
    assert(all.subrange(0, i as int) =~= all);
    kept
}

/// The words of a text: what stands between white space.
pub open spec fn words(s: Seq<char>) -> Seq<Seq<char>> {
    non_empty(pieces(s, Cut::White))
}

pub fn words_of(text: &str) -> (r: Vec<String>)
    ensures
        texts(r@) == words(text@),
{
    keep_non_empty(split_text(text, Cut::White))
}

/// The words of a text with one space between each two.
pub open spec fn one_line(s: Seq<char>) -> Seq<char> {
    joined(words(s), " "@)
}

pub fn normalize_inline_text(text: &str) -> (r: String)
    ensures
        r@ == one_line(text@),
{
    join(&words_of(text), " ")
}

/// The line without the carriage return of its line ending.
pub open spec fn without_return(line: Seq<char>) -> Seq<char> {
    if line.len() > 0 && line.last() == '\r' {
        line.drop_last()
    } else {
        line
    }
}

/// The lines of a text. A line ends with a line feed, before which a carriage return may stand;
/// the last line may do without.
pub open spec fn lines(s: Seq<char>) -> Seq<Seq<char>> {
    let parts = pieces(s, Cut::At('\n'));
    Seq::new(
        if parts.last().len() == 0 {
            (parts.len() - 1) as nat
        } else {
            parts.len()
        },
        |k: int|
            if k < parts.len() - 1 {
                without_return(parts[k])
            } else {
                parts[k]
            },
    )
}

pub fn lines_of(text: &str) -> (r: Vec<String>)
    ensures
        texts(r@) == lines(text@),
{
    let parts = split_text(text, Cut::At('\n'));
    let ghost all = texts(parts@);
    let n: usize = parts.len();
    assert(all.last() == parts@[n - 1]@);
    let count: usize = if parts[n - 1].as_str().is_empty() {
        n - 1
    } else {
        n
    };
    let mut r: Vec<String> = Vec::new();
    let mut i: usize = 0;
    assert(texts(r@) =~= lines(text@).subrange(0, 0));
    while i < count
        invariant
            i <= count <= n == parts@.len(),
            all == texts(parts@),
            all == pieces(text@, Cut::At('\n')),
            count == lines(text@).len(),
            texts(r@) == lines(text@).subrange(0, i as int),
        decreases count - i,
    {
        let ghost before = texts(r@);
        assert(all[i as int] == parts@[i as int]@);
        let line = if i < n - 1 {
            let chars = chars_of(parts[i].as_str());
            let len: usize = chars.len();
            if len > 0 && chars[len - 1] == '\r' {
                assert(chars@.subrange(0, len - 1) =~= chars@.drop_last());
                text_of(chars.as_slice(), 0, len - 1)
            } else {
                parts[i].as_str().to_owned()
            }
        } else {
            parts[i].as_str().to_owned()
        };
        assert(line@ == lines(text@)[i as int]);
        r.push(line);
        proof {
            assert(texts(r@) =~= before.push(line@));
            assert(lines(text@).subrange(0, i + 1) =~= lines(text@).subrange(0, i as int).push(
                lines(text@)[i as int],
            ));
        }
        i += 1;
    }
    assert(lines(text@).subrange(0, count as int) =~= lines(text@));
    r
}

// ---------------------------------------------------------------------------------------------
// Cutting in two.
// ---------------------------------------------------------------------------------------------

/// The first place from `from` on where the part stands.
pub open spec fn first_from(s: Seq<char>, part: Seq<char>, from: int) -> Option<int>
    decreases s.len() + 1 - from,
{
    if from < 0 || from + part.len() > s.len() {
        None
    } else if occurs_at(s, part, from) {
        Some(from)
    } else {
        first_from(s, part, from + 1)
    }
}

/// The last place before `end` where the part stands.
pub open spec fn last_before(s: Seq<char>, part: Seq<char>, end: int) -> Option<int>
    decreases end,
{
    if end <= 0 {
        None
    } else if occurs_at(s, part, end - 1) {
        Some(end - 1)
    } else {
        last_before(s, part, end - 1)
    }
}

pub open spec fn around(s: Seq<char>, part: Seq<char>, at: Option<int>) -> Option<
    (Seq<char>, Seq<char>),
> {
    match at {
        None => None,
        Some(at) => Some(
            (s.subrange(0, at), s.subrange(at + part.len(), s.len() as int)),
        ),
    }
}

/// What stands before and after the first place where the part stands.
pub open spec fn cut_once(s: Seq<char>, part: Seq<char>) -> Option<(Seq<char>, Seq<char>)> {
    around(s, part, first_from(s, part, 0))
}

/// What stands before and after the last place where the part stands.
pub open spec fn cut_last(s: Seq<char>, part: Seq<char>) -> Option<(Seq<char>, Seq<char>)> {
    around(s, part, last_before(s, part, s.len() as int + 1))
}

pub open spec fn two_texts(r: Option<(String, String)>) -> Option<(Seq<char>, Seq<char>)> {
    match r {
        None => None,
        Some((a, b)) => Some((a@, b@)),
    }
}

pub fn split_once(text: &str, part: &str) -> (r: Option<(String, String)>)
    ensures
        two_texts(r) == cut_once(text@, part@),
{
    let chars = chars_of(text);
    let wanted = chars_of(part);
    let n: usize = chars.len();
    let m: usize = wanted.len();
    if m > n {
        return None;
    }
    let mut i: usize = 0;
    while i <= n - m
        invariant
            m <= n == chars@.len(),
            m == wanted@.len(),
            chars@ == text@,
            wanted@ == part@,
            i <= n - m + 1,
            first_from(text@, part@, 0) == first_from(text@, part@, i as int),
        decreases n - i,
    {
        if stands_at(chars.as_slice(), wanted.as_slice(), i) {
            return Some((text_of(chars.as_slice(), 0, i), text_of(chars.as_slice(), i + m, n)));
        }
        if i == n - m {
            assert(first_from(text@, part@, i + 1) is None);
            return None;
        }
        i += 1;
    }
    None
}

pub fn rsplit_once(text: &str, part: &str) -> (r: Option<(String, String)>)
    ensures
        two_texts(r) == cut_last(text@, part@),
{
    let chars = chars_of(text);
    let wanted = chars_of(part);
    let n: usize = chars.len();
    let m: usize = wanted.len();
    if m > n {
        proof {
            lemma_no_late_place(text@, part@, text@.len() as int + 1, 0);
        }
        return None;
    }
    let mut at: usize = n - m;
    proof {
        lemma_no_late_place(text@, part@, text@.len() as int + 1, at + 1);
    }
    while at > 0
        invariant
            m <= n == chars@.len(),
            m == wanted@.len(),
            chars@ == text@,
            wanted@ == part@,
            at <= n - m,
            last_before(text@, part@, text@.len() as int + 1) == last_before(text@, part@, at + 1),
        decreases at,
    {
        if stands_at(chars.as_slice(), wanted.as_slice(), at) {
            return Some((text_of(chars.as_slice(), 0, at), text_of(chars.as_slice(), at + m, n)));
        }
        at -= 1;
    }
    assert(last_before(text@, part@, 0) is None);
    if stands_at(chars.as_slice(), wanted.as_slice(), 0) {
        Some((text_of(chars.as_slice(), 0, 0), text_of(chars.as_slice(), m, n)))
    } else {
        None
    }
}

/// Nothing stands where it would reach past the end.
proof fn lemma_no_late_place(s: Seq<char>, part: Seq<char>, end: int, upto: int)
    requires
        0 <= upto <= end,
        upto + part.len() > s.len(),
    ensures
        last_before(s, part, end) == last_before(s, part, upto),
    decreases end - upto,
{
    if upto < end {
        assert(!occurs_at(s, part, end - 1));
        lemma_no_late_place(s, part, end - 1, upto);
    }
}

// -- laws -------------------------------------------------------------------------------------

/// The text is not empty and has no white space in it.
pub open spec fn is_word(s: Seq<char>) -> bool {
    s.len() > 0 && forall|i: int| 0 <= i < s.len() ==> !white_space(#[trigger] s[i])
}

pub open spec fn all_words(list: Seq<Seq<char>>) -> bool {
    forall|k: int| 0 <= k < list.len() ==> is_word(#[trigger] list[k])
}

spec fn unbroken(list: Seq<Seq<char>>) -> bool {
    forall|k: int, i: int|
        0 <= k < list.len() && 0 <= i < list[k].len() ==> !white_space(#[trigger] list[k][i])
}

proof fn lemma_pieces_unbroken(s: Seq<char>)
    ensures
        unbroken(pieces(s, Cut::White)),
    decreases s.len(),
{
    if s.len() > 0 {
        lemma_pieces_unbroken(s.drop_last());
        lemma_some_piece(s.drop_last(), Cut::White);
        let before = pieces(s.drop_last(), Cut::White);
        let after = pieces(s, Cut::White);
        assert forall|k: int, i: int|
            0 <= k < after.len() && 0 <= i < after[k].len() implies !white_space(
            #[trigger] after[k][i],
        ) by {
            if k < before.len() - 1 {
                assert(after[k] == before[k]);
                assert(!white_space(before[k][i]));
            } else if !cuts(Cut::White, s.last()) {
                if i < before.last().len() {
                    assert(!white_space(before[before.len() - 1][i]));
                }
            } else if k == before.len() - 1 {
                assert(!white_space(before[k][i]));
            }
        }
    }
}

proof fn lemma_non_empty_words(parts: Seq<Seq<char>>)
    requires
        unbroken(parts),
    ensures
        all_words(non_empty(parts)),
    decreases parts.len(),
{
    if parts.len() > 0 {
        let front = parts.drop_last();
        assert forall|k: int, i: int|
            0 <= k < front.len() && 0 <= i < front[k].len() implies !white_space(
            #[trigger] front[k][i],
        ) by {
            assert(front[k] == parts[k]);
            assert(!white_space(parts[k][i]));
        }
        lemma_non_empty_words(front);
        if parts.last().len() > 0 {
            let last = parts.last();
            assert forall|i: int| 0 <= i < last.len() implies !white_space(#[trigger] last[i]) by {
                assert(!white_space(parts[parts.len() - 1][i]));
            }
        }
    }
}

/// Every word of a text is one: it is not empty and has no white space in it.
pub proof fn law_words_are_words(s: Seq<char>)
    ensures
        all_words(words(s)),
{
    lemma_pieces_unbroken(s);
    lemma_non_empty_words(pieces(s, Cut::White));
}

proof fn lemma_pieces_with_word(s: Seq<char>, word: Seq<char>)
    requires
        forall|i: int| 0 <= i < word.len() ==> !white_space(#[trigger] word[i]),
    ensures
        pieces(s + word, Cut::White) == pieces(s, Cut::White).drop_last().push(
            pieces(s, Cut::White).last() + word,
        ),
    decreases word.len(),
{
    let before = pieces(s, Cut::White);
    lemma_some_piece(s, Cut::White);
    if word.len() == 0 {
        assert(s + word =~= s);
        assert(before.last() + word =~= before.last());
        assert(before.drop_last().push(before.last()) =~= before);
    } else {
        let front = word.drop_last();
        assert forall|i: int| 0 <= i < front.len() implies !white_space(#[trigger] front[i]) by {
            assert(front[i] == word[i]);
        }
        lemma_pieces_with_word(s, front);
        assert((s + word).drop_last() =~= s + front);
        assert((s + word).last() == word[word.len() - 1]);
        let middle = before.drop_last().push(before.last() + front);
        assert(middle.drop_last() =~= before.drop_last());
        assert((before.last() + front).push(word.last()) =~= before.last() + word);
    }
}

pub proof fn lemma_pieces_of_joined(list: Seq<Seq<char>>)
    requires
        list.len() > 0,
        all_words(list),
    ensures
        pieces(joined(list, " "@), Cut::White) == list,
    decreases list.len(),
{
    reveal_strlit(" ");
    let last = list.last();
    assert(is_word(list[list.len() - 1]));
    if list.len() == 1 {
        let none = Seq::<char>::empty();
        lemma_pieces_with_word(none, last);
        assert(none + last =~= last);
        assert(pieces(none, Cut::White) =~= seq![none]);
        assert(pieces(last, Cut::White) =~= list);
    } else {
        let front = list.drop_last();
        assert forall|k: int| 0 <= k < front.len() implies is_word(#[trigger] front[k]) by {
            assert(front[k] == list[k]);
        }
        lemma_pieces_of_joined(front);
        let start = joined(front, " "@);
        let spaced = start + " "@;
        assert(spaced.drop_last() =~= start);
        assert(spaced.last() == ' ');
        assert(white_space(' '));
        let none = Seq::<char>::empty();
        assert(pieces(spaced, Cut::White) == front.push(none));
        lemma_pieces_with_word(spaced, last);
        assert(front.push(none).drop_last() =~= front);
        assert(none + last =~= last);
        assert(front.push(last) =~= list);
    }
}

pub proof fn lemma_words_stay(list: Seq<Seq<char>>)
    requires
        all_words(list),
    ensures
        non_empty(list) == list,
    decreases list.len(),
{
    if list.len() > 0 {
        let front = list.drop_last();
        assert forall|k: int| 0 <= k < front.len() implies is_word(#[trigger] front[k]) by {
            assert(front[k] == list[k]);
        }
        lemma_words_stay(front);
        assert(is_word(list[list.len() - 1]));
        assert(front.push(list.last()) =~= list);
    } else {
        assert(non_empty(list) =~= list);
    }
}

/// Text that was put on one line keeps its words, and putting it on one line again changes
/// nothing.
pub proof fn law_inline_text_is_stable(s: Seq<char>)
    ensures
        words(one_line(s)) == words(s),
        one_line(one_line(s)) == one_line(s),
{
    law_words_are_words(s);
    let list = words(s);
    if list.len() == 0 {
        let none = Seq::<char>::empty();
        assert(one_line(s) =~= none);
        let parts = pieces(none, Cut::White);
        assert(parts =~= seq![none]);
        assert(non_empty(parts.drop_last()) =~= Seq::<Seq<char>>::empty());
        assert(words(one_line(s)) =~= list);
    } else {
        lemma_pieces_of_joined(list);
        lemma_words_stay(list);
    }
}

} // verus!
