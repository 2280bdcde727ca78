//! Approximate token counts and truncation to a token budget.

use crate::text::{
    byte_len, char_bytes, chars_of, decimal, decimal_text, lemma_text_bytes_concat,
    lemma_text_bytes_is_utf8_length, lemma_text_bytes_push, text_bytes, text_of,
};
use vstd::prelude::*;
use vstd::string::*;
use vstd::utf8::*;

verus! {

/// A token stands for about this many bytes.
pub const APPROX_BYTES_PER_TOKEN: usize = 4;

/// The tokens that `bytes` bytes come to, rounded up.
pub open spec fn tokens_of_bytes(bytes: nat) -> nat {
    (bytes + 3) / 4
}

/// The bytes that `tokens` tokens stand for, as far as a `usize` reaches.
pub open spec fn bytes_of_tokens(tokens: nat) -> nat {
    if tokens * 4 <= usize::MAX {
        tokens * 4
    } else {
        usize::MAX as nat
    }
}

pub open spec fn text_tokens(s: Seq<char>) -> nat {
    tokens_of_bytes(text_bytes(s))
}

pub fn approx_token_count(text: &str) -> (n: usize)
    ensures
        n == text_tokens(text@),
{
    let bytes: usize = byte_len(text);
    bytes / 4 + if bytes % 4 == 0 {
        0
    } else {
        1
    }
}

pub fn approx_bytes_for_tokens(tokens: usize) -> (n: usize)
    ensures
        n == bytes_of_tokens(tokens as nat),
{
    if tokens <= usize::MAX / 4 {
        tokens * 4
    } else {
        usize::MAX
    }
}

/// The longest prefix of at most `max` bytes.
pub open spec fn prefix_within(s: Seq<char>, max: nat) -> Seq<char>
    decreases s.len(),
{
    if text_bytes(s) <= max || s.len() == 0 {
        s
    } else {
        prefix_within(s.drop_last(), max)
    }
}

/// The longest suffix of at most `max` bytes.
pub open spec fn suffix_within(s: Seq<char>, max: nat) -> Seq<char>
    decreases s.len(),
{
    if text_bytes(s) <= max || s.len() == 0 {
        s
    } else {
        suffix_within(s.drop_first(), max)
    }
}

/// The note that stands for `removed` tokens.
pub open spec fn truncation_marker(removed: nat) -> Seq<char> {
    "…"@ + decimal(removed) + " tokens truncated…"@
}

/// The text itself where it keeps to the budget. Else its two ends, which share the budget's
/// bytes, and a note between them on how many tokens are gone.
pub open spec fn truncated(s: Seq<char>, tokens: nat) -> Seq<char> {
    let budget = bytes_of_tokens(tokens);
    if text_bytes(s) <= budget {
        s
    } else {
        prefix_within(s, budget / 2) + truncation_marker(
            tokens_of_bytes((text_bytes(s) - budget) as nat),
        ) + suffix_within(s, (budget - budget / 2) as nat)
    }
}

proof fn lemma_text_bytes_subrange(s: Seq<char>, to: int)
    requires
        0 <= to <= s.len(),
    ensures
        text_bytes(s.subrange(0, to)) <= text_bytes(s),
        text_bytes(s) == text_bytes(s.subrange(0, to)) + text_bytes(s.subrange(to, s.len() as int)),
{
    assert(s =~= s.subrange(0, to) + s.subrange(to, s.len() as int));
    lemma_text_bytes_concat(s.subrange(0, to), s.subrange(to, s.len() as int));
}

proof fn lemma_prefix_within(s: Seq<char>, max: nat, to: int)
    requires
        0 <= to <= s.len(),
        text_bytes(s.subrange(0, to)) <= max,
        to == s.len() || text_bytes(s.subrange(0, to + 1)) > max,
    ensures
        prefix_within(s, max) == s.subrange(0, to),
    decreases s.len(),
{
    if to == s.len() {
        assert(s.subrange(0, to) =~= s);
    } else {
        lemma_text_bytes_subrange(s, to + 1);
        let rest = s.drop_last();
        assert(rest.subrange(0, to) =~= s.subrange(0, to));
        if to < rest.len() {
            assert(rest.subrange(0, to + 1) =~= s.subrange(0, to + 1));
        }
        lemma_prefix_within(rest, max, to);
    }
}

proof fn lemma_suffix_within(s: Seq<char>, max: nat, from: int)
    requires
        0 <= from <= s.len(),
        text_bytes(s.subrange(from, s.len() as int)) <= max,
        from == 0 || text_bytes(s.subrange(from - 1, s.len() as int)) > max,
    ensures
        suffix_within(s, max) == s.subrange(from, s.len() as int),
    decreases s.len(),
{
    if from == 0 {
        assert(s.subrange(0, s.len() as int) =~= s);
    } else {
        lemma_text_bytes_subrange(s, from - 1);
        let rest = s.drop_first();
        assert(rest.subrange(from - 1, rest.len() as int) =~= s.subrange(from, s.len() as int));
        if from > 1 {
            assert(rest.subrange(from - 2, rest.len() as int) =~= s.subrange(
                from - 1,
                s.len() as int,
            ));
        }
        lemma_suffix_within(rest, max, from - 1);
    }
}

/// The bytes of one character.
pub fn char_len(c: char) -> (n: usize)
    ensures
        n == char_bytes(c),
        1 <= n <= 4,
{
    let v: u32 = c as u32;
    if v < 0x80 {
        1
    } else if v < 0x800 {
        2
    } else if v < 0x10000 {
        3
    } else {
        4
    }
}

/// How many of `chars` fit into `max` bytes, from the front.
fn prefix_len(chars: &[char], max: usize) -> (to: usize)
    ensures
        to <= chars@.len(),
        chars@.subrange(0, to as int) == prefix_within(chars@, max as nat),
{
    let mut used: usize = 0;
    let mut to: usize = 0;
    assert(chars@.subrange(0, 0) =~= Seq::<char>::empty());
    while to < chars.len() && char_len(chars[to]) <= max - used
        invariant
            to <= chars@.len(),
            used == text_bytes(chars@.subrange(0, to as int)),
            used <= max,
        ensures
            to == chars@.len() || text_bytes(chars@.subrange(0, to as int)) + char_bytes(
                chars@[to as int],
            ) > max,
        decreases chars@.len() - to,
    {
        used += char_len(chars[to]);
        proof {
            lemma_text_bytes_push(chars@.subrange(0, to as int), chars@[to as int]);
            assert(chars@.subrange(0, to as int).push(chars@[to as int]) =~= chars@.subrange(
                0,
                to + 1,
            ));
        }
        to += 1;
    }
    proof {
        if to < chars@.len() {
            lemma_text_bytes_push(chars@.subrange(0, to as int), chars@[to as int]);
            assert(chars@.subrange(0, to as int).push(chars@[to as int]) =~= chars@.subrange(
                0,
                to + 1,
            ));
        }
        lemma_prefix_within(chars@, max as nat, to as int);
    }
    to
}

proof fn lemma_text_bytes_front(s: Seq<char>)
    requires
        s.len() > 0,
    ensures
        text_bytes(s) == char_bytes(s[0]) + text_bytes(s.drop_first()),
{
    let first = seq![s[0]];
    assert(s =~= first + s.drop_first());
    lemma_text_bytes_concat(first, s.drop_first());
    assert(first.drop_last() =~= Seq::<char>::empty());
    assert(text_bytes(first.drop_last()) == 0);
}

/// Where the longest suffix of at most `max` bytes starts.
fn suffix_start(chars: &[char], max: usize) -> (from: usize)
    ensures
        from <= chars@.len(),
        chars@.subrange(from as int, chars@.len() as int) == suffix_within(chars@, max as nat),
{
    let n: usize = chars.len();
    let mut used: usize = 0;
    let mut from: usize = n;
    assert(chars@.subrange(n as int, n as int) =~= Seq::<char>::empty());
    while from > 0 && char_len(chars[from - 1]) <= max - used
        invariant
            from <= n == chars@.len(),
            used == text_bytes(chars@.subrange(from as int, n as int)),
            used <= max,
        ensures
            from == 0 || text_bytes(chars@.subrange(from as int, n as int)) + char_bytes(
                chars@[from - 1],
            ) > max,
        decreases from,
    {
        used += char_len(chars[from - 1]);
        proof {
            let longer = chars@.subrange(from - 1, n as int);
            lemma_text_bytes_front(longer);
            assert(longer.drop_first() =~= chars@.subrange(from as int, n as int));
        }
        from -= 1;
    }
    proof {
        if from > 0 {
            let longer = chars@.subrange(from - 1, n as int);
            lemma_text_bytes_front(longer);
            assert(longer.drop_first() =~= chars@.subrange(from as int, n as int));
        }
        lemma_suffix_within(chars@, max as nat, from as int);
    }
    from
}

/// Cuts the middle out of a text that is over the budget.
pub fn truncate_text(text: &str, tokens: usize) -> (r: String)
    ensures
        r@ == truncated(text@, tokens as nat),
{
    let budget: usize = approx_bytes_for_tokens(tokens);
    let bytes: usize = byte_len(text);
    if bytes <= budget {
        return text.to_owned();
    }
    let removed: usize = bytes - budget;
    let removed_tokens: usize = removed / 4 + if removed % 4 == 0 {
        0
    } else {
        1
    };
    let chars = chars_of(text);
    let to: usize = prefix_len(chars.as_slice(), budget / 2);
    let from: usize = suffix_start(chars.as_slice(), budget - budget / 2);
    let mut r = text_of(chars.as_slice(), 0, to);
    let mut marker = String::from_str("…");
    marker.append(decimal_text(removed_tokens as u64).as_str());
    marker.append(" tokens truncated…");
    r.append(marker.as_str());
    r.append(text_of(chars.as_slice(), from, chars.len()).as_str());
    r
}

// -- laws -------------------------------------------------------------------------------------

proof fn lemma_prefix_within_bound(s: Seq<char>, max: nat)
    ensures
        text_bytes(prefix_within(s, max)) <= max,
    decreases s.len(),
{
    if !(text_bytes(s) <= max || s.len() == 0) {
        lemma_prefix_within_bound(s.drop_last(), max);
    }
}

proof fn lemma_suffix_within_bound(s: Seq<char>, max: nat)
    ensures
        text_bytes(suffix_within(s, max)) <= max,
    decreases s.len(),
{
    if !(text_bytes(s) <= max || s.len() == 0) {
        lemma_suffix_within_bound(s.drop_first(), max);
    }
}

/// A text within the budget is kept; one over it comes out with no more than the budget's bytes
/// around the note.
pub proof fn law_truncation_keeps_to_the_budget(s: Seq<char>, tokens: nat)
    ensures
        text_tokens(s) <= tokens ==> truncated(s, tokens) == s || tokens * 4 > usize::MAX,
        text_bytes(s) > bytes_of_tokens(tokens) ==> text_bytes(truncated(s, tokens))
            <= bytes_of_tokens(tokens) + text_bytes(
            truncation_marker(
                tokens_of_bytes((text_bytes(s) - bytes_of_tokens(tokens)) as nat),
            ),
        ),
{
    let budget = bytes_of_tokens(tokens);
    if text_bytes(s) > budget {
        let front = prefix_within(s, budget / 2);
        let marker = truncation_marker(tokens_of_bytes((text_bytes(s) - budget) as nat));
        let back = suffix_within(s, (budget - budget / 2) as nat);
        lemma_prefix_within_bound(s, budget / 2);
        lemma_suffix_within_bound(s, (budget - budget / 2) as nat);
        lemma_text_bytes_concat(front, marker);
        lemma_text_bytes_concat(front + marker, back);
    }
}

/// How many characters from the front have at most `max` bytes, no more of them fitting.
proof fn lemma_prefix_within_is_longest(s: Seq<char>, max: nat) -> (to: int)
    ensures
        0 <= to <= s.len(),
        prefix_within(s, max) == s.subrange(0, to),
        text_bytes(s.subrange(0, to)) <= max,
        to < s.len() ==> text_bytes(s.subrange(0, to)) + char_bytes(s[to]) > max,
    decreases s.len(),
{
    if text_bytes(s) <= max || s.len() == 0 {
        assert(s.subrange(0, s.len() as int) =~= s);
        s.len() as int
    } else {
        let rest = s.drop_last();
        let to = lemma_prefix_within_is_longest(rest, max);
        assert(rest.subrange(0, to) =~= s.subrange(0, to));
        if to == rest.len() {
            assert(s.subrange(0, to).push(s[to]) =~= s);
            lemma_text_bytes_push(s.subrange(0, to), s[to]);
        }
        to
    }
}

/// Where the longest end of at most `max` bytes starts.
proof fn lemma_suffix_within_is_longest(s: Seq<char>, max: nat) -> (from: int)
    ensures
        0 <= from <= s.len(),
        suffix_within(s, max) == s.subrange(from, s.len() as int),
        text_bytes(s.subrange(from, s.len() as int)) <= max,
        from > 0 ==> text_bytes(s.subrange(from, s.len() as int)) + char_bytes(s[from - 1]) > max,
    decreases s.len(),
{
    if text_bytes(s) <= max || s.len() == 0 {
        assert(s.subrange(0, s.len() as int) =~= s);
        0
    } else {
        let rest = s.drop_first();
        let from = lemma_suffix_within_is_longest(rest, max);
        assert(rest.subrange(from, rest.len() as int) =~= s.subrange(from + 1, s.len() as int));
        lemma_text_bytes_front(s);
        if from == 0 {
            assert(rest.subrange(0, rest.len() as int) =~= rest);
        }
        from + 1
    }
}

/// `shown` is the first `to` characters of `s`, the note that `removed` tokens are gone, and the
/// characters from `from` on. Both ends are as long as half of `bytes` allows.
pub open spec fn shows_both_ends(
    shown: Seq<char>,
    s: Seq<char>,
    bytes: nat,
    removed: nat,
    to: int,
    from: int,
) -> bool {
    &&& 0 <= to <= from <= s.len()
    &&& shown == s.subrange(0, to) + ("…"@ + decimal(removed) + " tokens truncated…"@) + s.subrange(
        from,
        s.len() as int,
    )
    &&& 2 * text_bytes(s.subrange(0, to)) <= bytes
    &&& 2 * (text_bytes(s.subrange(0, to)) + char_bytes(s[to])) > bytes
    &&& 2 * text_bytes(s.subrange(from, s.len() as int)) <= bytes
    &&& 2 * (text_bytes(s.subrange(from, s.len() as int)) + char_bytes(s[from - 1])) > bytes
}

/// What the text keeps and what it removes: within the budget it stays as it is. Over it, the
/// first and the last characters for four bytes a token stay, half of them from each end, and the
/// note between them counts the tokens of all bytes over the budget. So the ends show all of the
/// budget but six bytes at most.
pub proof fn law_truncation_shows_both_ends(s: Seq<char>, tokens: nat)
    requires
        tokens * 4 <= usize::MAX,
    ensures
        text_bytes(s) <= tokens * 4 ==> truncated(s, tokens) == s,
        text_bytes(s) > tokens * 4 ==> exists|to: int, from: int|
            {
                &&& #[trigger] shows_both_ends(
                    truncated(s, tokens),
                    s,
                    tokens * 4,
                    ((text_bytes(s) - tokens * 4 + 3) / 4) as nat,
                    to,
                    from,
                )
                &&& text_bytes(s.subrange(0, to)) + text_bytes(s.subrange(from, s.len() as int)) + 6
                    >= tokens * 4
            },
{
    if text_bytes(s) > tokens * 4 {
        let half = (tokens * 2) as nat;
        let to = lemma_prefix_within_is_longest(s, half);
        let from = lemma_suffix_within_is_longest(s, half);
        assert(bytes_of_tokens(tokens) / 2 == half);
        assert(s.subrange(0, s.len() as int) =~= s);
        assert(to < s.len());
        assert(from > 0);
        if to > from {
            lemma_text_bytes_subrange(s, from);
            lemma_text_bytes_subrange(s.subrange(0, to), from);
            assert(s.subrange(0, to).subrange(0, from) =~= s.subrange(0, from));
        }
        assert(shows_both_ends(
            truncated(s, tokens),
            s,
            tokens * 4,
            ((text_bytes(s) - tokens * 4 + 3) / 4) as nat,
            to,
            from,
        ));
    }
}

/// The tokens of a text are its bytes by four, rounded up, and the bytes are those of its UTF-8
/// form.
pub proof fn law_token_count(s: Seq<char>)
    ensures
        4 * text_tokens(s) >= encode_utf8(s).len(),
        4 * text_tokens(s) < encode_utf8(s).len() + 4,
{
    lemma_text_bytes_is_utf8_length(s);
}

} // verus!
